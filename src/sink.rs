//! Destinations that receive generated symbols.
use vstd::prelude::*;

verus! {

/// A sink refused a symbol.
#[derive(Debug, Clone, Copy, PartialEq, Eq, Structural)]
pub struct SinkError;

/// A destination that accepts symbols one at a time and may refuse one.
pub trait Sink: Sized {
    /// The symbols accepted so far, in order.
    spec fn written(&self) -> Seq<char>;

    /// Whether this sink accepts every symbol.
    spec fn never_fails(&self) -> bool;

    /// Appends `c`, or reports that the sink cannot take it.
    fn write_char(&mut self, c: char) -> (r: Result<(), SinkError>)
        ensures
            r is Ok ==> final(self).written() == old(self).written().push(c),
            r is Ok ==> final(self).never_fails() == old(self).never_fails(),
            r is Err ==> *final(self) == *old(self),
            old(self).never_fails() ==> r is Ok,
    ;
}

/// Relies on `String::push`: it appends the character at the end.
#[verifier::external_body]
fn push_char(s: &mut String, c: char)
    ensures
        final(s)@ == old(s)@.push(c),
{
    s.push(c)
}

/// Relies on `String::with_capacity`: the new string is empty.
#[verifier::external_body]
pub(crate) fn string_with_capacity(capacity: usize) -> (r: String)
    ensures
        r@ == Seq::<char>::empty(),
{
    String::with_capacity(capacity)
}

impl Sink for String {
    open spec fn written(&self) -> Seq<char> {
        self@
    }

    open spec fn never_fails(&self) -> bool {
        true
    }

    fn write_char(&mut self, c: char) -> (r: Result<(), SinkError>) {
        push_char(self, c);
        Ok(())
    }
}

/// A sink that takes at most a fixed number of symbols and refuses the rest.
pub struct BoundedSink {
    chars: Vec<char>,
    capacity: usize,
}

impl BoundedSink {
    /// The most symbols this sink takes.
    pub closed spec fn spec_capacity(&self) -> usize {
        self.capacity
    }

    /// An empty sink that takes at most `capacity` symbols.
    pub fn new(capacity: usize) -> (r: Self)
        ensures
            r.written() == Seq::<char>::empty(),
            r.spec_capacity() == capacity,
    {
        BoundedSink { chars: Vec::new(), capacity }
    }

    /// The symbols taken so far, as a string.
    pub fn contents(&self) -> (r: String)
        ensures
            r@ == self.written(),
    {
        let mut r = String::new();
        let mut i: usize = 0;
        while i < self.chars.len()
            invariant
                i <= self.chars@.len(),
                r@ == self.chars@.take(i as int),
            decreases self.chars@.len() - i,
        {
            push_char(&mut r, self.chars[i]);
            proof {
                assert(self.chars@.take(i + 1) =~= self.chars@.take(i as int).push(self.chars@[i as int]));
            }
            i = i + 1;
        }
        assert(self.chars@.take(i as int) =~= self.chars@);
        r
    }
}

impl Sink for BoundedSink {
    closed spec fn written(&self) -> Seq<char> {
        self.chars@
    }

    closed spec fn never_fails(&self) -> bool {
        false
    }

    fn write_char(&mut self, c: char) -> (r: Result<(), SinkError>)
        ensures
            r is Ok <==> old(self).written().len() < old(self).spec_capacity(),
            r is Err ==> *final(self) == *old(self),
    {
        if self.chars.len() < self.capacity {
            self.chars.push(c);
            Ok(())
        } else {
            Err(SinkError)
        }
    }
}

/// An id held in a `smartstring` compact string, which keeps short
/// strings inline.
#[verifier::external_body]
pub struct SmartId {
    inner: smartstring::alias::String,
}

/// The characters that a compact id holds.
pub uninterp spec fn smart_chars(s: SmartId) -> Seq<char>;

impl SmartId {
    /// Relies on `smartstring::SmartString::new`: the new string is empty.
    #[verifier::external_body]
    pub(crate) fn new() -> (r: SmartId)
        ensures
            smart_chars(r) == Seq::<char>::empty(),
    {
        SmartId { inner: smartstring::alias::String::new() }
    }

    /// Relies on `smartstring::SmartString::push`: it appends the character
    /// at the end, as `String::push` does.
    #[verifier::external_body]
    fn push(&mut self, c: char)
        ensures
            smart_chars(*final(self)) == smart_chars(*old(self)).push(c),
    {
        self.inner.push(c)
    }

    /// Relies on `smartstring::SmartString::as_str`: the string slice of the
    /// same characters.
    #[verifier::external_body]
    fn smart_str(&self) -> (r: &str)
        ensures
            r@ == smart_chars(*self),
    {
        self.inner.as_str()
    }

    /// The id as a string slice.
    pub fn as_str(&self) -> (r: &str)
        ensures
            r@ == smart_chars(*self),
    {
        self.smart_str()
    }
}

impl Sink for SmartId {
    open spec fn written(&self) -> Seq<char> {
        smart_chars(*self)
    }

    open spec fn never_fails(&self) -> bool {
        true
    }

    fn write_char(&mut self, c: char) -> (r: Result<(), SinkError>) {
        self.push(c);
        Ok(())
    }
}

} // verus!
