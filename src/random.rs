//! Sources of random bytes.
use vstd::prelude::*;

verus! {

/// A source of random bytes.
///
/// Implementors overwrite the whole buffer on every call and never fail; a
/// source that cannot produce randomness blocks or aborts by itself. The
/// source keeps, as a model, the sequence of every byte it has handed out.
pub trait RandomFiller {
    /// Every byte this source has handed out so far, oldest first.
    spec fn drawn(&self) -> Seq<u8>;

    /// Overwrites every byte of `buf` with fresh random bytes.
    fn fill_random(&mut self, buf: &mut [u8])
        ensures
            final(buf)@.len() == old(buf)@.len(),
            final(self).drawn() == old(self).drawn() + final(buf)@,
    ;
}

/// The bytes that `after` handed out since it was `before`.
pub open spec fn drawn_since<R: RandomFiller>(before: R, after: R) -> Seq<u8> {
    after.drawn().skip(before.drawn().len() as int)
}

/// Whether `after` is `before` having handed out some more bytes.
pub open spec fn extends<R: RandomFiller>(before: R, after: R) -> bool {
    &&& before.drawn().len() <= after.drawn().len()
    &&& after.drawn().take(before.drawn().len() as int) == before.drawn()
}

#[verifier::external_type_specification]
#[verifier::external_body]
pub struct ExThreadRng(rand::rngs::ThreadRng);

#[verifier::external_type_specification]
#[verifier::external_body]
pub struct ExStdRng(rand::rngs::StdRng);

/// Relies on `rand::thread_rng`: it hands out the generator local to this
/// thread; nothing is known of its state.
pub assume_specification[ rand::thread_rng ]() -> rand::rngs::ThreadRng;

/// A random source backed by a generator of the `rand` crate: the
/// thread-local one, or the seedable `StdRng`.
pub struct Rng<R> {
    rng: R,
    history: Ghost<Seq<u8>>,
}

/// Relies on `rand::Rng::fill` on a byte slice: it overwrites the slice in
/// place and keeps its length. The thread-local generator is block based;
/// it panics only where the system's entropy source fails while reseeding,
/// which is a failure of the source that this library does not handle.
#[verifier::external_body]
fn fill_thread_rng(rng: &mut rand::rngs::ThreadRng, buf: &mut [u8])
    ensures
        final(buf)@.len() == old(buf)@.len(),
{
    rand::Rng::fill(rng, buf)
}

/// Relies on `rand::Rng::fill` on a byte slice: it overwrites the slice in
/// place and keeps its length. `StdRng` is block based and never reports an
/// error, so `fill` does not panic.
#[verifier::external_body]
fn fill_std_rng(rng: &mut rand::rngs::StdRng, buf: &mut [u8])
    ensures
        final(buf)@.len() == old(buf)@.len(),
{
    rand::Rng::fill(rng, buf)
}

impl<R> Rng<R> {
    /// Every byte this source has handed out so far, oldest first.
    pub closed spec fn history(&self) -> Seq<u8> {
        self.history@
    }

    /// Wraps a generator; nothing has been drawn from the result yet.
    pub fn new(rng: R) -> (r: Self)
        ensures
            r.history() == Seq::<u8>::empty(),
    {
        Rng { rng, history: Ghost(Seq::empty()) }
    }

    /// Gives back the wrapped generator.
    pub fn into_inner(self) -> R {
        self.rng
    }
}

impl RandomFiller for Rng<rand::rngs::ThreadRng> {
    open spec fn drawn(&self) -> Seq<u8> {
        self.history()
    }

    fn fill_random(&mut self, buf: &mut [u8]) {
        fill_thread_rng(&mut self.rng, buf);
        self.history = Ghost(self.history@ + buf@);
    }
}

impl RandomFiller for Rng<rand::rngs::StdRng> {
    open spec fn drawn(&self) -> Seq<u8> {
        self.history()
    }

    fn fill_random(&mut self, buf: &mut [u8]) {
        fill_std_rng(&mut self.rng, buf);
        self.history = Ghost(self.history@ + buf@);
    }
}

/// The first `n` bytes of `script` repeated without end; zeros where
/// `script` is empty.
pub open spec fn cycle(script: Seq<u8>, n: nat) -> Seq<u8>
    decreases n,
{
    if n == 0 {
        Seq::empty()
    } else {
        let b = if script.len() == 0 {
            0u8
        } else {
            script[(n - 1) % (script.len() as int)]
        };
        cycle(script, (n - 1) as nat).push(b)
    }
}

/// A random source that replays a fixed list of bytes, from the start
/// again once it is through; an empty list replays zeros. Useful to
/// reproduce ids from a recorded stream.
pub struct Replay {
    bytes: Vec<u8>,
    pos: usize,
    count: usize,
    history: Ghost<Seq<u8>>,
}

impl Replay {
    /// Every byte this source has handed out so far, oldest first.
    pub closed spec fn history(&self) -> Seq<u8> {
        self.history@
    }

    /// The list that is replayed.
    pub closed spec fn script(&self) -> Seq<u8> {
        self.bytes@
    }

    /// The number of bytes handed out, counted up to `usize::MAX`.
    pub closed spec fn spec_count(&self) -> usize {
        self.count
    }

    /// Where in the script the next byte comes from agrees with the
    /// number of bytes handed out.
    pub closed spec fn cursor_agrees(&self) -> bool {
        self.bytes@.len() > 0 ==> {
            &&& self.pos <= self.bytes@.len()
            &&& self.pos as int % self.bytes@.len() as int == self.history@.len() as int
                % self.bytes@.len() as int
        }
    }

    /// The source has handed out the script, repeated, and counted it.
    pub open spec fn wf(&self) -> bool {
        &&& self.history() == cycle(self.script(), self.history().len())
        &&& self.spec_count() == if self.history().len() < usize::MAX {
            self.history().len() as usize
        } else {
            usize::MAX
        }
        &&& self.cursor_agrees()
    }

    /// A source that replays `bytes`; nothing has been drawn from it yet.
    pub fn new(bytes: Vec<u8>) -> (r: Self)
        ensures
            r.history() == Seq::<u8>::empty(),
            r.script() == bytes@,
            r.spec_count() == 0,
            r.wf(),
    {
        Replay { bytes, pos: 0, count: 0, history: Ghost(Seq::empty()) }
    }

    /// The number of bytes handed out so far, counted up to `usize::MAX`.
    pub fn count(&self) -> (r: usize)
        ensures
            r == self.spec_count(),
    {
        self.count
    }
}

impl RandomFiller for Replay {
    open spec fn drawn(&self) -> Seq<u8> {
        self.history()
    }

    /// Hands out the next bytes of the script, repeated.
    fn fill_random(&mut self, buf: &mut [u8])
        ensures
            final(self).script() == old(self).script(),
            old(self).wf() ==> final(self).wf(),
    {
        let ghost start = buf@;
        let mut i: usize = 0;
        while i < buf.len()
            invariant
                i <= buf@.len(),
                buf@.len() == start.len(),
                self.history@ == old(self).history@ + buf@.take(i as int),
                self.bytes == old(self).bytes,
                old(self).wf() ==> self.wf(),
            decreases buf@.len() - i,
        {
            let ghost n = self.history@.len() as int;
            let ghost l = self.bytes@.len() as int;
            let b: u8 = if self.bytes.len() == 0 {
                0
            } else {
                self.bytes[self.pos % self.bytes.len()]
            };
            proof {
                assert(buf@.update(i as int, b).take(i + 1) =~= buf@.take(i as int).push(b));
                if old(self).wf() && l > 0 {
                    assert(b == self.bytes@[n % l]);
                    let p = self.pos as int;
                    assert(((p % l) + 1) % l == (n + 1) % l) by (nonlinear_arith)
                        requires
                            l > 0,
                            p % l == n % l,
                    ;
                    assert(((p % l) + 1) <= l) by (nonlinear_arith)
                        requires
                            l > 0,
                    ;
                }
            }
            buf[i] = b;
            self.history = Ghost(self.history@.push(b));
            if self.bytes.len() > 0 {
                self.pos = self.pos % self.bytes.len() + 1;
            }
            self.count = self.count.saturating_add(1);
            i = i + 1;
        }
        proof {
            assert(buf@.take(buf@.len() as int) =~= buf@);
        }
    }
}

} // verus!
