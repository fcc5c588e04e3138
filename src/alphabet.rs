//! The [`Alphabet`] type and the alphabets shipped with the library.
use vstd::prelude::*;

verus! {

/// An ordered, fixed-length set of symbols that ids are drawn from.
///
/// Its length `N` is between 1 and 255, so that a single random byte can
/// address every symbol. Repeated symbols are accepted: such a symbol is
/// drawn proportionally more often, which gives a weighted alphabet.
#[derive(Debug, Clone, Copy)]
pub struct Alphabet<const N: usize>(pub(crate) [char; N]);

/// An alphabet of sixteen symbols.
pub type HexAlphabet = Alphabet<16>;

impl<const N: usize> Alphabet<N> {
    /// The length bound that every alphabet keeps.
    #[verifier::type_invariant]
    pub open spec fn inv(&self) -> bool {
        1 <= N <= 255
    }

    /// The symbols, in order.
    pub closed spec fn symbols(&self) -> Seq<char> {
        self.0@
    }

    /// There are `N` symbols.
    pub proof fn lemma_symbols_len(&self)
        ensures
            self.symbols().len() == N,
    {
    }

    /// Creates an alphabet from its symbols.
    pub fn new(chars: [char; N]) -> (r: Self)
        requires
            1 <= N <= 255,
        ensures
            r.symbols() == chars@,
    {
        Alphabet(chars)
    }

    /// Number of symbols; always between 1 and 255.
    pub fn len(&self) -> (r: usize)
        ensures
            r == N,
            1 <= r <= 255,
            r == self.symbols().len(),
    {
        proof {
            use_type_invariant(self);
        }
        N
    }

    /// The symbol at position `i`.
    pub fn get(&self, i: usize) -> (r: char)
        requires
            i < self.symbols().len(),
        ensures
            r == self.symbols()[i as int],
    {
        self.0[i]
    }
}

/// Whether `c` is an ASCII letter or digit, `-` or `_`.
pub open spec fn is_url_safe(c: char) -> bool {
    ('a' <= c && c <= 'z') || ('A' <= c && c <= 'Z') || ('0' <= c && c <= '9') || c == '-' || c == '_'
}

/// Whether `c` is a decimal digit or one of the letters `a` to `f`.
pub open spec fn is_lower_hex(c: char) -> bool {
    ('0' <= c && c <= '9') || ('a' <= c && c <= 'f')
}

/// Whether `c` is a decimal digit or one of the letters `A` to `F`.
pub open spec fn is_upper_hex(c: char) -> bool {
    ('0' <= c && c <= '9') || ('A' <= c && c <= 'F')
}

/// The symbols of [`url`].
pub open spec fn url_symbols() -> Seq<char> {
    seq![
        '_', '-', '0', '1', '2', '3', '4', '5', '6', '7', '8', '9', 'a', 'b', 'c', 'd', 'e',
        'f', 'g', 'h', 'i', 'j', 'k', 'l', 'm', 'n', 'o', 'p', 'q', 'r', 's', 't', 'u', 'v',
        'w', 'x', 'y', 'z', 'A', 'B', 'C', 'D', 'E', 'F', 'G', 'H', 'I', 'J', 'K', 'L', 'M',
        'N', 'O', 'P', 'Q', 'R', 'S', 'T', 'U', 'V', 'W', 'X', 'Y', 'Z',
    ]
}

/// The symbols of [`hex`].
pub open spec fn hex_symbols() -> Seq<char> {
    seq![
        '0', '1', '2', '3', '4', '5', '6', '7', '8', '9', 'a', 'b', 'c', 'd', 'e', 'f',
    ]
}

/// The symbols of [`hex_upper`].
pub open spec fn hex_upper_symbols() -> Seq<char> {
    seq![
        '0', '1', '2', '3', '4', '5', '6', '7', '8', '9', 'A', 'B', 'C', 'D', 'E', 'F',
    ]
}

/// The url- and file-name-safe alphabet of 64 symbols; the default.
pub fn url() -> (r: Alphabet<64>)
    ensures
        r.symbols() == url_symbols(),
        forall|i: int| 0 <= i < 64 ==> is_url_safe(#[trigger] r.symbols()[i]),
{
    let chars: [char; 64] = [
        '_', '-', '0', '1', '2', '3', '4', '5', '6', '7', '8', '9', 'a', 'b', 'c', 'd', 'e', 'f',
        'g', 'h', 'i', 'j', 'k', 'l', 'm', 'n', 'o', 'p', 'q', 'r', 's', 't', 'u', 'v', 'w', 'x',
        'y', 'z', 'A', 'B', 'C', 'D', 'E', 'F', 'G', 'H', 'I', 'J', 'K', 'L', 'M', 'N', 'O', 'P',
        'Q', 'R', 'S', 'T', 'U', 'V', 'W', 'X', 'Y', 'Z',
    ];
    let r = Alphabet(chars);
    assert(r.symbols() =~= url_symbols());
    r
}

/// Hexadecimal digits with lower-case letters.
pub fn hex() -> (r: HexAlphabet)
    ensures
        r.symbols() == hex_symbols(),
        forall|i: int| 0 <= i < 16 ==> is_lower_hex(#[trigger] r.symbols()[i]),
{
    let chars: [char; 16] = [
        '0', '1', '2', '3', '4', '5', '6', '7', '8', '9', 'a', 'b', 'c', 'd', 'e', 'f',
    ];
    let r = Alphabet(chars);
    assert(r.symbols() =~= hex_symbols());
    r
}

/// Hexadecimal digits with upper-case letters.
pub fn hex_upper() -> (r: HexAlphabet)
    ensures
        r.symbols() == hex_upper_symbols(),
        forall|i: int| 0 <= i < 16 ==> is_upper_hex(#[trigger] r.symbols()[i]),
{
    let chars: [char; 16] = [
        '0', '1', '2', '3', '4', '5', '6', '7', '8', '9', 'A', 'B', 'C', 'D', 'E', 'F',
    ];
    let r = Alphabet(chars);
    assert(r.symbols() =~= hex_upper_symbols());
    r
}

impl Default for Alphabet<64> {
    /// The url-safe alphabet.
    fn default() -> (r: Self)
        ensures
            r.symbols() == url_symbols(),
    {
        url()
    }
}

impl Default for Alphabet<16> {
    /// Hexadecimal digits with lower-case letters.
    fn default() -> (r: Self)
        ensures
            r.symbols() == hex_symbols(),
    {
        hex()
    }
}

} // verus!
