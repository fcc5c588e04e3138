//! Generators that draw from the thread-local generator of `rand`.
use crate::alphabet::Alphabet;
use crate::generator::{Generator, DEFAULT_SIZE};
use crate::random::Rng;
use vstd::prelude::*;

verus! {

/// The random source that draws from `rand::thread_rng()`.
pub type ThreadSource = Rng<rand::rngs::ThreadRng>;

/// A fresh source over the thread-local generator.
fn thread_source() -> (r: ThreadSource)
    ensures
        r.history() == Seq::<u8>::empty(),
{
    Rng::new(rand::thread_rng())
}

impl<const N: usize> Generator<ThreadSource, N> {
    /// Creates a generator of ids of [`DEFAULT_SIZE`] symbols of `alphabet`,
    /// drawn from the thread-local generator.
    pub fn with_alphabet(alphabet: &Alphabet<N>) -> (r: Self)
        ensures
            r.id_size() == DEFAULT_SIZE,
            r.symbols() == alphabet.symbols(),
            r.source().history() == Seq::<u8>::empty(),
    {
        Generator::new(DEFAULT_SIZE, alphabet, thread_source())
    }
}

impl Generator<ThreadSource, 64> {
    /// Creates a generator of ids of `size` symbols of the url-safe
    /// alphabet, drawn from the thread-local generator.
    pub fn with_size(size: usize) -> (r: Self)
        ensures
            r.id_size() == size,
            r.symbols() == crate::alphabet::url_symbols(),
            r.source().history() == Seq::<u8>::empty(),
    {
        Generator::with_random(thread_source()).size(size)
    }
}

impl Default for Generator<ThreadSource, 64> {
    /// Ids of [`DEFAULT_SIZE`] symbols of the url-safe alphabet, drawn from
    /// the thread-local generator.
    fn default() -> (r: Self)
        ensures
            r.id_size() == DEFAULT_SIZE,
            r.symbols() == crate::alphabet::url_symbols(),
            r.source().history() == Seq::<u8>::empty(),
    {
        Generator::with_random(thread_source())
    }
}

/// Generates an id of [`DEFAULT_SIZE`] url-safe symbols from the
/// thread-local generator.
pub fn randoid() -> (r: String)
    ensures
        r@.len() == DEFAULT_SIZE,
        forall|i: int| 0 <= i < r@.len() ==> crate::alphabet::is_url_safe(#[trigger] r@[i]),
{
    let mut g = Generator::with_random(thread_source());
    let r = g.gen();
    proof {
        let u = crate::alphabet::url_symbols();
        assert(64u8 & 63u8 == 0u8) by (bit_vector);
        assert(crate::engine::is_power_of_two(64u8));
        assert forall|i: int| 0 <= i < r@.len() implies crate::alphabet::is_url_safe(
            #[trigger] r@[i],
        ) by {
            assert(u.contains(r@[i]));
            let j = choose|j: int| 0 <= j < u.len() && u[j] == r@[i];
            assert(crate::alphabet::is_url_safe(u[j]));
        }
    }
    r
}

} // verus!
