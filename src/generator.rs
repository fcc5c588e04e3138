//! The [`Generator`]: an alphabet, a random source and an id length.
use crate::alphabet::Alphabet;
use crate::engine::{write_id, WriteError};
use crate::random::RandomFiller;
use crate::sink::{string_with_capacity, Sink, SmartId};
use vstd::prelude::*;

verus! {

/// Default length of a generated id.
pub const DEFAULT_SIZE: usize = 21;

/// Generates ids of `size` symbols of an alphabet of `N` symbols, drawing
/// random bytes from `R`.
///
/// The generator keeps its own copy of the alphabet, which is never changed,
/// so one alphabet can serve any number of generators. It owns its random
/// source, whose state advances with every id; generating changes neither
/// the alphabet nor the size.
#[derive(Clone)]
pub struct Generator<R, const N: usize> {
    alphabet: Alphabet<N>,
    random: R,
    size: usize,
}

impl<R, const N: usize> Generator<R, N> {
    /// The alphabet's symbols.
    pub closed spec fn symbols(&self) -> Seq<char> {
        self.alphabet.symbols()
    }

    /// The random source in its present state.
    pub closed spec fn source(&self) -> R {
        self.random
    }

    /// The number of symbols of each id.
    pub closed spec fn id_size(&self) -> nat {
        self.size as nat
    }
}

impl<R: RandomFiller, const N: usize> Generator<R, N> {
    /// Creates a generator of ids of `size` symbols of `alphabet`, drawn
    /// with `random`.
    pub fn new(size: usize, alphabet: &Alphabet<N>, random: R) -> (r: Self)
        ensures
            r.id_size() == size,
            r.symbols() == alphabet.symbols(),
            r.source() == random,
    {
        Generator { size, alphabet: *alphabet, random }
    }

    /// The same generator with ids of `size` symbols; the random source is
    /// carried over as it is.
    pub fn size(self, size: usize) -> (r: Self)
        ensures
            r.id_size() == size,
            r.symbols() == self.symbols(),
            r.source() == self.source(),
    {
        Generator { size, ..self }
    }

    /// The same generator drawing from `alphabet`; the random source is
    /// carried over as it is.
    pub fn alphabet<const M: usize>(self, alphabet: &Alphabet<M>) -> (r: Generator<R, M>)
        ensures
            r.id_size() == self.id_size(),
            r.symbols() == alphabet.symbols(),
            r.source() == self.source(),
    {
        Generator { alphabet: *alphabet, size: self.size, random: self.random }
    }

    /// Generates an id and writes it to `out`, as
    /// [`crate::engine::id_written`] states: the id of the bytes drawn in
    /// this call, or part of it where `out` refused a symbol, which is then
    /// handed back as [`WriteError::Sink`]. An empty id draws nothing.
    pub fn write_to<W: Sink>(&mut self, out: &mut W) -> (r: Result<(), WriteError>)
        ensures
            final(self).symbols() == old(self).symbols(),
            final(self).id_size() == old(self).id_size(),
            crate::engine::id_written(
                old(self).symbols(),
                old(self).id_size(),
                old(self).source(),
                final(self).source(),
                old(out).written(),
                final(out).written(),
                old(out).never_fails(),
                r,
            ),
            old(self).id_size() == 0 ==> *final(out) == *old(out),
    {
        write_id(&self.alphabet, self.size, &mut self.random, out)
    }

    /// The alphabet has `N` symbols.
    pub proof fn lemma_symbols_len(&self)
        ensures
            self.symbols().len() == N,
    {
        self.alphabet.lemma_symbols_len();
    }
}

impl<R: RandomFiller, const N: usize> Generator<R, N> {
    /// Generates an id as a new string, as
    /// [`crate::engine::id_generated`] states: the id of the bytes drawn in
    /// this call, of `id_size` symbols of the alphabet unless the source
    /// handed out [`crate::engine::MAX_ROUNDS`] bytes without completing it.
    pub fn gen(&mut self) -> (r: String)
        ensures
            final(self).symbols() == old(self).symbols(),
            final(self).id_size() == old(self).id_size(),
            crate::engine::id_generated(
                old(self).symbols(),
                old(self).id_size(),
                old(self).source(),
                final(self).source(),
                r@,
            ),
    {
        let mut res = string_with_capacity(self.size);
        let w = self.write_to(&mut res);
        proof {
            crate::engine::lemma_written_is_generated(
                old(self).symbols(),
                old(self).id_size(),
                old(self).source(),
                self.source(),
                res@,
                w,
            );
        }
        res
    }

    /// Generates an id as a new [`SmartId`], a compact string; it holds
    /// what [`Self::gen`] would return from the same state.
    pub fn gen_smartstring(&mut self) -> (r: SmartId)
        ensures
            final(self).symbols() == old(self).symbols(),
            final(self).id_size() == old(self).id_size(),
            crate::engine::id_generated(
                old(self).symbols(),
                old(self).id_size(),
                old(self).source(),
                final(self).source(),
                crate::sink::smart_chars(r),
            ),
    {
        let mut res = SmartId::new();
        let w = self.write_to(&mut res);
        proof {
            crate::engine::lemma_written_is_generated(
                old(self).symbols(),
                old(self).id_size(),
                old(self).source(),
                self.source(),
                crate::sink::smart_chars(res),
                w,
            );
        }
        res
    }
}

impl<R: RandomFiller> Generator<R, 64> {
    /// Creates a generator of ids of [`DEFAULT_SIZE`] symbols of the url-safe
    /// alphabet, drawn with `random`.
    pub fn with_random(random: R) -> (r: Self)
        ensures
            r.id_size() == DEFAULT_SIZE,
            r.symbols() == crate::alphabet::url_symbols(),
            r.source() == random,
    {
        Generator { alphabet: crate::alphabet::url(), random, size: DEFAULT_SIZE }
    }
}

/// A deferred id: each use generates a fresh one with the generator it
/// borrows, drawing new random bytes. Two uses give two different ids.
pub struct Fmt<'g, R, const N: usize> {
    /// The generator that each use draws with.
    pub generator: &'g mut Generator<R, N>,
}

impl<R: RandomFiller, const N: usize> Generator<R, N> {
    /// A deferred id over this generator; nothing is drawn until it is used.
    pub fn fmt(&mut self) -> (r: Fmt<'_, R, N>)
        ensures
            *r.generator == *old(self),
            *final(self) == *final(r.generator),
    {
        Fmt { generator: self }
    }
}

impl<'g, R: RandomFiller, const N: usize> Fmt<'g, R, N> {
    /// Generates a fresh id and writes it to `out`, as
    /// [`Generator::write_to`] does.
    pub fn write_to<W: Sink>(&mut self, out: &mut W) -> (r: Result<(), WriteError>)
        ensures
            final(self).generator.symbols() == old(self).generator.symbols(),
            final(self).generator.id_size() == old(self).generator.id_size(),
            crate::engine::id_written(
                old(self).generator.symbols(),
                old(self).generator.id_size(),
                old(self).generator.source(),
                final(self).generator.source(),
                old(out).written(),
                final(out).written(),
                old(out).never_fails(),
                r,
            ),
            old(self).generator.id_size() == 0 ==> *final(out) == *old(out),
    {
        self.generator.write_to(out)
    }

    /// Generates a fresh id as a new string, as [`Generator::gen`] does.
    pub fn to_string(&mut self) -> (r: String)
        ensures
            final(self).generator.symbols() == old(self).generator.symbols(),
            final(self).generator.id_size() == old(self).generator.id_size(),
            crate::engine::id_generated(
                old(self).generator.symbols(),
                old(self).generator.id_size(),
                old(self).generator.source(),
                final(self).generator.source(),
                r@,
            ),
    {
        self.generator.gen()
    }
}

} // verus!
