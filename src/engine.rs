//! The mapping from random bytes to alphabet symbols.
//!
//! Each random byte is masked with the smallest all-ones byte that covers
//! every index of the alphabet. Where the alphabet's size is a power of two,
//! every masked byte is a valid index and exactly one byte is drawn per
//! symbol. Otherwise a masked byte at or above the size is rejected and more
//! bytes are drawn, so every index stays equally likely.
//!
//! Bytes are drawn in batches of at most 64. On the power-of-two path a
//! batch holds exactly as many bytes as symbols are still missing; on the
//! other path it holds about 8/5 of them, so that one batch usually
//! suffices. Bytes left in a batch once the id is complete are discarded.
use crate::alphabet::Alphabet;
use crate::random::RandomFiller;
use crate::sink::Sink;
use vstd::prelude::*;

verus! {

/// Capacity of the buffer that random bytes are drawn into.
const BUFFER_SIZE: usize = 64;

/// Number of batches one call may draw before it gives up. Each batch holds
/// at least one byte, so a call gives up only after drawing more than
/// `u64::MAX - 1` bytes, which no source of random bytes comes near.
pub const MAX_ROUNDS: u64 = 0xffff_ffff_ffff_ffff;

/// Why generating an id failed.
#[derive(Debug, Clone, Copy, PartialEq, Eq, Structural)]
pub enum WriteError {
    /// The sink refused a symbol.
    Sink,
    /// The source handed out `MAX_ROUNDS` batches in a row without
    /// completing the id.
    Exhausted,
}

/// Whether `card` is a power of two.
pub open spec fn is_power_of_two(card: u8) -> bool {
    card != 0 && card & ((card - 1) as u8) == 0
}

/// The smallest all-ones byte that is at least `card - 1`.
pub open spec fn mask_of(card: u8) -> u8 {
    let m0 = (card - 1) as u8;
    let m1 = m0 | (m0 >> 1u8);
    let m2 = m1 | (m1 >> 2u8);
    m2 | (m2 >> 4u8)
}

/// The index that `b` picks from an alphabet of `card` symbols, if any.
pub open spec fn candidate(card: u8, b: u8) -> u8 {
    b & mask_of(card)
}

/// The indices that `bytes` pick, in order: each byte masked, and kept
/// when it is below `card`.
pub open spec fn picks(card: u8, bytes: Seq<u8>) -> Seq<u8>
    decreases bytes.len(),
{
    if bytes.len() == 0 {
        Seq::empty()
    } else {
        let rest = picks(card, bytes.drop_last());
        let c = candidate(card, bytes.last());
        if c < card {
            rest.push(c)
        } else {
            rest
        }
    }
}

/// The first `n` items of `s`, or all of them where it has fewer.
pub open spec fn first_n<T>(s: Seq<T>, n: nat) -> Seq<T> {
    if s.len() <= n {
        s
    } else {
        s.take(n as int)
    }
}

/// The symbols of `alpha` at the indices `idx`.
pub open spec fn symbols_at(alpha: Seq<char>, idx: Seq<u8>) -> Seq<char> {
    idx.map_values(|i: u8| alpha[i as int])
}

/// The id of `n` symbols of `alpha` that `bytes` give: the symbols at the
/// first `n` indices they pick (fewer where they pick fewer).
pub open spec fn id_from(alpha: Seq<char>, bytes: Seq<u8>, n: nat) -> Seq<char> {
    symbols_at(alpha, first_n(picks(alpha.len() as u8, bytes), n))
}

/// Picking from two runs of bytes one after the other picks from each in turn.
pub proof fn lemma_picks_append(card: u8, p: Seq<u8>, q: Seq<u8>)
    ensures
        picks(card, p + q) == picks(card, p) + picks(card, q),
    decreases q.len(),
{
    if q.len() == 0 {
        assert(p + q =~= p);
        assert(picks(card, q) =~= Seq::<u8>::empty());
        assert(picks(card, p) + picks(card, q) =~= picks(card, p));
    } else {
        let q0 = q.drop_last();
        lemma_picks_append(card, p, q0);
        assert((p + q).drop_last() =~= p + q0);
        assert((p + q).last() == q.last());
    }
}

/// Every index that is picked addresses a symbol.
pub proof fn lemma_picks_below(card: u8, bytes: Seq<u8>)
    ensures
        forall|i: int| 0 <= i < picks(card, bytes).len() ==> #[trigger] picks(card, bytes)[i] < card,
    decreases bytes.len(),
{
    if bytes.len() > 0 {
        let rest = picks(card, bytes.drop_last());
        lemma_picks_below(card, bytes.drop_last());
        assert forall|i: int| 0 <= i < picks(card, bytes).len() implies #[trigger] picks(
            card,
            bytes,
        )[i] < card by {
            if i < rest.len() {
                assert(rest[i] < card);
            }
        }
    }
}

/// Masking any byte with the mask of a power of two gives an index below it.
pub proof fn lemma_power_of_two_accepts(card: u8, b: u8)
    requires
        is_power_of_two(card),
    ensures
        candidate(card, b) < card,
{
    let m0 = (card - 1) as u8;
    assert(card != 0u8 && card & m0 == 0u8 && m0 == vstd::prelude::sub(card, 1u8) ==> (b & ((m0 | (m0 >> 1u8)) | ((m0 | (m0 >> 1u8)) >> 2u8)
        | (((m0 | (m0 >> 1u8)) | ((m0 | (m0 >> 1u8)) >> 2u8)) >> 4u8))) < card) by (bit_vector);
}

/// Under a power of two every byte picks an index.
pub proof fn lemma_power_of_two_picks_all(card: u8, bytes: Seq<u8>)
    requires
        is_power_of_two(card),
    ensures
        picks(card, bytes).len() == bytes.len(),
    decreases bytes.len(),
{
    if bytes.len() > 0 {
        lemma_power_of_two_picks_all(card, bytes.drop_last());
        lemma_power_of_two_accepts(card, bytes.last());
    }
}

/// Every symbol of an id is a symbol of its alphabet.
pub proof fn lemma_id_in_alphabet(alpha: Seq<char>, bytes: Seq<u8>, n: nat)
    requires
        alpha.len() <= 255,
    ensures
        forall|i: int|
            0 <= i < id_from(alpha, bytes, n).len() ==> alpha.contains(
                #[trigger] id_from(alpha, bytes, n)[i],
            ),
{
    let card = alpha.len() as u8;
    let all = picks(card, bytes);
    let idx = first_n(all, n);
    lemma_picks_below(card, bytes);
    assert forall|i: int| 0 <= i < id_from(alpha, bytes, n).len() implies alpha.contains(
        #[trigger] id_from(alpha, bytes, n)[i],
    ) by {
        assert(idx[i] == all[i]);
        assert(all[i] < card);
        let j = idx[i] as int;
        assert(id_from(alpha, bytes, n)[i] == alpha[j]);
    }
}

/// Bytes drawn after the id is complete do not change it: an id depends
/// only on the bytes up to the one that picks its last symbol.
pub proof fn lemma_id_prefix(alpha: Seq<char>, p: Seq<u8>, q: Seq<u8>, n: nat)
    requires
        picks(alpha.len() as u8, p).len() >= n,
    ensures
        id_from(alpha, p + q, n) == id_from(alpha, p, n),
{
    let card = alpha.len() as u8;
    lemma_picks_append(card, p, q);
    assert(first_n(picks(card, p + q), n) =~= first_n(picks(card, p), n));
}

/// Generators that share an alphabet and an id size, and whose sources hand
/// out the same bytes up to the one that completes the id, give the same id,
/// however many more bytes each draws.
pub proof fn lemma_same_bytes_same_id(
    alpha: Seq<char>,
    n: nat,
    shared: Seq<u8>,
    rest1: Seq<u8>,
    rest2: Seq<u8>,
)
    requires
        picks(alpha.len() as u8, shared).len() >= n,
    ensures
        id_from(alpha, shared + rest1, n) == id_from(alpha, shared + rest2, n),
{
    lemma_id_prefix(alpha, shared, rest1, n);
    lemma_id_prefix(alpha, shared, rest2, n);
}

/// Each index below `card` is picked by as many byte values as any other:
/// flipping the bits of `i ^ j` maps the bytes that pick `i` one to one onto
/// the bytes that pick `j`.
pub proof fn lemma_uniform_picks(card: u8, i: u8, j: u8, b: u8)
    requires
        card >= 1,
        i < card,
        j < card,
        candidate(card, b) == i,
    ensures
        candidate(card, b ^ i ^ j) == j,
        (b ^ i ^ j) ^ i ^ j == b,
{
    let m0 = (card - 1) as u8;
    assert(m0 == vstd::prelude::sub(card, 1u8) && i <= m0 && j <= m0 && (b & ((m0 | (m0 >> 1u8)) | ((m0
        | (m0 >> 1u8)) >> 2u8) | (((m0 | (m0 >> 1u8)) | ((m0 | (m0 >> 1u8)) >> 2u8)) >> 4u8))) == i
        ==> ((b ^ i ^ j) & ((m0 | (m0 >> 1u8)) | ((m0 | (m0 >> 1u8)) >> 2u8) | (((m0 | (m0 >> 1u8))
        | ((m0 | (m0 >> 1u8)) >> 2u8)) >> 4u8))) == j && (b ^ i ^ j) ^ i ^ j == b) by (bit_vector);
}

/// The mask is one less than the smallest power of two that is at least
/// `card`: it is all ones, covers `card - 1`, and its top bit is the top bit
/// of `card - 1`, so at least half of the masked values are accepted.
pub proof fn lemma_mask_is_next_power_of_two(card: u8)
    requires
        card >= 1,
    ensures
        (card - 1) as u8 <= mask_of(card),
        mask_of(card) & ((mask_of(card) + 1) as u8) == 0,
        (mask_of(card) >> 1u8) <= (card - 1) as u8,
        is_power_of_two(card) ==> mask_of(card) == (card - 1) as u8,
{
    let m0 = (card - 1) as u8;
    let m = mask_of(card);
    assert(m == (m0 | (m0 >> 1u8)) | ((m0 | (m0 >> 1u8)) >> 2u8) | (((m0 | (m0 >> 1u8)) | ((m0 | (
    m0 >> 1u8)) >> 2u8)) >> 4u8));
    assert(m == (m0 | (m0 >> 1u8)) | ((m0 | (m0 >> 1u8)) >> 2u8) | (((m0 | (m0 >> 1u8)) | ((m0 | (
    m0 >> 1u8)) >> 2u8)) >> 4u8) ==> m0 <= m && m & vstd::prelude::add(m, 1u8) == 0 && (m >> 1u8) <= m0)
        by (bit_vector);
    assert(m0 == vstd::prelude::sub(card, 1u8) && m == (m0 | (m0 >> 1u8)) | ((m0 | (m0 >> 1u8))
        >> 2u8) | (((m0 | (m0 >> 1u8)) | ((m0 | (m0 >> 1u8)) >> 2u8)) >> 4u8) && card & m0 == 0
        ==> m == m0) by (bit_vector);
    assert((m + 1) as u8 == vstd::prelude::add(m, 1u8)) by (bit_vector);
}

/// Computes `mask_of(card)`.
fn mask_for(card: u8) -> (r: u8)
    requires
        card >= 1,
    ensures
        r == mask_of(card),
{
    let m0: u8 = card - 1;
    let m1: u8 = m0 | (m0 >> 1u8);
    let m2: u8 = m1 | (m1 >> 2u8);
    m2 | (m2 >> 4u8)
}

/// Bytes drawn in one batch while `rem` symbols of the id are missing: as
/// many as are missing on the power-of-two path, about 8/5 of them on the
/// other, and never more than 64.
pub open spec fn batch_len(card: u8, rem: nat) -> nat {
    if is_power_of_two(card) {
        if rem < 64 {
            rem
        } else {
            64
        }
    } else if rem >= 40 {
        64
    } else {
        rem * 8 / 5
    }
}

/// Whether `bytes` are exactly the batches that a call draws while `rem`
/// symbols are missing: batches of `batch_len` bytes, one after the other,
/// until the indices they pick complete the id.
pub open spec fn follows_schedule(card: u8, rem: nat, bytes: Seq<u8>) -> bool
    decreases bytes.len(),
{
    if rem == 0 {
        bytes.len() == 0
    } else {
        let k = batch_len(card, rem);
        if k == 0 || k > bytes.len() {
            false
        } else {
            let got = picks(card, bytes.take(k as int)).len();
            if got >= rem {
                bytes.len() == k
            } else {
                follows_schedule(card, (rem - got) as nat, bytes.skip(k as int))
            }
        }
    }
}

/// Every batch of the schedule holds between 1 and 64 bytes.
pub proof fn lemma_batch_len(card: u8, rem: nat)
    requires
        rem >= 1,
    ensures
        1 <= batch_len(card, rem) <= 64,
        is_power_of_two(card) ==> batch_len(card, rem) == if rem < 64 { rem } else { 64 },
{
    if !is_power_of_two(card) && rem < 40 {
        assert(1 <= rem * 8 / 5 <= 64) by (nonlinear_arith)
            requires
                1 <= rem < 40,
        ;
    }
}

/// A source that hands out one fixed stream makes a call draw the same
/// bytes, whatever else it could hand out: of two byte runs that follow the
/// schedule, where one starts the other, they are equal.
pub proof fn lemma_schedule_unique(card: u8, rem: nat, s: Seq<u8>, t: Seq<u8>)
    requires
        follows_schedule(card, rem, s),
        follows_schedule(card, rem, t),
        s.len() <= t.len(),
        t.take(s.len() as int) == s,
    ensures
        s == t,
    decreases s.len(),
{
    if rem == 0 {
        assert(s =~= t);
    } else {
        let k = batch_len(card, rem);
        assert(t.take(k as int) =~= s.take(k as int));
        let got = picks(card, s.take(k as int)).len();
        if got >= rem {
            assert(s =~= t);
        } else {
            assert(t.skip(k as int).take(s.skip(k as int).len() as int) =~= s.skip(k as int));
            lemma_schedule_unique(card, (rem - got) as nat, s.skip(k as int), t.skip(k as int));
            assert(s =~= s.take(k as int) + s.skip(k as int));
            assert(t =~= t.take(k as int) + t.skip(k as int));
        }
    }
}

/// Two calls with the same alphabet and size, whose sources hand out one
/// stream (the bytes one call drew start the bytes the other drew), draw
/// the same bytes and give the same id.
pub proof fn lemma_same_stream_same_id(alpha: Seq<char>, size: nat, s: Seq<u8>, t: Seq<u8>)
    requires
        follows_schedule(alpha.len() as u8, size, s),
        follows_schedule(alpha.len() as u8, size, t),
        s.len() <= t.len(),
        t.take(s.len() as int) == s,
    ensures
        s == t,
        id_from(alpha, s, size) == id_from(alpha, t, size),
{
    lemma_schedule_unique(alpha.len() as u8, size, s, t);
}

/// What a call leaves that writes an id of `size` symbols of `alpha` to a
/// sink holding `out0`, drawing from a source that was `before`: the source
/// is `after`, the sink holds `out1`, and the result is `r`. `nf` tells
/// whether the sink accepts every symbol.
///
/// The source only hands out more bytes. Unless the sink refused, the sink
/// gets the id of the bytes drawn in the call. On success the id is
/// complete and the bytes drawn are exactly the schedule's batches; under a
/// power-of-two alphabet they are as many as the id has symbols. A refusal
/// of the sink stops the call with part of the id written. The call gives up
/// only after drawing `MAX_ROUNDS` bytes or more.
pub open spec fn id_written<R: RandomFiller>(
    alpha: Seq<char>,
    size: nat,
    before: R,
    after: R,
    out0: Seq<char>,
    out1: Seq<char>,
    nf: bool,
    r: Result<(), WriteError>,
) -> bool {
    let card = alpha.len() as u8;
    let new = crate::random::drawn_since(before, after);
    let id = id_from(alpha, new, size);
    &&& crate::random::extends(before, after)
    &&& size == 0 ==> r is Ok && after == before && out1 == out0
    &&& r is Ok ==> out1 == out0 + id && id.len() == size && follows_schedule(card, size, new)
    &&& r is Ok && size > 0 ==> new.len() > 0
    &&& is_power_of_two(card) ==> r != Err::<(), WriteError>(WriteError::Exhausted)
    &&& is_power_of_two(card) && r is Ok ==> new.len() == size
    &&& nf ==> r != Err::<(), WriteError>(WriteError::Sink)
    &&& r == Err::<(), WriteError>(WriteError::Exhausted) ==> {
        &&& out1 == out0 + id
        &&& id.len() < size
        &&& new.len() >= MAX_ROUNDS
    }
    &&& r == Err::<(), WriteError>(WriteError::Sink) ==> {
        &&& out0.len() <= out1.len() < out0.len() + size
        &&& out1 == out0 + symbols_at(alpha, picks(card, new)).take(out1.len() - out0.len())
    }
    &&& forall|i: int| out0.len() <= i < out1.len() ==> alpha.contains(#[trigger] out1[i])
}

/// What a call leaves that generates the id `id` of `size` symbols of
/// `alpha` as a new value, drawing from a source that was `before` and is
/// `after`.
///
/// The id is the id of the bytes drawn in the call, all of its symbols are
/// in `alpha`, and the bytes drawn are exactly the schedule's batches. It
/// is shorter than `size` only where `MAX_ROUNDS` bytes or more were drawn,
/// never under a power-of-two alphabet.
pub open spec fn id_generated<R: RandomFiller>(
    alpha: Seq<char>,
    size: nat,
    before: R,
    after: R,
    id: Seq<char>,
) -> bool {
    let card = alpha.len() as u8;
    let new = crate::random::drawn_since(before, after);
    &&& crate::random::extends(before, after)
    &&& id == id_from(alpha, new, size)
    &&& (id.len() == size && follows_schedule(card, size, new)) || (id.len() < size && new.len()
        >= MAX_ROUNDS)
    &&& forall|i: int| 0 <= i < id.len() ==> alpha.contains(#[trigger] id[i])
    &&& size == 0 ==> after == before
    &&& size > 0 ==> new.len() > 0
    &&& is_power_of_two(card) ==> id.len() == size && new.len() == size
}

/// A call that writes to a sink that starts empty and accepts every symbol
/// generates what the sink ends up holding.
pub proof fn lemma_written_is_generated<R: RandomFiller>(
    alpha: Seq<char>,
    size: nat,
    before: R,
    after: R,
    out1: Seq<char>,
    r: Result<(), WriteError>,
)
    requires
        id_written(alpha, size, before, after, Seq::empty(), out1, true, r),
    ensures
        id_generated(alpha, size, before, after, out1),
{
    let new = crate::random::drawn_since(before, after);
    let id = id_from(alpha, new, size);
    assert(Seq::<char>::empty() + id =~= id);
    if r is Err {
        let e = r->Err_0;
        assert(e is Sink || e is Exhausted);
        assert(r == Err::<(), WriteError>(e));
    }
    assert forall|i: int| 0 <= i < out1.len() implies alpha.contains(#[trigger] out1[i]) by {
        assert(Seq::<char>::empty().len() <= i);
    }
}

/// Draws random bytes from `random` and writes an id of `size` symbols of
/// `alphabet` to `out`, as [`id_written`] states.
///
/// Nothing is drawn and nothing is written when `size` is zero. Under an
/// alphabet whose size is a power of two exactly `size` bytes are drawn.
/// A refusal of the sink ends the call at once; the symbols written before
/// it stay in the sink.
pub fn write_id<R: RandomFiller, W: Sink, const N: usize>(
    alphabet: &Alphabet<N>,
    size: usize,
    random: &mut R,
    out: &mut W,
) -> (r: Result<(), WriteError>)
    ensures
        id_written(
            alphabet.symbols(),
            size as nat,
            *old(random),
            *final(random),
            old(out).written(),
            final(out).written(),
            old(out).never_fails(),
            r,
        ),
        size == 0 ==> *final(out) == *old(out),
{
    if size == 0 {
        assert(random.drawn().take(random.drawn().len() as int) =~= random.drawn());
        assert(random.drawn().skip(random.drawn().len() as int) =~= Seq::<u8>::empty());
        return Ok(());
    }
    let n: usize = alphabet.len();
    let card: u8 = n as u8;
    let mask: u8 = mask_for(card);
    let fast: bool = card & (card - 1) == 0;
    let ghost alpha = alphabet.symbols();
    let ghost before = random.drawn();
    let ghost out0 = out.written();
    let ghost nf = out.never_fails();
    let ghost mut new: Seq<u8> = Seq::empty();
    let ghost mut used: Seq<u8> = Seq::empty();
    let mut buffer: [u8; 64] = [0u8; 64];
    let mut rem: usize = size;
    let mut rounds: u64 = 0;
    assert(before + new =~= before);
    assert forall|rest: Seq<u8>| follows_schedule(card, rem as nat, rest) implies #[trigger] follows_schedule(
        card,
        size as nat,
        new + rest,
    ) by {
        assert(new + rest =~= rest);
    }
    while rem > 0
        invariant
            card == N,
            1 <= N <= 255,
            alpha == alphabet.symbols(),
            alpha.len() == N,
            mask == mask_of(card),
            fast == is_power_of_two(card),
            rem <= size,
            random.drawn() == before + new,
            used.len() <= new.len(),
            new.take(used.len() as int) == used,
            rem > 0 ==> used == new,
            picks(card, used).len() == size - rem,
            out.written() == out0 + symbols_at(alpha, picks(card, used)),
            out.never_fails() == nf,
            before == old(random).drawn(),
            nf == old(out).never_fails(),
            out0 == old(out).written(),
            fast ==> new.len() == size - rem,
            rounds <= MAX_ROUNDS,
            new.len() >= rounds,
            rem > 0 ==> forall|rest: Seq<u8>| follows_schedule(card, rem as nat, rest)
                ==> #[trigger] follows_schedule(card, size as nat, new + rest),
            rem == 0 ==> follows_schedule(card, size as nat, new),
        decreases MAX_ROUNDS - rounds,
    {
        if rounds == MAX_ROUNDS {
            proof {
                assert((before + new).skip(before.len() as int) =~= new);
                assert((before + new).take(before.len() as int) =~= before);
                lemma_picks_below(card, new);
            }
            return Err(WriteError::Exhausted);
        }
        rounds = rounds + 1;
        proof {
            lemma_batch_len(card, rem as nat);
        }
        let step: usize = if fast {
            if rem < BUFFER_SIZE {
                rem
            } else {
                BUFFER_SIZE
            }
        } else if rem >= 40 {
            BUFFER_SIZE
        } else {
            rem * 8 / 5
        };
        assert(step == batch_len(card, rem as nat));
        let (bytes, _) = buffer.split_at_mut(step);
        let ghost prev = new;
        let ghost rem0 = rem;
        random.fill_random(bytes);
        proof {
            new = new + bytes@;
            assert(new.take(used.len() as int) =~= used);
            assert(prev + bytes@.take(0) =~= used);
        }
        let mut i: usize = 0;
        while i < step && rem > 0
            invariant
                card == N,
                1 <= N <= 255,
                alpha == alphabet.symbols(),
                alpha.len() == N,
                mask == mask_of(card),
                fast == is_power_of_two(card),
                bytes@.len() == step,
                i <= step,
                rem <= rem0,
                0 < rem0 <= size,
                fast ==> step <= rem0,
                fast ==> rem0 == size - prev.len(),
                fast ==> rem + i == rem0,
                random.drawn() == before + new,
                new == prev + bytes@,
                used == prev + bytes@.take(i as int),
                picks(card, prev).len() == size - rem0,
                picks(card, used).len() == size - rem,
                out.written() == out0 + symbols_at(alpha, picks(card, used)),
                out.never_fails() == nf,
                before == old(random).drawn(),
                nf == old(out).never_fails(),
                out0 == old(out).written(),
            decreases step - i,
        {
            let b: u8 = bytes[i];
            let c: u8 = b & mask;
            proof {
                assert(prev + bytes@.take(i + 1) =~= used.push(b));
                assert(used.push(b).drop_last() =~= used);
                if fast {
                    lemma_power_of_two_accepts(card, b);
                }
            }
            if c < card {
                let sym = alphabet.get(c as usize);
                match out.write_char(sym) {
                    Ok(()) => {},
                    Err(_) => {
                        proof {
                            assert((before + new).take(before.len() as int) =~= before);
                            assert((before + new).skip(before.len() as int) =~= new);
                            let rest = new.skip(used.len() as int);
                            assert(used + rest =~= new);
                            lemma_picks_append(card, used, rest);
                            lemma_picks_below(card, used);
                            let w = symbols_at(alpha, picks(card, used));
                            assert(symbols_at(alpha, picks(card, new)).take(w.len() as int) =~= w);
                            assert(out.written().len() - out0.len() == w.len());
                            assert forall|k: int| out0.len() <= k < out.written().len() implies alpha.contains(
                                #[trigger] out.written()[k],
                            ) by {
                                let j = picks(card, used)[k - out0.len()] as int;
                                assert(out.written()[k] == alpha[j]);
                            }
                        }
                        return Err(WriteError::Sink);
                    },
                }
                proof {
                    assert(symbols_at(alpha, picks(card, used.push(b))) =~= symbols_at(
                        alpha,
                        picks(card, used),
                    ).push(sym));
                    assert(out0 + symbols_at(alpha, picks(card, used)).push(sym) =~= (out0
                        + symbols_at(alpha, picks(card, used))).push(sym));
                }
                rem = rem - 1;
            }
            proof {
                used = used.push(b);
            }
            i = i + 1;
        }
        proof {
            let batch = bytes@;
            lemma_picks_append(card, prev, batch.take(i as int));
            assert(picks(card, batch.take(i as int)).len() == rem0 - rem);
            assert(batch.take(i as int) + batch.skip(i as int) =~= batch);
            lemma_picks_append(card, batch.take(i as int), batch.skip(i as int));
            assert(batch.take(step as int) =~= batch);
            if rem > 0 {
                assert(batch.take(i as int) =~= batch);
                assert forall|rest: Seq<u8>| follows_schedule(card, rem as nat, rest) implies #[trigger] follows_schedule(
                    card,
                    size as nat,
                    new + rest,
                ) by {
                    assert((batch + rest).take(step as int) =~= batch);
                    assert((batch + rest).skip(step as int) =~= rest);
                    assert(follows_schedule(card, rem0 as nat, batch + rest));
                    assert(prev + (batch + rest) =~= new + rest);
                }
            } else {
                assert(follows_schedule(card, rem0 as nat, batch));
                assert(prev + batch == new);
            }
            assert(new.take(used.len() as int) =~= used);
        }
    }
    proof {
        let rest = new.skip(used.len() as int);
        assert(used + rest =~= new);
        lemma_picks_append(card, used, rest);
        assert(first_n(picks(card, new), size as nat) =~= picks(card, used));
        assert((before + new).skip(before.len() as int) =~= new);
        assert((before + new).take(before.len() as int) =~= before);
        lemma_id_in_alphabet(alpha, new, size as nat);
        assert(out.written() =~= out0 + id_from(alpha, new, size as nat));
    }
    Ok(())
}

} // verus!
