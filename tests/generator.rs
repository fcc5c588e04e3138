use rand::SeedableRng;
use rand_xoshiro::Xoshiro256PlusPlus;
use randoid::alphabet::{hex, hex_upper, url};
use randoid::{randoid, Alphabet, BoundedSink, Generator, Replay, Rng, WriteError};

/// The bytes that a seeded xoshiro generator gives to `batches` fills of
/// `batch` bytes each, one after the other.
fn xoshiro(seed: u64, batch: usize, batches: usize) -> Replay {
    let mut x = Xoshiro256PlusPlus::seed_from_u64(seed);
    let mut all = Vec::new();
    for _ in 0..batches {
        let mut b = vec![0u8; batch];
        rand::Rng::fill(&mut x, &mut b[..]);
        all.extend(b);
    }
    Replay::new(all)
}

fn std_rng(seed: u64) -> Rng<rand::rngs::StdRng> {
    Rng::new(rand::rngs::StdRng::seed_from_u64(seed))
}

#[test]
fn hex_ids_from_a_seeded_source() {
    let mut g = Generator::new(8, &hex(), xoshiro(0x04040404, 8, 2));
    assert_eq!(g.gen(), "905c2761");
    assert_eq!(g.gen(), "304ec655");
}

#[test]
fn deferred_ids_are_fresh_on_each_use() {
    let mut g = Generator::with_random(xoshiro(1, 21, 4));
    let shown = g.fmt().to_string();
    assert_eq!(shown.len(), 21);
    let mut first = String::from("uid-");
    g.fmt().write_to(&mut first).unwrap();
    assert_eq!(first, "uid-kkb3tf6ZyJm49m5J3xuB8");
    let mut f = g.fmt();
    assert_eq!(f.to_string(), "5jO6j5xWvMx17zY3e9NbN");
    assert_eq!(f.to_string(), "kGAK7hvw7AdqTcsFNZGtr");
}

#[test]
fn default_ids_are_url_safe() {
    for _ in 0..50 {
        let id = randoid();
        assert_eq!(id.chars().count(), 21);
        assert!(id.chars().all(|c| c.is_ascii_alphanumeric() || c == '-' || c == '_'));
    }
    let id = Generator::default().gen();
    assert_eq!(id.len(), 21);
    assert!(id.chars().all(|c| c.is_ascii_alphanumeric() || c == '-' || c == '_'));
}

#[test]
fn url_alphabet_ids_from_seeded_source() {
    let mut g = Generator::new(21, &url(), std_rng(7));
    for _ in 0..100 {
        let id = g.gen();
        assert_eq!(id.len(), 21);
        assert!(id.chars().all(|c| c.is_ascii_alphanumeric() || c == '-' || c == '_'));
    }
}

#[test]
fn with_size_and_with_alphabet() {
    let id = Generator::with_size(32).gen();
    assert_eq!(id.len(), 32);
    let id = Generator::with_alphabet(&hex()).gen();
    assert_eq!(id.len(), 21);
    assert!(id.chars().all(|c| c.is_ascii_hexdigit() && !c.is_ascii_uppercase()));
    let id = Generator::default().size(32).gen();
    assert_eq!(id.len(), 32);
    let id = Generator::default().alphabet(&Alphabet::new(['a', 'b', 'c', 'd'])).gen();
    assert!(id.chars().all(|c| matches!(c, 'a'..='d')));
}

#[test]
fn zero_size_draws_nothing() {
    let mut g = Generator::new(0, &url(), Replay::new(vec![1, 2, 3]));
    assert_eq!(g.gen(), "");
    let mut out = String::from("x");
    assert_eq!(g.write_to(&mut out), Ok(()));
    assert_eq!(out, "x");
    let mut g = g.size(2);
    assert_eq!(g.gen(), "-0");
    let mut src = Replay::new(vec![1, 2, 3]);
    let mut out = String::new();
    randoid::engine::write_id(&Alphabet::new(['a', 'b', 'c']), 0, &mut src, &mut out).unwrap();
    assert_eq!(out, "");
    assert_eq!(src.count(), 0);
}

#[test]
fn power_of_two_draws_one_byte_per_symbol() {
    for size in [1usize, 8, 21, 63, 64, 65, 100, 130, 1000] {
        let mut src = Replay::new((0..=255).collect());
        let mut out = String::new();
        randoid::engine::write_id(&hex(), size, &mut src, &mut out).unwrap();
        assert_eq!(out.len(), size);
        assert_eq!(src.count(), size);
        randoid::engine::write_id(&url(), size, &mut src, &mut out).unwrap();
        assert_eq!(out.len(), 2 * size);
        assert_eq!(src.count(), 2 * size);
    }
    let mut src = Replay::new(vec![0x10, 0x2f, 0xff, 0x03]);
    let mut out = String::new();
    randoid::engine::write_id(&hex(), 70, &mut src, &mut out).unwrap();
    assert_eq!(src.count(), 70);
    assert_eq!(&out[..4], "0ff3");
}

#[test]
fn generic_path_rejects_masked_bytes_out_of_range() {
    // Three symbols: mask 3; a masked 3 is rejected.
    let abc = Alphabet::new(['a', 'b', 'c']);
    let mut src = Replay::new(vec![3, 7, 0, 1, 2, 0xfe]);
    let mut out = String::new();
    randoid::engine::write_id(&abc, 3, &mut src, &mut out).unwrap();
    assert_eq!(out, "abc");
    // A batch of four (three times 8/5), then one more byte.
    assert_eq!(src.count(), 5);
}

#[test]
fn generic_path_batch_sizes() {
    // Ten symbols: mask 15.
    let ten = Alphabet::new(['0', '1', '2', '3', '4', '5', '6', '7', '8', '9']);
    let mut src = Replay::new(vec![9]);
    let mut out = String::new();
    randoid::engine::write_id(&ten, 20, &mut src, &mut out).unwrap();
    assert_eq!(out, "99999999999999999999");
    // One batch of 32 bytes; the twelve past the id are left unused.
    assert_eq!(src.count(), 32);
    let mut src = Replay::new(vec![9]);
    let mut out = String::new();
    randoid::engine::write_id(&ten, 100, &mut src, &mut out).unwrap();
    assert_eq!(out.len(), 100);
    // Full batches of 64, then 8/5 of the 36 left.
    assert_eq!(src.count(), 64 + 57);
    let mut src = Replay::new(vec![0x1a, 0x05, 0xff, 0x3c]);
    let mut out = String::new();
    randoid::engine::write_id(&ten, 2, &mut src, &mut out).unwrap();
    // 0x1a & 15 = 10, 0xff & 15 = 15 and 0x3c & 15 = 12 are rejected: a
    // batch of three gives one symbol, then batches of one byte until the
    // replay comes round to 0x05 again.
    assert_eq!(out, "55");
    assert_eq!(src.count(), 6);
}

#[test]
fn generic_path_is_uniform() {
    let seven = Alphabet::new(['a', 'b', 'c', 'd', 'e', 'f', 'g']);
    let mut g = Generator::new(1000, &seven, std_rng(42));
    let mut counts = [0u64; 7];
    for _ in 0..70 {
        for c in g.gen().chars() {
            counts[(c as u8 - b'a') as usize] += 1;
        }
    }
    let total: u64 = counts.iter().sum();
    assert_eq!(total, 70_000);
    let expected = total as f64 / 7.0;
    let chi2: f64 = counts
        .iter()
        .map(|&c| {
            let d = c as f64 - expected;
            d * d / expected
        })
        .sum();
    // 6 degrees of freedom: the 0.999 quantile is about 22.46.
    assert!(chi2 < 22.46, "chi-square {} for {:?}", chi2, counts);
}

#[test]
fn seeded_generators_agree() {
    let mut a = Generator::new(16, &Alphabet::new(['x', 'y', 'z']), std_rng(99));
    let mut b = Generator::new(16, &Alphabet::new(['x', 'y', 'z']), std_rng(99));
    let a1 = a.gen();
    let a2 = a.gen();
    assert_eq!(a1, b.gen());
    assert_eq!(a2, b.gen());
    assert_ne!(a1, a2);
    assert_eq!(a1.len(), 16);
}

#[test]
fn rebinding_keeps_the_source() {
    let mut plain = Generator::new(8, &hex(), xoshiro(0x04040404, 8, 2));
    let mut rebound = Generator::new(3, &url(), xoshiro(0x04040404, 8, 2))
        .size(8)
        .alphabet(&hex_upper())
        .alphabet(&hex());
    assert_eq!(plain.gen(), rebound.gen());
    assert_eq!(plain.gen(), rebound.gen());
    let mut resized = plain.size(4);
    let mut other = Generator::new(8, &hex(), xoshiro(0x04040404, 8, 2));
    other.gen();
    other.gen();
    assert_eq!(resized.gen(), other.size(4).gen());
}

#[test]
fn sink_refusal_is_handed_back() {
    let mut g = Generator::new(10, &hex(), Replay::new((0..=255).collect()));
    let mut out = BoundedSink::new(3);
    assert_eq!(g.write_to(&mut out), Err(WriteError::Sink));
    assert_eq!(out.contents(), "012");
    let mut out = BoundedSink::new(10);
    assert_eq!(g.write_to(&mut out), Ok(()));
    assert_eq!(out.contents().len(), 10);
}

#[test]
fn write_to_appends() {
    let mut ids = String::new();
    let mut g = Generator::default();
    g.write_to(&mut ids).unwrap();
    ids.push('\n');
    g.write_to(&mut ids).unwrap();
    assert_eq!(ids.len(), 21 * 2 + 1);
    assert_eq!(ids.as_bytes()[21], b'\n');
}

#[test]
fn smartstring_ids_match_string_ids() {
    let mut a = Generator::new(8, &hex(), xoshiro(0x04040404, 8, 2));
    let mut b = Generator::new(8, &hex(), xoshiro(0x04040404, 8, 2));
    assert_eq!(a.gen_smartstring().as_str(), "905c2761");
    assert_eq!(b.gen(), "905c2761");
    assert_eq!(a.gen_smartstring().as_str(), b.gen());
    assert_eq!(Generator::default().gen_smartstring().as_str().len(), 21);
}

#[test]
fn repeated_symbols_weight_the_alphabet() {
    let weighted = Alphabet::new(['a', 'a', 'a', 'b']);
    let mut g = Generator::new(4000, &weighted, std_rng(5));
    let id = g.gen();
    let a = id.chars().filter(|&c| c == 'a').count();
    let b = id.chars().filter(|&c| c == 'b').count();
    assert_eq!(a + b, 4000);
    assert!(a > 2 * b);
}

#[test]
fn shipped_alphabets() {
    let u = url();
    assert_eq!(u.len(), 64);
    assert_eq!(u.get(0), '_');
    assert_eq!(u.get(1), '-');
    assert_eq!(u.get(63), 'Z');
    let h = hex();
    let s: String = (0..16).map(|i| h.get(i)).collect();
    assert_eq!(s, "0123456789abcdef");
    let h = hex_upper();
    let s: String = (0..16).map(|i| h.get(i)).collect();
    assert_eq!(s, "0123456789ABCDEF");
    let one = Alphabet::new(['q']);
    assert_eq!(one.len(), 1);
    let mut g = Generator::new(5, &one, std_rng(1));
    assert_eq!(g.gen(), "qqqqq");
}

#[test]
fn thread_source_ids_differ() {
    let mut g = Generator::with_size(32);
    let a = g.gen();
    let b = g.gen();
    assert_eq!(a.len(), 32);
    assert_ne!(a, b);
}

#[test]
fn string_sink_and_compact_leave_the_source_alike() {
    let seven = Alphabet::new(['a', 'b', 'c', 'd', 'e', 'f', 'g']);
    let mut a = Generator::new(30, &seven, std_rng(11));
    let mut b = Generator::new(30, &seven, std_rng(11));
    let mut c = Generator::new(30, &seven, std_rng(11));
    let mut out = String::new();
    b.write_to(&mut out).unwrap();
    let first = a.gen();
    assert_eq!(first, out);
    assert_eq!(c.gen_smartstring().as_str(), first);
    let second = a.gen();
    assert_ne!(second, first);
    assert_eq!(b.gen(), second);
    assert_eq!(c.gen(), second);
}

#[test]
fn replay_repeats_its_script() {
    let mut g = Generator::new(5, &hex(), Replay::new(vec![1, 2, 3]));
    assert_eq!(g.gen(), "12312");
    assert_eq!(g.gen(), "31231");
    let mut g = Generator::new(4, &hex(), Replay::new(Vec::new()));
    assert_eq!(g.gen(), "0000");
}

#[test]
fn refused_sink_keeps_a_prefix_of_the_id() {
    let seven = Alphabet::new(['a', 'b', 'c', 'd', 'e', 'f', 'g']);
    let mut full = Generator::new(12, &seven, std_rng(21));
    let id = full.gen();
    let mut g = Generator::new(12, &seven, std_rng(21));
    let mut out = BoundedSink::new(5);
    assert_eq!(g.write_to(&mut out), Err(WriteError::Sink));
    assert_eq!(out.contents(), id[..5]);
    let mut empty = BoundedSink::new(0);
    assert_eq!(Generator::new(3, &hex(), std_rng(1)).write_to(&mut empty), Err(WriteError::Sink));
    assert_eq!(empty.contents(), "");
}
