//! Seeds: deriving a generator from the global and local seeds, and reading
//! and writing seeds as hexadecimal text.
//!
//! The root generator is seeded from a cryptographic digest of the two seed
//! values, so nearby seeds still give unrelated generator states; the digest
//! itself comes from an outside crate and is only named here, never
//! restated.

use crate::rng::Rng;
use sha2::Digest;
use vstd::prelude::*;
use vstd::string::StrSliceExecFns;
use vstd::string::StringExecFns;

verus! {

/// The SHA-256 digest of a byte sequence, as the outside hashing crate
/// computes it: a function of the input bytes alone.
pub uninterp spec fn sha256_of(data: Seq<u8>) -> Seq<u8>;

/// Relies on the outside hashing crate's SHA-256: the digest is a pure
/// function of the input bytes and is 32 bytes long.
#[verifier::external_body]
fn sha256_digest(data: &Vec<u8>) -> (r: Vec<u8>)
    ensures
        r@ == sha256_of(data@),
        r@.len() == 32,
{
    sha2::Sha256::digest(data.as_slice()).to_vec()
}

/// The message hashed to seed the root generator: the global seed's bytes,
/// most significant first, then the local seed's.
pub open spec fn spec_seed_msg(local_seed: u32, global_seed: i64) -> Seq<u8> {
    let g = global_seed as u64;
    let l = local_seed;
    seq![
        (g >> 56u64) as u8,
        (g >> 48u64) as u8,
        (g >> 40u64) as u8,
        (g >> 32u64) as u8,
        (g >> 24u64) as u8,
        (g >> 16u64) as u8,
        (g >> 8u64) as u8,
        g as u8,
        (l >> 24u32) as u8,
        (l >> 16u32) as u8,
        (l >> 8u32) as u8,
        l as u8,
    ]
}

/// A 64-bit word read from eight bytes, least significant first.
pub open spec fn spec_word_le(b: Seq<u8>, off: int) -> u64 {
    (b[off] + b[off + 1] * 0x100 + b[off + 2] * 0x10000 + b[off + 3] * 0x1000000 + b[off + 4]
        * 0x100000000 + b[off + 5] * 0x10000000000 + b[off + 6] * 0x1000000000000 + b[off + 7]
        * 0x100000000000000) as u64
}

/// Read a 64-bit word from eight bytes of `b`, least significant first.
fn word_le(b: &Vec<u8>, off: usize) -> (w: u64)
    requires
        off + 8 <= b@.len(),
    ensures
        w == spec_word_le(b@, off as int),
{
    let n = b.len();
    let wide: u128 = b[off] as u128 + b[off + 1] as u128 * 0x100 + b[off + 2] as u128 * 0x10000
        + b[off + 3] as u128 * 0x1000000 + b[off + 4] as u128 * 0x100000000 + b[off + 5] as u128
        * 0x10000000000 + b[off + 6] as u128 * 0x1000000000000 + b[off + 7] as u128
        * 0x100000000000000;
    proof {
        assert(wide as int <= 0xff + 0xff * 0x100 + 0xff * 0x10000 + 0xff * 0x1000000 + 0xff
            * 0x100000000 + 0xff * 0x10000000000 + 0xff * 0x1000000000000 + 0xff
            * 0x100000000000000);
    }
    wide as u64
}

/// The generator state derived from the two seeds: the four little-endian
/// words of the digest of the seed message.
pub open spec fn spec_rng_from_seeds(local_seed: u32, global_seed: i64) -> Rng {
    let d = sha256_of(spec_seed_msg(local_seed, global_seed));
    Rng::spec_from_seed(
        spec_word_le(d, 0),
        spec_word_le(d, 8),
        spec_word_le(d, 16),
        spec_word_le(d, 24),
    )
}

/// Derive the root generator for one generation run by hashing the global
/// seed together with a local seed.  The result depends only on the two
/// seeds, so every run with the same seeds draws the same stream.
pub fn create_rng_from_seed_and_state(local_seed: u32, global_seed: i64) -> (r: Rng)
    ensures
        r == spec_rng_from_seeds(local_seed, global_seed),
{
    let g = global_seed as u64;
    let mut msg: Vec<u8> = Vec::new();
    msg.push((g >> 56u64) as u8);
    msg.push((g >> 48u64) as u8);
    msg.push((g >> 40u64) as u8);
    msg.push((g >> 32u64) as u8);
    msg.push((g >> 24u64) as u8);
    msg.push((g >> 16u64) as u8);
    msg.push((g >> 8u64) as u8);
    msg.push(g as u8);
    msg.push((local_seed >> 24u32) as u8);
    msg.push((local_seed >> 16u32) as u8);
    msg.push((local_seed >> 8u32) as u8);
    msg.push(local_seed as u8);
    proof {
        assert(msg@ =~= spec_seed_msg(local_seed, global_seed));
    }
    let digest = sha256_digest(&msg);
    let w0 = word_le(&digest, 0);
    let w1 = word_le(&digest, 8);
    let w2 = word_le(&digest, 16);
    let w3 = word_le(&digest, 24);
    Rng::from_seed(w0, w1, w2, w3)
}

/// Whether a character is a hexadecimal digit.
pub open spec fn spec_is_hex(c: char) -> bool {
    ('0' <= c && c <= '9') || ('a' <= c && c <= 'f') || ('A' <= c && c <= 'F')
}

/// The value of a hexadecimal digit.
pub open spec fn spec_hex_val(c: char) -> int {
    if '0' <= c && c <= '9' {
        c as int - '0' as int
    } else if 'a' <= c && c <= 'f' {
        c as int - 'a' as int + 10
    } else {
        c as int - 'A' as int + 10
    }
}

/// The digit characters of a seed string: everything after one optional
/// leading plus sign.
pub open spec fn spec_seed_digits(s: Seq<char>) -> Seq<char> {
    if s.len() > 0 && s[0] == '+' {
        s.drop_first()
    } else {
        s
    }
}

/// The value of the first `p` digit characters, read as hexadecimal.
pub open spec fn spec_hex_prefix_val(ds: Seq<char>, p: int) -> int
    decreases p,
{
    if p <= 0 {
        0
    } else {
        spec_hex_prefix_val(ds, p - 1) * 16 + spec_hex_val(ds[p - 1])
    }
}

/// All of the first `p` digit characters are hexadecimal digits.
pub open spec fn spec_all_hex(ds: Seq<char>, p: int) -> bool {
    forall|q: int| 0 <= q < p ==> spec_is_hex(#[trigger] ds[q])
}

/// Why a seed string failed to parse.
#[derive(Clone, Copy, Debug, PartialEq, Eq, Structural)]
pub enum SeedParseError {
    /// No digits: the string was empty, or held only the sign.
    Empty,
    /// A character was not a hexadecimal digit.
    InvalidDigit,
    /// The digits name a value that does not fit 64 bits.
    Overflow,
}

/// A hexadecimal digit's value is never negative.
proof fn lemma_all_hex_nonneg(ds: Seq<char>, p: int)
    requires
        spec_all_hex(ds, p),
    ensures
        forall|t: int| 0 <= t < p ==> spec_hex_val(#[trigger] ds[t]) >= 0,
{
    assert forall|t: int| 0 <= t < p implies spec_hex_val(#[trigger] ds[t]) >= 0 by {
        assert(spec_is_hex(ds[t]));
    }
}

/// Growing a valid prefix never shrinks its value.
proof fn lemma_hex_prefix_monotone(ds: Seq<char>, p: int, q: int)
    requires
        0 <= p <= q,
        spec_all_hex(ds, q),
        forall|t: int| 0 <= t < q ==> spec_hex_val(#[trigger] ds[t]) >= 0,
    ensures
        spec_hex_prefix_val(ds, p) <= spec_hex_prefix_val(ds, q),
        spec_hex_prefix_val(ds, p) >= 0,
    decreases q - p,
{
    if p == q {
        lemma_hex_prefix_nonneg(ds, p);
    } else {
        lemma_hex_prefix_monotone(ds, p, q - 1);
        lemma_hex_prefix_nonneg(ds, q - 1);
    }
}

/// A valid prefix's value is never negative.
proof fn lemma_hex_prefix_nonneg(ds: Seq<char>, p: int)
    requires
        forall|t: int| 0 <= t < p ==> spec_hex_val(#[trigger] ds[t]) >= 0,
    ensures
        spec_hex_prefix_val(ds, p) >= 0,
    decreases p,
{
    if p > 0 {
        lemma_hex_prefix_nonneg(ds, p - 1);
    }
}

/// Parse a seed from hexadecimal text: an optional leading plus sign, then
/// hexadecimal digits.  Succeeds exactly on strings whose digits are all
/// hexadecimal, nonempty, and name a value that fits 64 bits; each error
/// names the first problem met reading left to right.
#[verifier::loop_isolation(false)]
pub fn parse_hexseed(s: &str) -> (r: Result<u64, SeedParseError>)
    ensures
        ({
            let ds = spec_seed_digits(s@);
            &&& (r is Ok <==> ds.len() >= 1 && spec_all_hex(ds, ds.len() as int)
                && spec_hex_prefix_val(ds, ds.len() as int) <= u64::MAX)
            &&& (r is Ok ==> r->Ok_0 == spec_hex_prefix_val(ds, ds.len() as int))
            &&& (r == Result::<u64, SeedParseError>::Err(SeedParseError::Empty) <==> ds.len()
                == 0)
            &&& (r == Result::<u64, SeedParseError>::Err(SeedParseError::Overflow) <==> exists|
                p: int,
            |
                0 <= p <= ds.len() && spec_all_hex(ds, p) && spec_hex_prefix_val(ds, p)
                    > u64::MAX)
        }),
{
    let n = s.unicode_len();
    let off: usize = if n > 0 && s.get_char(0) == '+' {
        1
    } else {
        0
    };
    let ghost ds = spec_seed_digits(s@);
    proof {
        if off == 1 {
            assert(ds =~= s@.drop_first());
        }
        assert(ds.len() == n - off);
    }
    if n == off {
        return Err(SeedParseError::Empty);
    }
    let mut acc: u64 = 0;
    let mut p: usize = 0;
    while p < n - off
        invariant
            0 <= p <= ds.len(),
            off <= n,
            n - off == ds.len(),
            spec_all_hex(ds, p as int),
            acc as int == spec_hex_prefix_val(ds, p as int),
            forall|t: int| 0 <= t < p ==> spec_hex_val(#[trigger] ds[t]) >= 0,
        decreases ds.len() - p,
    {
        let c = s.get_char(off + p);
        proof {
            assert(ds[p as int] == s@[off + p as int]);
        }
        let d: u64;
        if c >= '0' && c <= '9' {
            d = c as u64 - '0' as u64;
        } else if c >= 'a' && c <= 'f' {
            d = c as u64 - 'a' as u64 + 10;
        } else if c >= 'A' && c <= 'F' {
            d = c as u64 - 'A' as u64 + 10;
        } else {
            proof {
                assert(!spec_is_hex(ds[p as int]));
                assert forall|q: int, |
                    0 <= q <= ds.len() && spec_all_hex(ds, q) implies spec_hex_prefix_val(ds, q)
                    <= u64::MAX by {
                    assert(q <= p as int) by {
                        if q > p as int {
                            assert(spec_is_hex(ds[p as int]));
                        }
                    }
                    lemma_hex_prefix_monotone(ds, q, p as int);
                }
            }
            return Err(SeedParseError::InvalidDigit);
        }
        let wide: u128 = (acc as u128) * 16 + (d as u128);
        if wide > u64::MAX as u128 {
            proof {
                assert(spec_all_hex(ds, p as int + 1));
                assert(spec_hex_prefix_val(ds, p as int + 1) > u64::MAX);
                if ds.len() >= 1 && spec_all_hex(ds, ds.len() as int) {
                    lemma_all_hex_nonneg(ds, ds.len() as int);
                    lemma_hex_prefix_monotone(ds, p as int + 1, ds.len() as int);
                }
            }
            return Err(SeedParseError::Overflow);
        }
        acc = wide as u64;
        p = p + 1;
    }
    proof {
        assert forall|q: int, |
            0 <= q <= ds.len() && spec_all_hex(ds, q) implies spec_hex_prefix_val(ds, q)
            <= u64::MAX by {
            lemma_hex_prefix_monotone(ds, q, ds.len() as int);
        }
    }
    Ok(acc)
}

/// The uppercase hexadecimal digit for a value below sixteen.
pub open spec fn spec_hex_digit(d: int) -> char {
    if d == 0 {
        '0'
    } else if d == 1 {
        '1'
    } else if d == 2 {
        '2'
    } else if d == 3 {
        '3'
    } else if d == 4 {
        '4'
    } else if d == 5 {
        '5'
    } else if d == 6 {
        '6'
    } else if d == 7 {
        '7'
    } else if d == 8 {
        '8'
    } else if d == 9 {
        '9'
    } else if d == 10 {
        'A'
    } else if d == 11 {
        'B'
    } else if d == 12 {
        'C'
    } else if d == 13 {
        'D'
    } else if d == 14 {
        'E'
    } else {
        'F'
    }
}

/// The sixteen uppercase hexadecimal digits of a seed's 64 bits, most
/// significant first.
pub open spec fn spec_seed_hex(v: u64) -> Seq<char> {
    Seq::new(16, |i: int| spec_hex_digit(((v >> (((15 - i) * 4) as u64)) & 0xf) as int))
}

/// Append one uppercase hexadecimal digit.
fn push_hex_digit(out: &mut String, d: u64)
    requires
        d < 16,
    ensures
        final(out)@ == old(out)@.push(spec_hex_digit(d as int)),
{
    let ghost expected = spec_hex_digit(d as int);
    let digit: &str = if d == 0 {
        "0"
    } else if d == 1 {
        "1"
    } else if d == 2 {
        "2"
    } else if d == 3 {
        "3"
    } else if d == 4 {
        "4"
    } else if d == 5 {
        "5"
    } else if d == 6 {
        "6"
    } else if d == 7 {
        "7"
    } else if d == 8 {
        "8"
    } else if d == 9 {
        "9"
    } else if d == 10 {
        "A"
    } else if d == 11 {
        "B"
    } else if d == 12 {
        "C"
    } else if d == 13 {
        "D"
    } else if d == 14 {
        "E"
    } else {
        "F"
    };
    proof {
        reveal_strlit("0");
        reveal_strlit("1");
        reveal_strlit("2");
        reveal_strlit("3");
        reveal_strlit("4");
        reveal_strlit("5");
        reveal_strlit("6");
        reveal_strlit("7");
        reveal_strlit("8");
        reveal_strlit("9");
        reveal_strlit("A");
        reveal_strlit("B");
        reveal_strlit("C");
        reveal_strlit("D");
        reveal_strlit("E");
        reveal_strlit("F");
        assert(digit@ =~= seq![expected]);
    }
    out.append(digit);
    proof {
        assert(out@ =~= old(out)@.push(expected));
    }
}

/// Format a seed as sixteen uppercase hexadecimal characters, zero padded:
/// the digits of its 64-bit two's-complement pattern, most significant
/// first.
#[verifier::loop_isolation(false)]
pub fn format_seed_hex(seed: i64) -> (r: String)
    ensures
        r@ == spec_seed_hex(seed as u64),
{
    let v = seed as u64;
    let mut out = String::new();
    let mut i: usize = 0;
    while i < 16
        invariant
            0 <= i <= 16,
            out@.len() == i as int,
            forall|j: int| 0 <= j < i ==> out@[j] == spec_seed_hex(v)[j],
        decreases 16 - i,
    {
        let shift: u64 = (15 - i as u64) * 4;
        let d = (v >> shift) & 0xf;
        proof {
            assert((v >> shift) & 0xf < 16) by (bit_vector);
        }
        push_hex_digit(&mut out, d);
        i = i + 1;
    }
    proof {
        assert(out@ =~= spec_seed_hex(v));
    }
    out
}

} // verus!
