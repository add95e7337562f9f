//! Length-prefixed framing for the host-to-worker byte streams.
//!
//! A frame is a fixed-width little-endian byte count followed by exactly
//! that many payload bytes, used symmetrically in both directions: read the
//! count, then read that many bytes. The payload's meaning is left to the
//! prepare- and execute-specific logic outside this core. The functions here
//! build and read the prefix; the socket I/O itself happens outside the
//! library.

use vstd::prelude::*;

verus! {

/// Width in bytes of the little-endian length prefix of a frame.
pub const LENGTH_PREFIX_BYTES: usize = 8;

/// 256 to the power `k`: how many values `k` little-endian bytes can hold.
pub open spec fn pow256(k: nat) -> nat
    decreases k,
{
    if k == 0 {
        1
    } else {
        256 * pow256((k - 1) as nat)
    }
}

/// The `count` little-endian bytes of `n`, least significant first.
pub open spec fn le_bytes_of(n: nat, count: nat) -> Seq<u8>
    decreases count,
{
    if count == 0 {
        Seq::empty()
    } else {
        seq![(n % 256) as u8] + le_bytes_of(n / 256, (count - 1) as nat)
    }
}

/// The value little-endian bytes `s` stand for.
pub open spec fn le_value_of(s: Seq<u8>) -> nat
    decreases s.len(),
{
    if s.len() == 0 {
        0
    } else {
        (s[0] + 256 * le_value_of(s.drop_first())) as nat
    }
}

/// A byte string's value fits in as many bytes as it has.
pub proof fn lemma_le_value_bound(s: Seq<u8>)
    ensures
        le_value_of(s) < pow256(s.len()),
    decreases s.len(),
{
    if s.len() == 0 {
    } else {
        lemma_le_value_bound(s.drop_first());
        assert(le_value_of(s.drop_first()) + 1 <= pow256((s.len() - 1) as nat));
        assert(s[0] + 256 * le_value_of(s.drop_first()) < 256 * pow256((s.len() - 1) as nat)) by (
        nonlinear_arith)
            requires
                s[0] < 256,
                le_value_of(s.drop_first()) + 1 <= pow256((s.len() - 1) as nat),
        ;
    }
}

/// Writing a value on `count` little-endian bytes and reading them back
/// gives the value again, as long as it fits.
pub proof fn lemma_le_round_trip(n: nat, count: nat)
    requires
        n < pow256(count),
    ensures
        le_value_of(le_bytes_of(n, count)) == n,
    decreases count,
{
    if count == 0 {
    } else {
        let bytes = le_bytes_of(n, count);
        assert(n / 256 < pow256((count - 1) as nat)) by (nonlinear_arith)
            requires
                n < 256 * pow256((count - 1) as nat),
        ;
        lemma_le_round_trip(n / 256, (count - 1) as nat);
        assert(bytes.drop_first() =~= le_bytes_of(n / 256, (count - 1) as nat));
        assert(n == 256 * (n / 256) + n % 256) by (nonlinear_arith);
    }
}

/// Reading `count` little-endian bytes and writing the value back gives the
/// same bytes.
pub proof fn lemma_le_bytes_round_trip(s: Seq<u8>)
    ensures
        le_bytes_of(le_value_of(s), s.len()) == s,
    decreases s.len(),
{
    if s.len() == 0 {
        assert(le_bytes_of(le_value_of(s), s.len()) =~= s);
    } else {
        let v = le_value_of(s);
        let rest = le_value_of(s.drop_first());
        assert(v == s[0] + 256 * rest);
        assert(v % 256 == s[0] && v / 256 == rest) by (nonlinear_arith)
            requires
                v == s[0] + 256 * rest,
                0 <= s[0] < 256,
                0 <= rest,
        ;
        lemma_le_bytes_round_trip(s.drop_first());
        assert(le_bytes_of(v, s.len()) =~= s);
    }
}

/// `pow256` of the prefix width is one more than the largest `u64`.
pub proof fn lemma_pow256_prefix()
    ensures
        pow256(8) == 0x1_0000_0000_0000_0000,
{
    reveal_with_fuel(pow256, 9);
}

/// Builds the length prefix of a frame: the eight little-endian bytes of
/// the payload's byte count.
pub fn encode_frame_header(len: u64) -> (r: Vec<u8>)
    ensures
        r@ == le_bytes_of(len as nat, 8),
        r@.len() == 8,
{
    let mut r: Vec<u8> = Vec::new();
    let mut rest = len;
    let mut produced: usize = 0;
    proof {
        assert(r@ + le_bytes_of(rest as nat, 8) =~= le_bytes_of(len as nat, 8));
    }
    while produced < 8
        invariant
            produced <= 8,
            r@.len() == produced,
            r@ + le_bytes_of(rest as nat, (8 - produced) as nat) == le_bytes_of(len as nat, 8),
        decreases 8 - produced,
    {
        let ghost pre = r@;
        let ghost pre_rest = rest as nat;
        r.push((rest % 256) as u8);
        rest = rest / 256;
        produced = produced + 1;
        proof {
            assert(le_bytes_of(pre_rest, (9 - produced) as nat) == seq![(pre_rest % 256) as u8]
                + le_bytes_of(pre_rest / 256, (8 - produced) as nat));
            assert(r@ + le_bytes_of(rest as nat, (8 - produced) as nat) =~= pre + le_bytes_of(
                pre_rest,
                (9 - produced) as nat,
            ));
        }
    }
    proof {
        assert(le_bytes_of(rest as nat, 0) =~= Seq::<u8>::empty());
        assert(r@ + Seq::<u8>::empty() =~= r@);
    }
    r
}

/// Reads the length prefix of a frame: the value of its eight little-endian
/// bytes, which is the byte count of the payload that must follow.
#[verifier::loop_isolation(false)]
#[verifier::rlimit(30)]
pub fn decode_frame_header(header: &[u8]) -> (r: u64)
    requires
        header@.len() == 8,
    ensures
        r as nat == le_value_of(header@),
{
    proof {
        lemma_pow256_prefix();
    }
    let mut acc: u64 = 0;
    let mut i: usize = 8;
    while i > 0
        invariant
            i <= 8,
            header@.len() == 8,
            acc as nat == le_value_of(header@.skip(i as int)),
        decreases i,
    {
        i = i - 1;
        let ghost tail = header@.skip(i + 1);
        proof {
            lemma_le_value_bound(tail);
            lemma_pow256_decreasing((8 - i - 1) as nat, 8);
            assert(header@.skip(i as int).drop_first() =~= tail);
            assert(acc * 256 + header@[i as int] < 256 * pow256(tail.len())) by (nonlinear_arith)
                requires
                    acc as nat + 1 <= pow256(tail.len()),
                    header@[i as int] < 256,
            ;
            assert(256 * pow256(tail.len()) == pow256((tail.len() + 1) as nat));
            lemma_pow256_decreasing((tail.len() + 1) as nat, 8);
        }
        acc = acc * 256 + (header[i] as u64);
        proof {
            assert(acc as nat == le_value_of(header@.skip(i as int)));
        }
    }
    proof {
        assert(header@.skip(0) =~= header@);
    }
    acc
}

/// Fewer bytes hold no more values.
proof fn lemma_pow256_decreasing(a: nat, b: nat)
    requires
        a <= b,
    ensures
        pow256(a) <= pow256(b),
    decreases b,
{
    if a < b {
        lemma_pow256_decreasing(a, (b - 1) as nat);
        assert(pow256((b - 1) as nat) <= 256 * pow256((b - 1) as nat)) by (nonlinear_arith)
            requires
                pow256((b - 1) as nat) >= 0,
        ;
    }
}

/// Builds a whole frame: the length prefix followed by the payload itself.
pub fn encode_frame(payload: &Vec<u8>) -> (r: Vec<u8>)
    ensures
        r@ == le_bytes_of(payload@.len(), 8) + payload@,
{
    let mut r = encode_frame_header(payload.len() as u64);
    let ghost header = r@;
    let mut i: usize = 0;
    while i < payload.len()
        invariant
            i <= payload@.len(),
            header == le_bytes_of(payload@.len(), 8),
            r@ == header + payload@.take(i as int),
        decreases payload@.len() - i,
    {
        r.push(payload[i]);
        i = i + 1;
        proof {
            assert(r@ =~= header + payload@.take(i as int));
        }
    }
    proof {
        assert(payload@.take(payload@.len() as int) =~= payload@);
    }
    r
}

} // verus!
