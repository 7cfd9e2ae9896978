//! Dense 2-bit encoding of k-mers into `u64` keys.
//!
//! Base `i` of a k-mer occupies bits `2i..2i + 2` of its key, with
//! `A = 00`, `C = 01`, `G = 10`, `T = 11` (either letter case). Any other
//! byte makes the k-mer unencodable.
use vstd::prelude::*;

verus! {

/// Largest k-mer size whose key fits in 64 bits.
pub const MAX_KSIZE: usize = 32;

/// The 2-bit code of a nucleotide letter (ASCII `A`/`a`, `C`/`c`, `G`/`g`,
/// `T`/`t`), or `None` for a non-canonical byte.
pub open spec fn base_code(b: u8) -> Option<int> {
    if b == 65u8 || b == 97u8 {
        Some(0)
    } else if b == 67u8 || b == 99u8 {
        Some(1)
    } else if b == 71u8 || b == 103u8 {
        Some(2)
    } else if b == 84u8 || b == 116u8 {
        Some(3)
    } else {
        None
    }
}

pub open spec fn is_canonical(b: u8) -> bool {
    base_code(b) is Some
}

pub open spec fn all_canonical(s: Seq<u8>) -> bool {
    forall|i: int| 0 <= i < s.len() ==> is_canonical(#[trigger] s[i])
}

pub open spec fn code_of(b: u8) -> int {
    match base_code(b) {
        Some(c) => c,
        None => 0,
    }
}

/// The key of a k-mer as a number: the first base in the lowest two bits.
pub open spec fn packed_value(s: Seq<u8>) -> int
    decreases s.len(),
{
    if s.len() == 0 {
        0
    } else {
        code_of(s[0]) + 4 * packed_value(s.drop_first())
    }
}

/// The key of `s`, or `None` where `s` holds a non-canonical byte.
pub open spec fn encoded(s: Seq<u8>) -> Option<u64> {
    if all_canonical(s) {
        Some(packed_value(s) as u64)
    } else {
        None
    }
}

/// The upper-case letter of a 2-bit code.
pub open spec fn base_letter(c: int) -> u8 {
    if c == 0 {
        65u8
    } else if c == 1 {
        67u8
    } else if c == 2 {
        71u8
    } else {
        84u8
    }
}

/// The `n` letters that a key stands for, read from its lowest bits up.
pub open spec fn decoded(key: int, n: nat) -> Seq<u8>
    decreases n,
{
    if n == 0 {
        Seq::empty()
    } else {
        seq![base_letter(key % 4)] + decoded(key / 4, (n - 1) as nat)
    }
}

/// A canonical letter in upper case.
pub open spec fn upper(b: u8) -> u8 {
    base_letter(code_of(b))
}

pub open spec fn pow4(n: nat) -> int
    decreases n,
{
    if n == 0 {
        1
    } else {
        4 * pow4((n - 1) as nat)
    }
}

/// Relies on `bitnuc::as_2bit`: for at most 32 bytes it packs base `i` into
/// bits `2i..2i + 2` (A=00, C=01, G=10, T=11, case-insensitive) and fails on
/// any other byte. The crate is built with its `nosimd` feature, so the call
/// takes the bounds-checked scalar path: the vector paths of this version load
/// past the end of short inputs.
#[verifier::external_body]
fn as_2bit(seq: &[u8]) -> (r: Option<u64>)
    requires
        seq@.len() <= 32,
    ensures
        r is Some <==> all_canonical(seq@),
        r matches Some(x) ==> x as int == packed_value(seq@),
{
    bitnuc::as_2bit(seq).ok()
}

/// Relies on `bitnuc::from_2bit`: for `n <= 32` it appends `n` upper-case
/// letters to `out`, letter `i` read from bits `2i..2i + 2` of `packed`
/// (scalar path, under the `nosimd` feature).
#[verifier::external_body]
fn from_2bit(packed: u64, n: usize, out: &mut Vec<u8>)
    requires
        n <= 32,
    ensures
        final(out)@ == old(out)@ + decoded(packed as int, n as nat),
{
    let _ = bitnuc::from_2bit(packed, n, out);
}

/// Encodes a k-mer of at most 32 bases into its key; `None` where it holds a
/// non-canonical byte.
pub fn encode(seq: &[u8]) -> (r: Option<u64>)
    requires
        seq@.len() <= MAX_KSIZE,
    ensures
        r == encoded(seq@),
        r matches Some(x) ==> (x as int) < pow4(seq@.len()),
{
    let r = as_2bit(seq);
    proof {
        lemma_packed_range(seq@);
    }
    proof {
        if let Some(x) = r {
            assert(packed_value(seq@) as u64 == x);
        }
    }
    r
}

/// Decodes a key into the `k` upper-case letters it stands for.
pub fn decode(key: u64, k: usize) -> (r: Vec<u8>)
    requires
        k <= MAX_KSIZE,
    ensures
        r@ == decoded(key as int, k as nat),
{
    let mut out: Vec<u8> = Vec::new();
    from_2bit(key, k, &mut out);
    assert(out@ =~= decoded(key as int, k as nat));
    out
}

/// The key of a k-mer fits in its `2k` low bits.
pub proof fn lemma_packed_range(s: Seq<u8>)
    ensures
        0 <= packed_value(s) < pow4(s.len()),
    decreases s.len(),
{
    if s.len() > 0 {
        lemma_packed_range(s.drop_first());
        let c = code_of(s[0]);
        let t = packed_value(s.drop_first());
        assert(0 <= c < 4);
        assert(pow4(s.len()) == 4 * pow4(s.drop_first().len()));
        assert(c + 4 * t < 4 * pow4(s.drop_first().len())) by (nonlinear_arith)
            requires
                0 <= c < 4,
                t < pow4(s.drop_first().len()),
        ;
    }
}

proof fn lemma_pow4_mono(a: nat, b: nat)
    requires
        a <= b,
    ensures
        pow4(a) <= pow4(b),
    decreases b,
{
    if a < b {
        lemma_pow4_mono(a, (b - 1) as nat);
        lemma_pow4_pos((b - 1) as nat);
        assert(pow4(b) == 4 * pow4((b - 1) as nat));
    }
}

proof fn lemma_pow4_pos(n: nat)
    ensures
        pow4(n) >= 1,
    decreases n,
{
    if n > 0 {
        lemma_pow4_pos((n - 1) as nat);
    }
}

proof fn lemma_decode_packed(s: Seq<u8>)
    ensures
        decoded(packed_value(s), s.len()) == s.map_values(|b: u8| upper(b)),
    decreases s.len(),
{
    if s.len() == 0 {
        assert(s.map_values(|b: u8| upper(b)) =~= Seq::empty());
    } else {
        let c = code_of(s[0]);
        let t = packed_value(s.drop_first());
        lemma_packed_range(s.drop_first());
        assert((c + 4 * t) % 4 == c && (c + 4 * t) / 4 == t) by (nonlinear_arith)
            requires
                0 <= c < 4,
                0 <= t,
        ;
        lemma_decode_packed(s.drop_first());
        assert(s.map_values(|b: u8| upper(b)) =~= seq![upper(s[0])] + s.drop_first().map_values(
            |b: u8| upper(b),
        ));
    }
}

/// Decoding the key of a canonical k-mer of at most 32 bases with its own
/// length gives the k-mer back, each letter in upper case; a k-mer written in
/// upper-case letters comes back unchanged.
pub proof fn lemma_round_trip(s: Seq<u8>)
    requires
        s.len() <= MAX_KSIZE,
        all_canonical(s),
    ensures
        encoded(s) is Some,
        encoded(s)->0 as int == packed_value(s),
        decoded(encoded(s)->0 as int, s.len()) == s.map_values(|b: u8| upper(b)),
        (forall|i: int| 0 <= i < s.len() ==> upper(#[trigger] s[i]) == s[i]) ==> decoded(
            encoded(s)->0 as int,
            s.len(),
        ) == s,
{
    lemma_packed_range(s);
    lemma_pow4_mono(s.len(), 32);
    assert(pow4(32) == 0x1_0000_0000_0000_0000) by {
        reveal_with_fuel(pow4, 33);
    }
    lemma_decode_packed(s);
    if forall|i: int| 0 <= i < s.len() ==> upper(#[trigger] s[i]) == s[i] {
        assert(s.map_values(|b: u8| upper(b)) =~= s);
    }
}

} // verus!
