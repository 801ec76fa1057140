//! Base-128 varints and zigzag integers, the two primitive encodings of the
//! binary tile format. Both come with exact models and round-trip lemmas.

use vstd::prelude::*;

verus! {

use vstd::arithmetic::div_mod::lemma_fundamental_div_mod;

/// Zigzag-map a signed value onto the non-negative integers: small
/// magnitudes (of either sign) map to small results.
pub open spec fn zigzag(v: int) -> int {
    if v >= 0 {
        2 * v
    } else {
        -2 * v - 1
    }
}

/// Inverse of `zigzag` on the non-negative integers.
pub open spec fn unzigzag(u: int) -> int {
    if u % 2 == 0 {
        u / 2
    } else {
        -((u + 1) / 2)
    }
}

/// Zigzag is lossless, non-negative, and keeps `i32` values inside `u32`.
pub proof fn lemma_zigzag_roundtrip(v: int)
    ensures
        unzigzag(zigzag(v)) == v,
        zigzag(v) >= 0,
        i32::MIN <= v <= i32::MAX ==> zigzag(v) <= u32::MAX,
{
}

/// Executable zigzag map.
pub fn zigzag_encode(v: i32) -> (u: u32)
    ensures
        u as int == zigzag(v as int),
{
    if v >= 0 {
        (v as u32) * 2
    } else {
        let m: i64 = -(v as i64);
        (2 * m - 1) as u32
    }
}

/// Executable zigzag inverse.
pub fn zigzag_decode(u: u32) -> (v: i32)
    ensures
        v as int == unzigzag(u as int),
{
    if u % 2 == 0 {
        (u / 2) as i32
    } else {
        let m: i64 = ((u as i64) + 1) / 2;
        (-m) as i32
    }
}

/// Little-endian base-128 encoding with a continuation bit on every byte
/// but the last.
pub open spec fn varint_enc(v: nat) -> Seq<u8>
    decreases v,
{
    if v < 128 {
        seq![v as u8]
    } else {
        seq![(v % 128 + 128) as u8] + varint_enc(v / 128)
    }
}

/// Reads one varint of `s` starting at `i`. Returns the value and the index
/// one past its last byte; `None` on a truncated varint, or on one whose
/// value does not fit in 64 bits.
pub open spec fn varint_dec(s: Seq<u8>, i: int) -> Option<(nat, int)>
    decreases s.len() - i,
{
    if i < 0 || i >= s.len() {
        None
    } else if s[i] < 128 {
        Some((s[i] as nat, i + 1))
    } else {
        match varint_dec(s, i + 1) {
            None => None,
            Some((v, j)) => {
                let w = (s[i] - 128) + 128 * v;
                if w <= u64::MAX {
                    Some((w as nat, j))
                } else {
                    None
                }
            },
        }
    }
}

/// Decoding reads back exactly the value and the bytes that encoding wrote,
/// whatever follows them in the stream.
pub proof fn lemma_varint_roundtrip(s: Seq<u8>, i: int, v: nat)
    requires
        v <= u64::MAX,
        0 <= i,
        i + varint_enc(v).len() <= s.len(),
        s.subrange(i, i + varint_enc(v).len() as int) == varint_enc(v),
    ensures
        varint_dec(s, i) == Some((v, i + varint_enc(v).len() as int)),
    decreases v,
{
    let e = varint_enc(v);
    let l: int = e.len() as int;
    assert(s.subrange(i, i + l)[0] == s[i]);
    if v < 128 {
        assert(s[i] == v as u8);
    } else {
        let e2 = varint_enc(v / 128);
        assert(e == seq![(v % 128 + 128) as u8] + e2);
        assert(s[i] == (v % 128 + 128) as u8);
        assert forall|k: int| 0 <= k < e2.len() implies s.subrange(i + 1, i + l)[k] == e2[k] by {
            assert(s.subrange(i, i + l)[k + 1] == e[k + 1]);
            assert(e[k + 1] == e2[k]);
        }
        assert(s.subrange(i + 1, i + l) =~= e2);
        lemma_varint_roundtrip(s, i + 1, v / 128);
        lemma_fundamental_div_mod(v as int, 128);
        assert((s[i] - 128) + 128 * (v / 128) == v);
    }
}

/// A decoded varint always makes progress, stays inside the stream, and
/// its value fits in 64 bits.
pub proof fn lemma_varint_dec_bounds(s: Seq<u8>, i: int)
    ensures
        varint_dec(s, i) matches Some((v, j)) ==> i < j <= s.len() && v <= u64::MAX,
    decreases s.len() - i,
{
    if 0 <= i && i < s.len() && s[i] >= 128 {
        lemma_varint_dec_bounds(s, i + 1);
    }
}

/// Appends the varint encoding of `v` to `out`.
pub fn write_varint(out: &mut Vec<u8>, v: u64)
    ensures
        final(out)@ == old(out)@ + varint_enc(v as nat),
{
    let ghost start = out@;
    let mut x: u64 = v;
    while x >= 128
        invariant
            out@ + varint_enc(x as nat) == start + varint_enc(v as nat),
        decreases x,
    {
        let ghost x0 = x as nat;
        let b: u8 = (x % 128 + 128) as u8;
        let ghost before = out@;
        out.push(b);
        x = x / 128;
        proof {
            assert(varint_enc(x0) == seq![b] + varint_enc(x as nat));
            assert(out@ =~= before + seq![b]);
            assert((before + seq![b]) + varint_enc(x as nat) =~= before + (seq![b] + varint_enc(
                x as nat,
            )));
        }
    }
    let ghost before = out@;
    out.push(x as u8);
    proof {
        assert(varint_enc(x as nat) =~= seq![x as u8]);
        assert(out@ =~= before + varint_enc(x as nat));
    }
}

/// Reads one varint of `s` starting at `i`, exactly as the model
/// `varint_dec` describes.
pub fn read_varint(s: &Vec<u8>, i: usize) -> (r: Option<(u64, usize)>)
    ensures
        match varint_dec(s@, i as int) {
            Some((v, j)) => r == Some((v as u64, j as usize)),
            None => r is None,
        },
    decreases s.len() - i,
{
    if i >= s.len() {
        None
    } else {
        let b: u8 = s[i];
        if b < 128 {
            Some((b as u64, i + 1))
        } else {
            match read_varint(s, i + 1) {
                None => None,
                Some((v, j)) => {
                    if v <= (u64::MAX - 127) / 128 {
                        proof {
                            lemma_varint_dec_bounds(s@, (i + 1) as int);
                        }
                        Some(((b - 128) as u64 + 128 * v, j))
                    } else {
                        None
                    }
                },
            }
        }
    }
}

} // verus!
