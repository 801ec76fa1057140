//! The binary vector-tile format: one layer of point features.
//!
//! A tile is a protocol-buffer-style message: the tile carries one
//! length-prefixed layer (field 3); the layer carries a name (field 1), its
//! features (field 2, one length-prefixed message each), an extent (field 5)
//! and a version (field 15, always 2); a feature carries its geometry type
//! (field 3, always point) and a packed geometry (field 4) holding one
//! move-to command `9` followed by the zigzag-encoded coordinates, the
//! deltas from the cursor origin `(0, 0)`. Encoding and decoding are both
//! modeled exactly, and decoding an encoded tile is proved to give back the
//! layer name, the extent and every coordinate pair.

use vstd::prelude::*;

verus! {

use crate::varint::varint_enc;
use crate::varint::varint_dec;
use crate::varint::zigzag;
use crate::varint::unzigzag;
use crate::varint::lemma_varint_roundtrip;
use crate::varint::lemma_varint_dec_bounds;
use crate::varint::lemma_zigzag_roundtrip;
use crate::geometry::pts_model;

/// Both coordinates of a projected point fit in `i32`, as the packed
/// `uint32` geometry encoding requires.
pub open spec fn in_i32(p: (int, int)) -> bool {
    i32::MIN <= p.0 <= i32::MAX && i32::MIN <= p.1 <= i32::MAX
}

/// The packed geometry of one point feature: a move-to command of count
/// one, then the zigzag-encoded coordinates.
pub open spec fn geom_enc(p: (int, int)) -> Seq<u8> {
    varint_enc(9) + varint_enc(zigzag(p.0) as nat) + varint_enc(zigzag(p.1) as nat)
}

/// One feature message: geometry type point (field 3), then the packed
/// geometry (field 4) behind its byte length.
pub open spec fn feature_enc(p: (int, int)) -> Seq<u8> {
    varint_enc(24) + varint_enc(1) + varint_enc(34) + varint_enc(geom_enc(p).len() as nat)
        + geom_enc(p)
}

/// One feature as it sits in the layer: field 2, length-prefixed.
pub open spec fn feature_frame(p: (int, int)) -> Seq<u8> {
    varint_enc(18) + varint_enc(feature_enc(p).len() as nat) + feature_enc(p)
}

/// All features of the layer, in order.
pub open spec fn features_enc(pts: Seq<(int, int)>) -> Seq<u8>
    decreases pts.len(),
{
    if pts.len() == 0 {
        Seq::empty()
    } else {
        feature_frame(pts[0]) + features_enc(pts.drop_first())
    }
}

/// One layer message: name (field 1), features (field 2), extent (field 5),
/// version (field 15, value 2), in tag order.
pub open spec fn layer_enc(name: Seq<u8>, extent: nat, pts: Seq<(int, int)>) -> Seq<u8> {
    varint_enc(10) + varint_enc(name.len() as nat) + name + features_enc(pts) + varint_enc(40)
        + varint_enc(extent) + varint_enc(120) + varint_enc(2)
}

/// A whole tile: the single layer behind field 3 and its byte length.
pub open spec fn tile_enc(name: Seq<u8>, extent: nat, pts: Seq<(int, int)>) -> Seq<u8> {
    varint_enc(26) + varint_enc(layer_enc(name, extent, pts).len() as nat) + layer_enc(
        name,
        extent,
        pts,
    )
}

/// Reads one feature message of `s` starting at `i`: the exact shape the
/// encoder emits, with the byte length and the `uint32` range of the packed
/// values checked.
pub open spec fn dec_feature(s: Seq<u8>, i: int) -> Option<((int, int), int)> {
    match varint_dec(s, i) {
        None => None,
        Some((t1, i1)) => if t1 != 24 {
            None
        } else {
            match varint_dec(s, i1) {
                None => None,
                Some((ty, i2)) => if ty != 1 {
                    None
                } else {
                    match varint_dec(s, i2) {
                        None => None,
                        Some((t2, i3)) => if t2 != 34 {
                            None
                        } else {
                            match varint_dec(s, i3) {
                                None => None,
                                Some((glen, i4)) => match varint_dec(s, i4) {
                                    None => None,
                                    Some((cmd, i5)) => if cmd != 9 {
                                        None
                                    } else {
                                        match varint_dec(s, i5) {
                                            None => None,
                                            Some((zx, i6)) => match varint_dec(s, i6) {
                                                None => None,
                                                Some((zy, i7)) => if i7 == i4 + glen && zx
                                                    <= u32::MAX && zy <= u32::MAX {
                                                    Some(
                                                        (
                                                            (
                                                                unzigzag(zx as int),
                                                                unzigzag(zy as int),
                                                            ),
                                                            i7,
                                                        ),
                                                    )
                                                } else {
                                                    None
                                                },
                                            },
                                        }
                                    },
                                },
                            }
                        },
                    }
                },
            }
        },
    }
}

/// Reads feature messages until the next field tag is not a feature; the
/// list may be empty.
pub open spec fn dec_features(s: Seq<u8>, i: int) -> Option<(Seq<(int, int)>, int)>
    decreases s.len() - i,
{
    if i < 0 || i > s.len() {
        None
    } else {
        match varint_dec(s, i) {
            None => Some((Seq::empty(), i)),
            Some((tag, i1)) => if tag != 18 {
                Some((Seq::empty(), i))
            } else {
                match varint_dec(s, i1) {
                    None => None,
                    Some((flen, i2)) => match dec_feature(s, i2) {
                        None => None,
                        Some((pt, i3)) => if i3 != i2 + flen {
                            None
                        } else if !(i < i3 <= s.len()) {
                            // a feature always advances the cursor, so this
                            // rejection is never taken on a real parse; it
                            // also bounds the recursion
                            None
                        } else {
                            match dec_features(s, i3) {
                                None => None,
                                Some((rest, j)) => Some((seq![pt] + rest, j)),
                            }
                        },
                    },
                }
            },
        }
    }
}

/// Reads one layer message: name, features, extent, version 2.
pub open spec fn dec_layer(s: Seq<u8>, i: int) -> Option<((Seq<u8>, nat, Seq<(int, int)>), int)> {
    match varint_dec(s, i) {
        None => None,
        Some((t1, i1)) => if t1 != 10 {
            None
        } else {
            match varint_dec(s, i1) {
                None => None,
                Some((nlen, i2)) => if i2 + nlen > s.len() {
                    None
                } else {
                    let name = s.subrange(i2, i2 + nlen);
                    match dec_features(s, i2 + nlen) {
                        None => None,
                        Some((pts, i3)) => match varint_dec(s, i3) {
                            None => None,
                            Some((t2, i4)) => if t2 != 40 {
                                None
                            } else {
                                match varint_dec(s, i4) {
                                    None => None,
                                    Some((extent, i5)) => match varint_dec(s, i5) {
                                        None => None,
                                        Some((t3, i6)) => if t3 != 120 {
                                            None
                                        } else {
                                            match varint_dec(s, i6) {
                                                None => None,
                                                Some((ver, i7)) => if ver != 2 {
                                                    None
                                                } else {
                                                    Some(((name, extent, pts), i7))
                                                },
                                            }
                                        },
                                    },
                                }
                            },
                        },
                    }
                },
            }
        },
    }
}

/// Reads a whole tile: exactly one layer filling the byte sequence.
pub open spec fn dec_tile(s: Seq<u8>) -> Option<(Seq<u8>, nat, Seq<(int, int)>)> {
    match varint_dec(s, 0) {
        None => None,
        Some((t, i1)) => if t != 26 {
            None
        } else {
            match varint_dec(s, i1) {
                None => None,
                Some((llen, i2)) => match dec_layer(s, i2) {
                    None => None,
                    Some((layer, j)) => if j == i2 + llen && j == s.len() {
                        Some(layer)
                    } else {
                        None
                    },
                },
            }
        },
    }
}

/// A varint takes at least one byte and at most one byte per unit of value.
pub proof fn lemma_varint_enc_len(v: nat)
    ensures
        1 <= varint_enc(v).len() <= v + 1,
    decreases v,
{
    if v >= 128 {
        lemma_varint_enc_len(v / 128);
    }
}

/// Splitting a stream slice known to hold a concatenation.
pub proof fn lemma_subrange_split(s: Seq<u8>, i: int, a: Seq<u8>, b: Seq<u8>)
    requires
        0 <= i,
        i + a.len() + b.len() <= s.len(),
        s.subrange(i, i + a.len() + b.len()) == a + b,
    ensures
        s.subrange(i, i + a.len() as int) == a,
        s.subrange(i + a.len() as int, i + a.len() + b.len()) == b,
{
    assert forall|k: int| 0 <= k < a.len() implies s.subrange(i, i + a.len() as int)[k] == a[k] by {
        assert(s.subrange(i, i + a.len() + b.len())[k] == (a + b)[k]);
    }
    assert(s.subrange(i, i + a.len() as int) =~= a);
    assert forall|k: int| 0 <= k < b.len() implies s.subrange(
        i + a.len() as int,
        i + a.len() + b.len(),
    )[k] == b[k] by {
        assert(s.subrange(i, i + a.len() + b.len())[a.len() + k] == (a + b)[a.len() + k]);
        assert((a + b)[a.len() + k] == b[k]);
        assert(s.subrange(i, i + a.len() + b.len())[a.len() + k] == s[i + a.len() + k]);
        assert(s.subrange(i + a.len() as int, i + a.len() + b.len())[k] == s[i + a.len() + k]);
    }
    assert(s.subrange(i + a.len() as int, i + a.len() + b.len()) =~= b);
}

/// Reads one varint off the front of a slice known to hold it, handing back
/// the rest.
proof fn peel_varint(s: Seq<u8>, i: int, v: nat, rest: Seq<u8>)
    requires
        v <= u64::MAX,
        0 <= i,
        i + varint_enc(v).len() + rest.len() <= s.len(),
        s.subrange(i, i + varint_enc(v).len() + rest.len()) == varint_enc(v) + rest,
    ensures
        varint_dec(s, i) == Some((v, i + varint_enc(v).len() as int)),
        s.subrange(i + varint_enc(v).len() as int, i + varint_enc(v).len() + rest.len()) == rest,
{
    lemma_subrange_split(s, i, varint_enc(v), rest);
    lemma_varint_roundtrip(s, i, v);
}

/// The encoded size of one feature is positive and comfortably below any
/// machine bound.
pub proof fn lemma_feature_enc_len(p: (int, int))
    requires
        in_i32(p),
    ensures
        7 <= feature_enc(p).len() <= 0x1000000000,
        1 <= geom_enc(p).len() <= 0x300000000,
{
    lemma_zigzag_roundtrip(p.0);
    lemma_zigzag_roundtrip(p.1);
    lemma_varint_enc_len(zigzag(p.0) as nat);
    lemma_varint_enc_len(zigzag(p.1) as nat);
    lemma_varint_enc_len(geom_enc(p).len() as nat);
}

/// Appending one more point to the feature run appends its frame.
pub proof fn lemma_features_enc_snoc(pts: Seq<(int, int)>, p: (int, int))
    ensures
        features_enc(pts.push(p)) == features_enc(pts) + feature_frame(p),
    decreases pts.len(),
{
    if pts.len() == 0 {
        assert(pts.push(p)[0] == p);
        assert(pts.push(p).drop_first() =~= Seq::<(int, int)>::empty());
        assert(features_enc(pts.push(p).drop_first()) =~= Seq::<u8>::empty());
        assert(features_enc(pts.push(p)) == feature_frame(p) + features_enc(
            pts.push(p).drop_first(),
        ));
        assert(features_enc(pts) =~= Seq::<u8>::empty());
        assert(features_enc(pts.push(p)) =~= features_enc(pts) + feature_frame(p));
    } else {
        assert(pts.push(p)[0] == pts[0]);
        assert(pts.push(p).drop_first() =~= pts.drop_first().push(p));
        lemma_features_enc_snoc(pts.drop_first(), p);
        assert(features_enc(pts.push(p)) == feature_frame(pts[0]) + features_enc(
            pts.drop_first().push(p),
        ));
        assert(features_enc(pts) == feature_frame(pts[0]) + features_enc(pts.drop_first()));
        assert((feature_frame(pts[0]) + features_enc(pts.drop_first())) + feature_frame(p)
            =~= feature_frame(pts[0]) + (features_enc(pts.drop_first()) + feature_frame(p)));
        assert(features_enc(pts.push(p)) =~= features_enc(pts) + feature_frame(p));
    }
}

/// Decoding reads back exactly the feature that encoding wrote.
pub proof fn lemma_feature_roundtrip(s: Seq<u8>, i: int, p: (int, int))
    requires
        in_i32(p),
        0 <= i,
        i + feature_enc(p).len() <= s.len(),
        s.subrange(i, i + feature_enc(p).len() as int) == feature_enc(p),
    ensures
        dec_feature(s, i) == Some((p, i + feature_enc(p).len() as int)),
{
    lemma_zigzag_roundtrip(p.0);
    lemma_zigzag_roundtrip(p.1);
    let zx: nat = zigzag(p.0) as nat;
    let zy: nat = zigzag(p.1) as nat;
    let g = geom_enc(p);
    let glen: nat = g.len() as nat;
    lemma_feature_enc_len(p);
    let e = feature_enc(p);
    let r1 = varint_enc(1) + varint_enc(34) + varint_enc(glen) + g;
    assert(e =~= varint_enc(24) + r1);
    assert(s.subrange(i, i + varint_enc(24).len() + r1.len()) == varint_enc(24) + r1);
    peel_varint(s, i, 24, r1);
    let i1: int = i + varint_enc(24).len() as int;
    let r2 = varint_enc(34) + varint_enc(glen) + g;
    assert(r1 =~= varint_enc(1) + r2);
    peel_varint(s, i1, 1, r2);
    let i2: int = i1 + varint_enc(1).len() as int;
    let r3 = varint_enc(glen) + g;
    assert(r2 =~= varint_enc(34) + r3);
    peel_varint(s, i2, 34, r3);
    let i3: int = i2 + varint_enc(34).len() as int;
    assert(r3 =~= varint_enc(glen) + g);
    peel_varint(s, i3, glen, g);
    let i4: int = i3 + varint_enc(glen).len() as int;
    let r4 = varint_enc(zx) + varint_enc(zy);
    assert(g =~= varint_enc(9) + r4);
    peel_varint(s, i4, 9, r4);
    let i5: int = i4 + varint_enc(9).len() as int;
    assert(r4 =~= varint_enc(zx) + varint_enc(zy));
    peel_varint(s, i5, zx, varint_enc(zy));
    let i6: int = i5 + varint_enc(zx).len() as int;
    lemma_varint_roundtrip(s, i6, zy);
    let i7: int = i6 + varint_enc(zy).len() as int;
    assert(i7 == i4 + glen);
    assert(unzigzag(zx as int) == p.0);
    assert(unzigzag(zy as int) == p.1);
    assert(i7 == i + e.len());
}

/// Decoding reads back exactly the feature run that encoding wrote,
/// provided the stream does not continue with another feature tag.
pub proof fn lemma_features_roundtrip(s: Seq<u8>, i: int, pts: Seq<(int, int)>)
    requires
        forall|k: int| 0 <= k < pts.len() ==> in_i32(#[trigger] pts[k]),
        0 <= i,
        i + features_enc(pts).len() <= s.len(),
        s.subrange(i, i + features_enc(pts).len() as int) == features_enc(pts),
        match varint_dec(s, i + features_enc(pts).len() as int) {
            Some((t, j)) => t != 18,
            None => true,
        },
    ensures
        dec_features(s, i) == Some((pts, i + features_enc(pts).len() as int)),
    decreases pts.len(),
{
    if pts.len() == 0 {
        assert(dec_features(s, i) == Some((Seq::<(int, int)>::empty(), i)));
        assert(pts =~= Seq::<(int, int)>::empty());
    } else {
        let p = pts[0];
        assert(in_i32(p));
        lemma_feature_enc_len(p);
        let fe = feature_enc(p);
        let flen: nat = fe.len() as nat;
        let tail = features_enc(pts.drop_first());
        let all = features_enc(pts);
        assert(all == feature_frame(p) + tail);
        let r1 = varint_enc(flen) + fe + tail;
        assert(all =~= varint_enc(18) + r1);
        peel_varint(s, i, 18, r1);
        let i1: int = i + varint_enc(18).len() as int;
        let r2 = fe + tail;
        assert(r1 =~= varint_enc(flen) + r2);
        peel_varint(s, i1, flen, r2);
        let i2: int = i1 + varint_enc(flen).len() as int;
        lemma_subrange_split(s, i2, fe, tail);
        lemma_feature_roundtrip(s, i2, p);
        let i3: int = i2 + fe.len() as int;
        assert(i3 == i2 + flen);
        assert forall|k: int| 0 <= k < pts.drop_first().len() implies in_i32(
            #[trigger] pts.drop_first()[k],
        ) by {
            assert(pts.drop_first()[k] == pts[k + 1]);
        }
        lemma_features_roundtrip(s, i3, pts.drop_first());
        assert(seq![p] + pts.drop_first() =~= pts);
        assert(i3 + tail.len() == i + all.len());
    }
}

/// Decoding reads back exactly the layer that encoding wrote.
pub proof fn lemma_layer_roundtrip(s: Seq<u8>, i: int, name: Seq<u8>, extent: nat, pts: Seq<
    (int, int),
>)
    requires
        forall|k: int| 0 <= k < pts.len() ==> in_i32(#[trigger] pts[k]),
        name.len() <= u64::MAX,
        extent <= u64::MAX,
        0 <= i,
        i + layer_enc(name, extent, pts).len() <= s.len(),
        s.subrange(i, i + layer_enc(name, extent, pts).len() as int) == layer_enc(
            name,
            extent,
            pts,
        ),
    ensures
        dec_layer(s, i) == Some(
            ((name, extent, pts), i + layer_enc(name, extent, pts).len() as int),
        ),
{
    let nlen: nat = name.len() as nat;
    let fts = features_enc(pts);
    let all = layer_enc(name, extent, pts);
    let r1 = varint_enc(nlen) + name + fts + varint_enc(40) + varint_enc(extent) + varint_enc(120)
        + varint_enc(2);
    assert(all =~= varint_enc(10) + r1);
    peel_varint(s, i, 10, r1);
    let i1: int = i + varint_enc(10).len() as int;
    let r2 = name + fts + varint_enc(40) + varint_enc(extent) + varint_enc(120) + varint_enc(2);
    assert(r1 =~= varint_enc(nlen) + r2);
    peel_varint(s, i1, nlen, r2);
    let i2: int = i1 + varint_enc(nlen).len() as int;
    let r3 = fts + varint_enc(40) + varint_enc(extent) + varint_enc(120) + varint_enc(2);
    assert(r2 =~= name + r3);
    lemma_subrange_split(s, i2, name, r3);
    let iN: int = i2 + name.len() as int;
    assert(s.subrange(i2, i2 + nlen) == name);
    let r4 = varint_enc(40) + varint_enc(extent) + varint_enc(120) + varint_enc(2);
    assert(r3 =~= fts + r4);
    lemma_subrange_split(s, iN, fts, r4);
    let i3: int = iN + fts.len() as int;
    let r5 = varint_enc(extent) + varint_enc(120) + varint_enc(2);
    assert(r4 =~= varint_enc(40) + r5);
    peel_varint(s, i3, 40, r5);
    let i4: int = i3 + varint_enc(40).len() as int;
    let r6 = varint_enc(120) + varint_enc(2);
    assert(r5 =~= varint_enc(extent) + r6);
    peel_varint(s, i4, extent, r6);
    let i5: int = i4 + varint_enc(extent).len() as int;
    assert(r6 =~= varint_enc(120) + varint_enc(2));
    peel_varint(s, i5, 120, varint_enc(2));
    let i6: int = i5 + varint_enc(120).len() as int;
    lemma_varint_roundtrip(s, i6, 2);
    let i7: int = i6 + varint_enc(2).len() as int;
    // the feature run ends right before the extent tag
    lemma_features_roundtrip(s, iN, pts);
    assert(i7 == i + all.len());
}

/// Round trip for a whole tile: decoding an encoded tile gives back the
/// layer name, the extent, and exactly the encoded coordinates.
pub proof fn lemma_tile_roundtrip(name: Seq<u8>, extent: nat, pts: Seq<(int, int)>)
    requires
        forall|k: int| 0 <= k < pts.len() ==> in_i32(#[trigger] pts[k]),
        name.len() <= u64::MAX,
        extent <= u64::MAX,
        layer_enc(name, extent, pts).len() <= u64::MAX,
    ensures
        dec_tile(tile_enc(name, extent, pts)) == Some((name, extent, pts)),
{
    let s = tile_enc(name, extent, pts);
    let lay = layer_enc(name, extent, pts);
    let llen: nat = lay.len() as nat;
    let r1 = varint_enc(llen) + lay;
    assert(s =~= varint_enc(26) + r1);
    assert(s.subrange(0, s.len() as int) =~= s);
    peel_varint(s, 0, 26, r1);
    let i1: int = varint_enc(26).len() as int;
    assert(r1 =~= varint_enc(llen) + lay);
    peel_varint(s, i1, llen, lay);
    let i2: int = i1 + varint_enc(llen).len() as int;
    lemma_layer_roundtrip(s, i2, name, extent, pts);
    assert(i2 + lay.len() == s.len());
}

/// Encoding no points at all still yields a well-formed tile: it decodes,
/// and what it decodes to has zero features.
pub proof fn lemma_empty_tile_roundtrip(name: Seq<u8>, extent: nat)
    requires
        name.len() <= u64::MAX,
        extent <= u64::MAX,
        layer_enc(name, extent, Seq::empty()).len() <= u64::MAX,
    ensures
        dec_tile(tile_enc(name, extent, Seq::empty())) == Some(
            (name, extent, Seq::<(int, int)>::empty()),
        ),
{
    lemma_tile_roundtrip(name, extent, Seq::empty());
}

/// Appends a copy of `src` to `out`.
fn append_bytes(out: &mut Vec<u8>, src: &Vec<u8>)
    ensures
        final(out)@ == old(out)@ + src@,
{
    let mut j: usize = 0;
    proof {
        assert(out@ =~= old(out)@ + src@.take(0));
    }
    while j < src.len()
        invariant
            0 <= j <= src@.len(),
            out@ == old(out)@ + src@.take(j as int),
        decreases src@.len() - j,
    {
        let ghost before = out@;
        out.push(src[j]);
        proof {
            assert(src@.take(j as int + 1) =~= src@.take(j as int).push(src@[j as int]));
            assert(out@ =~= old(out)@ + src@.take(j as int + 1));
        }
        j += 1;
    }
    proof {
        assert(src@.take(src@.len() as int) =~= src@);
    }
}

/// Appends one feature frame for the projected point `p`.
fn write_feature(out: &mut Vec<u8>, p: (i32, i32))
    ensures
        final(out)@ == old(out)@ + feature_frame((p.0 as int, p.1 as int)),
{
    let ghost pm = (p.0 as int, p.1 as int);
    let mut g: Vec<u8> = Vec::new();
    crate::varint::write_varint(&mut g, 9);
    let zx: u32 = crate::varint::zigzag_encode(p.0);
    crate::varint::write_varint(&mut g, zx as u64);
    let zy: u32 = crate::varint::zigzag_encode(p.1);
    crate::varint::write_varint(&mut g, zy as u64);
    proof {
        assert(g@ =~= geom_enc(pm));
    }
    let mut f: Vec<u8> = Vec::new();
    crate::varint::write_varint(&mut f, 24);
    crate::varint::write_varint(&mut f, 1);
    crate::varint::write_varint(&mut f, 34);
    crate::varint::write_varint(&mut f, g.len() as u64);
    f.append(&mut g);
    proof {
        assert(f@ =~= feature_enc(pm));
    }
    crate::varint::write_varint(out, 18);
    crate::varint::write_varint(out, f.len() as u64);
    out.append(&mut f);
    proof {
        assert(out@ =~= old(out)@ + feature_frame(pm));
    }
}

/// Serializes one layer of point features into a tile, exactly as the
/// model `tile_enc` describes.
pub fn encode_tile(name: &Vec<u8>, extent: u32, pts: &Vec<(i32, i32)>) -> (r: Vec<u8>)
    ensures
        r@ == tile_enc(name@, extent as nat, pts_model(pts@)),
{
    let mut fb: Vec<u8> = Vec::new();
    let mut i: usize = 0;
    proof {
        assert(pts_model(pts@.take(0)) =~= Seq::<(int, int)>::empty());
    }
    while i < pts.len()
        invariant
            0 <= i <= pts@.len(),
            fb@ == features_enc(pts_model(pts@.take(i as int))),
        decreases pts@.len() - i,
    {
        let p: (i32, i32) = pts[i];
        write_feature(&mut fb, p);
        proof {
            assert(pts_model(pts@.take(i as int + 1)) =~= pts_model(pts@.take(i as int)).push(
                (p.0 as int, p.1 as int),
            ));
            lemma_features_enc_snoc(pts_model(pts@.take(i as int)), (p.0 as int, p.1 as int));
        }
        i += 1;
    }
    proof {
        assert(pts@.take(pts@.len() as int) =~= pts@);
    }
    let mut lb: Vec<u8> = Vec::new();
    crate::varint::write_varint(&mut lb, 10);
    crate::varint::write_varint(&mut lb, name.len() as u64);
    append_bytes(&mut lb, name);
    lb.append(&mut fb);
    crate::varint::write_varint(&mut lb, 40);
    crate::varint::write_varint(&mut lb, extent as u64);
    crate::varint::write_varint(&mut lb, 120);
    crate::varint::write_varint(&mut lb, 2);
    proof {
        assert(lb@ =~= layer_enc(name@, extent as nat, pts_model(pts@)));
    }
    let mut tb: Vec<u8> = Vec::new();
    crate::varint::write_varint(&mut tb, 26);
    crate::varint::write_varint(&mut tb, lb.len() as u64);
    tb.append(&mut lb);
    proof {
        assert(tb@ =~= tile_enc(name@, extent as nat, pts_model(pts@)));
    }
    tb
}

/// A decoded feature ends after its first byte and inside the stream.
pub proof fn lemma_dec_feature_bounds(s: Seq<u8>, i: int)
    ensures
        dec_feature(s, i) matches Some((pt, j)) ==> i < j <= s.len(),
{
    lemma_varint_dec_bounds(s, i);
    match varint_dec(s, i) {
        None => {},
        Some((t1, i1)) => {
            lemma_varint_dec_bounds(s, i1);
            match varint_dec(s, i1) {
                None => {},
                Some((ty, i2)) => {
                    lemma_varint_dec_bounds(s, i2);
                    match varint_dec(s, i2) {
                        None => {},
                        Some((t2, i3)) => {
                            lemma_varint_dec_bounds(s, i3);
                            match varint_dec(s, i3) {
                                None => {},
                                Some((glen, i4)) => {
                                    lemma_varint_dec_bounds(s, i4);
                                    match varint_dec(s, i4) {
                                        None => {},
                                        Some((cmd, i5)) => {
                                            lemma_varint_dec_bounds(s, i5);
                                            match varint_dec(s, i5) {
                                                None => {},
                                                Some((zx, i6)) => {
                                                    lemma_varint_dec_bounds(s, i6);
                                                },
                                            }
                                        },
                                    }
                                },
                            }
                        },
                    }
                },
            }
        },
    }
}

/// Reads one feature message, exactly as the model `dec_feature` describes.
pub fn read_feature(s: &Vec<u8>, i: usize) -> (r: Option<((i32, i32), usize)>)
    ensures
        match dec_feature(s@, i as int) {
            Some((pt, j)) => r matches Some((q, jj)) && q.0 as int == pt.0 && q.1 as int == pt.1
                && jj as int == j,
            None => r is None,
        },
{
    let _slen: usize = s.len();
    proof {
        assert(s@.len() == _slen as nat);
        lemma_varint_dec_bounds(s@, i as int);
    }
    let (t1, i1) = match crate::varint::read_varint(s, i) {
        None => return None,
        Some(v) => v,
    };
    if t1 != 24 {
        return None;
    }
    proof {
        lemma_varint_dec_bounds(s@, i1 as int);
    }
    let (ty, i2) = match crate::varint::read_varint(s, i1) {
        None => return None,
        Some(v) => v,
    };
    if ty != 1 {
        return None;
    }
    proof {
        lemma_varint_dec_bounds(s@, i2 as int);
    }
    let (t2, i3) = match crate::varint::read_varint(s, i2) {
        None => return None,
        Some(v) => v,
    };
    if t2 != 34 {
        return None;
    }
    proof {
        lemma_varint_dec_bounds(s@, i3 as int);
    }
    let (glen, i4) = match crate::varint::read_varint(s, i3) {
        None => return None,
        Some(v) => v,
    };
    proof {
        lemma_varint_dec_bounds(s@, i4 as int);
    }
    let (cmd, i5) = match crate::varint::read_varint(s, i4) {
        None => return None,
        Some(v) => v,
    };
    if cmd != 9 {
        return None;
    }
    proof {
        lemma_varint_dec_bounds(s@, i5 as int);
    }
    let (zx, i6) = match crate::varint::read_varint(s, i5) {
        None => return None,
        Some(v) => v,
    };
    proof {
        lemma_varint_dec_bounds(s@, i6 as int);
    }
    let (zy, i7) = match crate::varint::read_varint(s, i6) {
        None => return None,
        Some(v) => v,
    };
    if !(i7 >= i4 && (i7 - i4) as u64 == glen) {
        return None;
    }
    if zx > 0xFFFFFFFF || zy > 0xFFFFFFFF {
        return None;
    }
    let x: i32 = crate::varint::zigzag_decode(zx as u32);
    let y: i32 = crate::varint::zigzag_decode(zy as u32);
    Some(((x, y), i7))
}

/// Reads the feature run, exactly as the model `dec_features` describes.
pub fn read_features(s: &Vec<u8>, i: usize) -> (r: Option<(Vec<(i32, i32)>, usize)>)
    ensures
        match dec_features(s@, i as int) {
            Some((pts, j)) => r matches Some((v, jj)) && pts_model(v@) == pts && jj as int == j,
            None => r is None,
        },
    decreases s@.len() - i,
{
    if i > s.len() {
        return None;
    }
    proof {
        lemma_varint_dec_bounds(s@, i as int);
    }
    match crate::varint::read_varint(s, i) {
        None => {
            let v: Vec<(i32, i32)> = Vec::new();
            proof {
                assert(pts_model(v@) =~= Seq::<(int, int)>::empty());
            }
            Some((v, i))
        },
        Some((tag, i1)) => {
            if tag != 18 {
                let v: Vec<(i32, i32)> = Vec::new();
                proof {
                    assert(pts_model(v@) =~= Seq::<(int, int)>::empty());
                }
                return Some((v, i));
            }
            proof {
                lemma_varint_dec_bounds(s@, i1 as int);
            }
            match crate::varint::read_varint(s, i1) {
                None => None,
                Some((flen, i2)) => match read_feature(s, i2) {
                    None => None,
                    Some((pt, i3)) => {
                        proof {
                            lemma_dec_feature_bounds(s@, i2 as int);
                        }
                        if !(i3 >= i2 && (i3 - i2) as u64 == flen) {
                            None
                        } else if !(i < i3 && i3 <= s.len()) {
                            None
                        } else {
                            match read_features(s, i3) {
                                None => None,
                                Some((rest, j)) => {
                                    let ghost restview = rest@;
                                    let mut v: Vec<(i32, i32)> = rest;
                                    v.insert(0, pt);
                                    proof {
                                        assert(pts_model(v@) =~= seq![
                                            (pt.0 as int, pt.1 as int),
                                        ] + pts_model(restview));
                                    }
                                    Some((v, j))
                                },
                            }
                        }
                    },
                },
            }
        },
    }
}

/// Reads one layer message, exactly as the model `dec_layer` describes.
pub fn read_layer(s: &Vec<u8>, i: usize) -> (r: Option<((Vec<u8>, u64, Vec<(i32, i32)>), usize)>)
    ensures
        match dec_layer(s@, i as int) {
            Some(((name, extent, pts), j)) => r matches Some((t, jj)) && t.0@ == name && t.1 as nat
                == extent && pts_model(t.2@) == pts && jj as int == j,
            None => r is None,
        },
{
    let _slen: usize = s.len();
    proof {
        assert(s@.len() == _slen as nat);
        lemma_varint_dec_bounds(s@, i as int);
    }
    let (t1, i1) = match crate::varint::read_varint(s, i) {
        None => return None,
        Some(v) => v,
    };
    if t1 != 10 {
        return None;
    }
    proof {
        lemma_varint_dec_bounds(s@, i1 as int);
    }
    let (nlen, i2) = match crate::varint::read_varint(s, i1) {
        None => return None,
        Some(v) => v,
    };
    if nlen > (s.len() - i2) as u64 {
        return None;
    }
    let end: usize = i2 + nlen as usize;
    let mut nm: Vec<u8> = Vec::new();
    let mut j: usize = i2;
    proof {
        assert(nm@ =~= s@.subrange(i2 as int, i2 as int));
    }
    while j < end
        invariant
            i2 <= j <= end <= s@.len(),
            nm@ == s@.subrange(i2 as int, j as int),
        decreases end - j,
    {
        nm.push(s[j]);
        proof {
            assert(s@.subrange(i2 as int, j as int + 1) =~= s@.subrange(i2 as int, j as int).push(
                s@[j as int],
            ));
        }
        j += 1;
    }
    let (pts, i3) = match read_features(s, end) {
        None => return None,
        Some(v) => v,
    };
    proof {
        lemma_varint_dec_bounds(s@, i3 as int);
    }
    let (t2, i4) = match crate::varint::read_varint(s, i3) {
        None => return None,
        Some(v) => v,
    };
    if t2 != 40 {
        return None;
    }
    proof {
        lemma_varint_dec_bounds(s@, i4 as int);
    }
    let (extent, i5) = match crate::varint::read_varint(s, i4) {
        None => return None,
        Some(v) => v,
    };
    proof {
        lemma_varint_dec_bounds(s@, i5 as int);
    }
    let (t3, i6) = match crate::varint::read_varint(s, i5) {
        None => return None,
        Some(v) => v,
    };
    if t3 != 120 {
        return None;
    }
    proof {
        lemma_varint_dec_bounds(s@, i6 as int);
    }
    let (ver, i7) = match crate::varint::read_varint(s, i6) {
        None => return None,
        Some(v) => v,
    };
    if ver != 2 {
        return None;
    }
    Some(((nm, extent, pts), i7))
}

/// Parses a tile back into its layer name, extent and coordinates, exactly
/// as the model `dec_tile` describes; an empty or malformed payload gives
/// `None`.
pub fn decode_tile(s: &Vec<u8>) -> (r: Option<(Vec<u8>, u64, Vec<(i32, i32)>)>)
    ensures
        match dec_tile(s@) {
            Some((name, extent, pts)) => r matches Some(t) && t.0@ == name && t.1 as nat == extent
                && pts_model(t.2@) == pts,
            None => r is None,
        },
{
    let _slen: usize = s.len();
    proof {
        assert(s@.len() == _slen as nat);
        lemma_varint_dec_bounds(s@, 0);
    }
    let (t, i1) = match crate::varint::read_varint(s, 0) {
        None => return None,
        Some(v) => v,
    };
    if t != 26 {
        return None;
    }
    proof {
        lemma_varint_dec_bounds(s@, i1 as int);
    }
    let (llen, i2) = match crate::varint::read_varint(s, i1) {
        None => return None,
        Some(v) => v,
    };
    let (layer, j) = match read_layer(s, i2) {
        None => return None,
        Some(v) => v,
    };
    if j >= i2 && (j - i2) as u64 == llen && j == s.len() {
        Some(layer)
    } else {
        None
    }
}

} // verus!
