//! The laws of the cipher: encryption and decryption are inverse on
//! well-formed plaintext, decryption refuses odd-length ciphertext,
//! and encryption sees only the normalized letter stream.
use vstd::prelude::*;

use crate::lemmas::{
    lemma_grid, lemma_grid_converse, lemma_key_square_valid, lemma_normalize_identity,
};
use crate::model::{
    decrypt_spec, encrypt_spec, is_square_letter, key_square, normalize, pad_stream,
    pair_positions, transform,
};

verus! {

/// A stream whose pairs already hold two distinct letters, and whose
/// length is even, needs no padding.
proof fn lemma_pad_stream_identity(s: Seq<char>, pad: char)
    requires
        s.len() % 2 == 0,
        forall|i: int| 0 <= i < s.len() && i % 2 == 0 ==> #[trigger] s[i] != s[i + 1],
    ensures
        pad_stream(s, pad) == s,
    decreases s.len(),
{
    if s.len() > 0 {
        assert(s[0] != s[1]);
        assert forall|i: int|
            0 <= i < s.skip(2).len() && i % 2 == 0 implies #[trigger] s.skip(2)[i] != s.skip(2)[i
            + 1] by {
            assert(s[i + 2] != s[i + 3]);
        }
        lemma_pad_stream_identity(s.skip(2), pad);
        assert(pad_stream(s, pad) == seq![s[0], s[1]] + s.skip(2));
        assert(seq![s[0], s[1]] + s.skip(2) =~= s);
    }
}

/// Both output positions of the pair rule lie on the grid.
proof fn lemma_pair_positions_bounds(pa: int, pb: int, d: int)
    requires
        0 <= pa < 25,
        0 <= pb < 25,
        1 <= d < 5,
    ensures
        0 <= pair_positions(pa, pb, d).0 < 25,
        0 <= pair_positions(pa, pb, d).1 < 25,
{
    broadcast use vstd::arithmetic::div_mod::lemma_mod_bound;

    lemma_grid(pa);
    lemma_grid(pb);
}

/// One digram through the rule with shift 1, then with shift 4, comes
/// back to where it began.
proof fn lemma_pair_positions_inverse(pa: int, pb: int)
    requires
        0 <= pa < 25,
        0 <= pb < 25,
    ensures
        pair_positions(pair_positions(pa, pb, 1).0, pair_positions(pa, pb, 1).1, 4) == (pa, pb),
{
    broadcast use vstd::arithmetic::div_mod::lemma_mod_bound;

    lemma_grid(pa);
    lemma_grid(pb);
    let y1 = pa / 5;
    let x1 = pa % 5;
    let y2 = pb / 5;
    let x2 = pb % 5;
    if y1 != y2 && x1 != x2 {
        lemma_grid_converse(y1, x2);
        lemma_grid_converse(y2, x1);
        lemma_grid_converse(y1, x1);
        lemma_grid_converse(y2, x2);
    } else if y1 == y2 {
        lemma_grid_converse(y1, (x1 + 1) % 5);
        lemma_grid_converse(y2, (x2 + 1) % 5);
        assert(((x1 + 1) % 5 + 4) % 5 == x1);
        assert(((x2 + 1) % 5 + 4) % 5 == x2);
        lemma_grid_converse(y1, x1);
        lemma_grid_converse(y2, x2);
    } else {
        lemma_grid_converse((y1 + 1) % 5, x1);
        lemma_grid_converse((y2 + 1) % 5, x2);
        assert(((y1 + 1) % 5 + 4) % 5 == y1);
        assert(((y2 + 1) % 5 + 4) % 5 == y2);
        assert((y1 + 1) % 5 == (y2 + 1) % 5 ==> y1 == y2);
        lemma_grid_converse(y1, x1);
        lemma_grid_converse(y2, x2);
    }
}

/// In a duplicate-free square, the one index holding `c` is what
/// `index_of` names.
proof fn lemma_index_of_at(key: Seq<char>, p: int)
    requires
        key.no_duplicates(),
        0 <= p < key.len(),
    ensures
        key.index_of(key[p]) == p,
{
    assert(key.contains(key[p]));
    let q = key.index_of(key[p]);
    assert(0 <= q < key.len() && key[q] == key[p]);
}

/// The transform of an even stream of square letters keeps the
/// length, and yields square letters again.
proof fn lemma_transform_props(key: Seq<char>, s: Seq<char>, d: int)
    requires
        key.len() == 25,
        key.no_duplicates(),
        s.len() % 2 == 0,
        1 <= d < 5,
        forall|i: int| 0 <= i < s.len() ==> key.contains(#[trigger] s[i]),
    ensures
        transform(key, s, d).len() == s.len(),
        forall|i: int| 0 <= i < s.len() ==> key.contains(#[trigger] transform(key, s, d)[i]),
    decreases s.len(),
{
    if s.len() > 0 {
        let pa = key.index_of(s[0]);
        let pb = key.index_of(s[1]);
        assert(key.contains(s[0]) && key.contains(s[1]));
        assert(0 <= pa < 25 && key[pa] == s[0]);
        assert(0 <= pb < 25 && key[pb] == s[1]);
        lemma_pair_positions_bounds(pa, pb, d);
        let q = pair_positions(pa, pb, d);
        assert forall|i: int| 0 <= i < s.skip(2).len() implies key.contains(
            #[trigger] s.skip(2)[i],
        ) by {
            assert(s.skip(2)[i] == s[i + 2]);
        }
        lemma_transform_props(key, s.skip(2), d);
        let t = transform(key, s, d);
        assert(t == seq![key[q.0], key[q.1]] + transform(key, s.skip(2), d));
        assert forall|i: int| 0 <= i < s.len() implies key.contains(#[trigger] t[i]) by {
            if i == 0 {
                assert(key.contains(key[q.0]));
            } else if i == 1 {
                assert(key.contains(key[q.1]));
            } else {
                assert(t[i] == transform(key, s.skip(2), d)[i - 2]);
            }
        }
    }
}

/// Transforming with shift 1 and then with shift 4 gives the stream
/// back.
#[verifier::rlimit(50)]
proof fn lemma_transform_inverse(key: Seq<char>, s: Seq<char>)
    requires
        key.len() == 25,
        key.no_duplicates(),
        s.len() % 2 == 0,
        forall|i: int| 0 <= i < s.len() ==> key.contains(#[trigger] s[i]),
    ensures
        transform(key, transform(key, s, 1), 4) == s,
    decreases s.len(),
{
    if s.len() == 0 {
        assert(transform(key, transform(key, s, 1), 4) =~= s);
    } else {
        let pa = key.index_of(s[0]);
        let pb = key.index_of(s[1]);
        assert(key.contains(s[0]) && key.contains(s[1]));
        assert(0 <= pa < 25 && key[pa] == s[0]);
        assert(0 <= pb < 25 && key[pb] == s[1]);
        lemma_pair_positions_bounds(pa, pb, 1);
        lemma_pair_positions_inverse(pa, pb);
        let q = pair_positions(pa, pb, 1);
        let t = transform(key, s, 1);
        assert(t == seq![key[q.0], key[q.1]] + transform(key, s.skip(2), 1));
        assert forall|i: int| 0 <= i < s.skip(2).len() implies key.contains(
            #[trigger] s.skip(2)[i],
        ) by {
            assert(s.skip(2)[i] == s[i + 2]);
        }
        lemma_transform_props(key, s.skip(2), 1);
        lemma_transform_inverse(key, s.skip(2));
        assert(t.len() == 2 + transform(key, s.skip(2), 1).len());
        assert(t[0] == key[q.0] && t[1] == key[q.1]);
        lemma_index_of_at(key, q.0);
        lemma_index_of_at(key, q.1);
        assert(t.skip(2) =~= transform(key, s.skip(2), 1));
        assert(pair_positions(q.0, q.1, 4) == (pa, pb));
        assert(transform(key, t, 4) == seq![key[pa], key[pb]] + transform(key, t.skip(2), 4));
        assert(seq![key[pa], key[pb]] + s.skip(2) =~= s);
    }
}

/// Round trip: encrypting an even-length stream of square letters
/// with no pair of equal adjacent letters, then decrypting with the
/// same keyword, gives the plaintext back, whatever the pad letter.
pub proof fn lemma_round_trip(kw: Seq<char>, pt: Seq<char>, pad: char)
    requires
        pt.len() % 2 == 0,
        forall|i: int| 0 <= i < pt.len() ==> is_square_letter(#[trigger] pt[i]),
        forall|i: int| 0 <= i < pt.len() && i % 2 == 0 ==> #[trigger] pt[i] != pt[i + 1],
    ensures
        encrypt_spec(kw, pt, pad) is Some,
        decrypt_spec(kw, encrypt_spec(kw, pt, pad)->0) == Some(pt),
{
    let ks = key_square(kw);
    lemma_key_square_valid(kw);
    lemma_normalize_identity(pt, true);
    lemma_pad_stream_identity(pt, pad);
    assert(pad_stream(normalize(pt, true), pad) == pt);
    assert forall|i: int| 0 <= i < pt.len() implies ks.contains(#[trigger] pt[i]) by {
        assert(is_square_letter(pt[i]));
    }
    let ct = transform(ks, pt, 1);
    lemma_transform_props(ks, pt, 1);
    assert forall|i: int| 0 <= i < ct.len() implies is_square_letter(#[trigger] ct[i]) by {
        assert(ks.contains(ct[i]));
    }
    assert(encrypt_spec(kw, pt, pad) == Some(ct));
    lemma_normalize_identity(ct, false);
    lemma_transform_inverse(ks, pt);
    assert(decrypt_spec(kw, ct) == Some(pt));
}

/// Decryption fails on any ciphertext whose normalized letter stream
/// has odd length, whatever the keyword.
pub proof fn lemma_decrypt_odd_fails(kw: Seq<char>, ct: Seq<char>)
    requires
        normalize(ct, false).len() % 2 == 1,
    ensures
        decrypt_spec(kw, ct) is None,
{
}

/// Encryption sees only the normalized letter stream: two messages
/// with the same stream of letters encrypt alike, whatever their
/// case, punctuation or spacing.
pub proof fn lemma_encrypt_sees_letters(kw: Seq<char>, pt1: Seq<char>, pt2: Seq<char>, pad: char)
    requires
        normalize(pt1, true) == normalize(pt2, true),
    ensures
        encrypt_spec(kw, pt1, pad) == encrypt_spec(kw, pt2, pad),
{
}

} // verus!
