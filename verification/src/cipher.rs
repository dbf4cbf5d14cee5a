//! The two entry points of the cipher, and the passes they share:
//! padding the letter stream into digrams and transforming the digrams
//! by their positions in the key square.
use vstd::prelude::*;

use crate::lemmas::{lemma_grid, lemma_pad_stream_even};
use crate::model::{
    all_square_letters, decrypt_spec, encrypt_spec, is_square_letter, normalize, pad_stream,
    pair_positions, transform,
};
use crate::square::generate_key;
use crate::text::normalize_text;

verus! {

/// Relies on String's FromIterator over char: collecting characters
/// yields the string of exactly those characters, in order.
#[verifier::external_body]
fn chars_to_string(v: &Vec<char>) -> (r: String)
    ensures
        r@ == v@,
{
    v.iter().collect()
}

/// Where `c` first stands in the key square, or `None` when the square
/// does not hold it.
fn find_pos(key: &Vec<char>, c: char) -> (r: Option<usize>)
    ensures
        match r {
            Some(p) => p < key@.len() && key@[p as int] == c,
            None => !key@.contains(c),
        },
{
    let mut i: usize = 0;
    while i < key.len()
        invariant
            i <= key@.len(),
            forall|j: int| 0 <= j < i ==> key@[j] != c,
        decreases key@.len() - i,
    {
        if key[i] == c {
            return Some(i);
        }
        i = i + 1;
    }
    None
}

/// In a duplicate-free square, the one index holding `c` is what
/// `index_of` names.
proof fn lemma_index_of_unique(key: Seq<char>, c: char, p: int)
    requires
        key.no_duplicates(),
        0 <= p < key.len(),
        key[p] == c,
    ensures
        key.index_of(c) == p,
{
    assert(key.contains(c));
    let q = key.index_of(c);
    assert(0 <= q < key.len() && key[q] == c);
}

/// Splits pairs of equal letters and completes a final odd letter with
/// the pad letter, so that the stream pairs up evenly.
fn pad_digrams(v: &Vec<char>, pad: char) -> (out: Vec<char>)
    ensures
        out@ == pad_stream(v@, pad),
{
    let mut out: Vec<char> = Vec::new();
    let mut i: usize = 0;
    proof {
        assert(v@.skip(0) =~= v@);
        assert(out@ + pad_stream(v@, pad) =~= pad_stream(v@, pad));
    }
    while i < v.len()
        invariant
            i <= v@.len(),
            pad_stream(v@, pad) == out@ + pad_stream(v@.skip(i as int), pad),
        decreases v@.len() - i,
    {
        let ghost r = v@.skip(i as int);
        if i + 1 < v.len() && v[i] == v[i + 1] {
            proof {
                assert(r[0] == v@[i as int] && r[1] == v@[i + 1]);
                assert(r.drop_first() =~= v@.skip(i + 1));
                assert(pad_stream(r, pad) == seq![r[0], pad] + pad_stream(v@.skip(i + 1), pad));
                assert(out@ + pad_stream(r, pad) =~= (out@ + seq![r[0], pad]) + pad_stream(
                    v@.skip(i + 1),
                    pad,
                ));
                assert(out@.push(v@[i as int]).push(pad) =~= out@ + seq![r[0], pad]);
            }
            out.push(v[i]);
            out.push(pad);
            i = i + 1;
        } else if i + 1 < v.len() {
            proof {
                assert(r[0] == v@[i as int] && r[1] == v@[i + 1]);
                assert(r.skip(2) =~= v@.skip(i + 2));
                assert(pad_stream(r, pad) == seq![r[0], r[1]] + pad_stream(v@.skip(i + 2), pad));
                assert(out@ + pad_stream(r, pad) =~= (out@ + seq![r[0], r[1]]) + pad_stream(
                    v@.skip(i + 2),
                    pad,
                ));
                assert(out@.push(v@[i as int]).push(v@[i + 1]) =~= out@ + seq![r[0], r[1]]);
            }
            out.push(v[i]);
            out.push(v[i + 1]);
            i = i + 2;
        } else {
            proof {
                assert(r.len() == 1);
                assert(r[0] == v@[i as int]);
                assert(pad_stream(r, pad) == seq![r[0], pad]);
                assert(out@.push(v@[i as int]).push(pad) =~= out@ + seq![r[0], pad]);
            }
            out.push(v[i]);
            out.push(pad);
            i = i + 1;
        }
    }
    proof {
        assert(v@.skip(v@.len() as int) =~= Seq::empty());
        assert(out@ + pad_stream(Seq::empty(), pad) =~= out@);
    }
    out
}

/// The positional rule on one digram, as positions in the square:
/// swap columns across a rectangle, or shift along a shared row or
/// column by `d`.
fn cipher_pair(p1: usize, p2: usize, d: usize) -> (q: (usize, usize))
    requires
        p1 < 25,
        p2 < 25,
        1 <= d < 5,
    ensures
        q.0 < 25,
        q.1 < 25,
        q.0 as int == pair_positions(p1 as int, p2 as int, d as int).0,
        q.1 as int == pair_positions(p1 as int, p2 as int, d as int).1,
{
    proof {
        lemma_grid(p1 as int);
        lemma_grid(p2 as int);
        broadcast use vstd::arithmetic::div_mod::lemma_mod_bound;

    }
    let y1 = p1 / 5;
    let x1 = p1 % 5;
    let y2 = p2 / 5;
    let x2 = p2 % 5;
    if y1 != y2 && x1 != x2 {
        (y1 * 5 + x2, y2 * 5 + x1)
    } else if y1 == y2 {
        (y1 * 5 + (x1 + d) % 5, y2 * 5 + (x2 + d) % 5)
    } else {
        (((y1 + d) % 5) * 5 + x1, ((y2 + d) % 5) * 5 + x2)
    }
}

/// Transforms an even-length stream two letters at a time by the
/// positional rule with shift `d`, or reports the first letter that
/// the key square does not hold.
#[verifier::rlimit(50)]
fn transform_pairs(key: &Vec<char>, m: &Vec<char>, d: usize) -> (r: Option<Vec<char>>)
    requires
        key@.len() == 25,
        key@.no_duplicates(),
        m@.len() % 2 == 0,
        1 <= d < 5,
    ensures
        match r {
            Some(out) => out@ == transform(key@, m@, d as int) && forall|i: int|
                0 <= i < m@.len() ==> key@.contains(#[trigger] m@[i]),
            None => exists|i: int| 0 <= i < m@.len() && !key@.contains(#[trigger] m@[i]),
        },
{
    let mut out: Vec<char> = Vec::new();
    let mut i: usize = 0;
    proof {
        assert(m@.skip(0) =~= m@);
        assert(out@ + transform(key@, m@, d as int) =~= transform(key@, m@, d as int));
    }
    while i < m.len()
        invariant
            key@.len() == 25,
            key@.no_duplicates(),
            m@.len() % 2 == 0,
            1 <= d < 5,
            i % 2 == 0,
            i <= m@.len(),
            transform(key@, m@, d as int) == out@ + transform(key@, m@.skip(i as int), d as int),
            forall|j: int| 0 <= j < i ==> key@.contains(#[trigger] m@[j]),
        decreases m@.len() - i,
    {
        let a = m[i];
        let b = m[i + 1];
        let p1 = match find_pos(key, a) {
            Some(p) => p,
            None => {
                return None;
            },
        };
        let p2 = match find_pos(key, b) {
            Some(p) => p,
            None => {
                return None;
            },
        };
        let (qa, qb) = cipher_pair(p1, p2, d);
        proof {
            let r = m@.skip(i as int);
            lemma_index_of_unique(key@, a, p1 as int);
            lemma_index_of_unique(key@, b, p2 as int);
            assert(r[0] == a && r[1] == b);
            assert(r.skip(2) =~= m@.skip(i + 2));
            assert(transform(key@, r, d as int) == seq![key@[qa as int], key@[qb as int]]
                + transform(key@, m@.skip(i + 2), d as int));
            assert(out@ + transform(key@, r, d as int) =~= (out@ + seq![
                key@[qa as int],
                key@[qb as int],
            ]) + transform(key@, m@.skip(i + 2), d as int));
            assert(out@.push(key@[qa as int]).push(key@[qb as int]) =~= out@ + seq![
                key@[qa as int],
                key@[qb as int],
            ]);
        }
        out.push(key[qa]);
        out.push(key[qb]);
        i = i + 2;
    }
    proof {
        assert(m@.skip(m@.len() as int) =~= Seq::empty());
        assert(out@ + transform(key@, Seq::empty(), d as int) =~= out@);
    }
    Some(out)
}

/// Enciphers `plaintext` with the key square of `keyword`, padding
/// digrams with `pad`. Returns `None` exactly when a letter of the
/// padded stream is missing from the key square, which only an unfit
/// pad letter can bring about.
pub fn encrypt(keyword: &str, plaintext: &str, pad: char) -> (r: Option<String>)
    ensures
        match r {
            Some(ct) => encrypt_spec(keyword@, plaintext@, pad) == Some(ct@),
            None => encrypt_spec(keyword@, plaintext@, pad) is None,
        },
{
    let key = generate_key(keyword);
    let norm = normalize_text(plaintext, true);
    let padded = pad_digrams(&norm, pad);
    proof {
        lemma_pad_stream_even(norm@, pad);
    }
    let ghost mspec = pad_stream(normalize(plaintext@, true), pad);
    match transform_pairs(&key, &padded, 1) {
        Some(out) => {
            proof {
                assert forall|i: int| 0 <= i < mspec.len() implies is_square_letter(
                    #[trigger] mspec[i],
                ) by {
                    assert(key@.contains(mspec[i]));
                }
            }
            Some(chars_to_string(&out))
        },
        None => {
            proof {
                let i = choose|i: int| 0 <= i < mspec.len() && !key@.contains(#[trigger] mspec[i]);
                assert(!is_square_letter(mspec[i]));
                assert(!all_square_letters(mspec));
            }
            None
        },
    }
}

/// Deciphers `ciphertext` with the key square of `keyword`. Returns
/// `None` exactly when the normalized ciphertext has odd length, or
/// holds a letter (such as 'j') that the key square does not.
pub fn decrypt(keyword: &str, ciphertext: &str) -> (r: Option<String>)
    ensures
        match r {
            Some(pt) => decrypt_spec(keyword@, ciphertext@) == Some(pt@),
            None => decrypt_spec(keyword@, ciphertext@) is None,
        },
{
    let norm = normalize_text(ciphertext, false);
    if norm.len() % 2 != 0 {
        return None;
    }
    let key = generate_key(keyword);
    let ghost mspec = normalize(ciphertext@, false);
    match transform_pairs(&key, &norm, 4) {
        Some(out) => {
            proof {
                assert forall|i: int| 0 <= i < mspec.len() implies is_square_letter(
                    #[trigger] mspec[i],
                ) by {
                    assert(key@.contains(mspec[i]));
                }
            }
            Some(chars_to_string(&out))
        },
        None => {
            proof {
                let i = choose|i: int| 0 <= i < mspec.len() && !key@.contains(#[trigger] mspec[i]);
                assert(!is_square_letter(mspec[i]));
                assert(!all_square_letters(mspec));
            }
            None
        },
    }
}

} // verus!
