//! Mathematical model of the Playfair cipher: normalization, key-square
//! derivation, digram padding, and the positional pair transform.
use vstd::prelude::*;

verus! {

/// A lowercase ASCII letter.
pub open spec fn is_lower(c: char) -> bool {
    97 <= c as u32 && c as u32 <= 122
}

/// An uppercase ASCII letter.
pub open spec fn is_upper(c: char) -> bool {
    65 <= c as u32 && c as u32 <= 90
}

/// An ASCII letter of either case.
pub open spec fn is_letter(c: char) -> bool {
    is_lower(c) || is_upper(c)
}

/// A letter that can stand in the key square: lowercase and not 'j'
/// ('j' is folded into 'i' to fit the 25-cell grid).
pub open spec fn is_square_letter(c: char) -> bool {
    is_lower(c) && c != 'j'
}

/// Lowercases an ASCII letter; any other character is unchanged.
pub open spec fn to_lower(c: char) -> char {
    if is_upper(c) {
        ((c as u32) + 32) as char
    } else {
        c
    }
}

/// Folds 'j' into 'i'; any other character is unchanged.
pub open spec fn fold_j(c: char) -> char {
    if c == 'j' {
        'i'
    } else {
        c
    }
}

/// One character of the normalized stream: lowercased, and with 'j'
/// folded into 'i' when `fold` is set.
pub open spec fn norm_char(c: char, fold: bool) -> char {
    if fold {
        fold_j(to_lower(c))
    } else {
        to_lower(c)
    }
}

/// The normalized letter stream of `s`: ASCII letters only, lowercased,
/// with 'j' folded into 'i' when `fold` is set. Plaintext is normalized
/// with `fold` set; ciphertext without.
pub open spec fn normalize(s: Seq<char>, fold: bool) -> Seq<char>
    decreases s.len(),
{
    if s.len() == 0 {
        Seq::empty()
    } else {
        normalize(s.drop_last(), fold) + if is_letter(s.last()) {
            seq![norm_char(s.last(), fold)]
        } else {
            Seq::empty()
        }
    }
}

/// Appends `c` to the key square under construction unless it is
/// already present.
pub open spec fn admit_char(acc: Seq<char>, c: char) -> Seq<char> {
    if acc.contains(c) {
        acc
    } else {
        acc.push(c)
    }
}

/// Keeps the first occurrence of each character of `s`, in order.
pub open spec fn dedup(s: Seq<char>) -> Seq<char>
    decreases s.len(),
{
    if s.len() == 0 {
        Seq::empty()
    } else {
        admit_char(dedup(s.drop_last()), s.last())
    }
}

/// The `i`-th letter of the 25-letter alphabet: 'a' through 'z' with
/// 'j' left out ('a' is 97, 'j' is 106).
pub open spec fn square_letter(i: int) -> char {
    if i < 9 {
        (97 + i) as char
    } else {
        (98 + i) as char
    }
}

/// The 25-letter alphabet "abcdefghiklmnopqrstuvwxyz" as a sequence.
pub open spec fn alphabet25() -> Seq<char> {
    Seq::new(25, |i: int| square_letter(i))
}

/// The key square derived from a keyword: the first occurrences of the
/// normalized keyword letters, then the remaining alphabet in order.
/// Read as a 5x5 grid: row = position / 5, column = position % 5.
pub open spec fn key_square(kw: Seq<char>) -> Seq<char> {
    dedup(normalize(kw, true) + alphabet25())
}

/// The padded digram stream: a pad letter splits a pair of equal
/// letters, and completes a final odd letter, so that the result always
/// pairs up evenly. After a split the scan resumes at the second letter
/// of the broken pair.
pub open spec fn pad_stream(s: Seq<char>, pad: char) -> Seq<char>
    decreases s.len(),
{
    if s.len() == 0 {
        Seq::empty()
    } else if s.len() == 1 {
        seq![s[0], pad]
    } else if s[0] == s[1] {
        seq![s[0], pad] + pad_stream(s.drop_first(), pad)
    } else {
        seq![s[0], s[1]] + pad_stream(s.skip(2), pad)
    }
}

/// The output positions of the pair transform for input positions
/// `pa` and `pb`, with shift `d`: 1 to encrypt, 4 (that is, -1 mod 5)
/// to decrypt. Distinct row and column swap columns; a shared row
/// shifts columns by `d`; a shared column shifts rows by `d`.
pub open spec fn pair_positions(pa: int, pb: int, d: int) -> (int, int) {
    let y1 = pa / 5;
    let x1 = pa % 5;
    let y2 = pb / 5;
    let x2 = pb % 5;
    if y1 != y2 && x1 != x2 {
        (y1 * 5 + x2, y2 * 5 + x1)
    } else if y1 == y2 {
        (y1 * 5 + (x1 + d) % 5, y2 * 5 + (x2 + d) % 5)
    } else {
        (((y1 + d) % 5) * 5 + x1, ((y2 + d) % 5) * 5 + x2)
    }
}

/// Transforms an even-length stream two letters at a time, looking each
/// letter up in `key` and substituting by `pair_positions`.
pub open spec fn transform(key: Seq<char>, s: Seq<char>, d: int) -> Seq<char>
    decreases s.len(),
{
    if s.len() < 2 {
        Seq::empty()
    } else {
        let q = pair_positions(key.index_of(s[0]), key.index_of(s[1]), d);
        seq![key[q.0], key[q.1]] + transform(key, s.skip(2), d)
    }
}

/// Every character of `s` is a letter of the key square.
pub open spec fn all_square_letters(s: Seq<char>) -> bool {
    forall|i: int| 0 <= i < s.len() ==> is_square_letter(#[trigger] s[i])
}

/// What `encrypt` returns: the plaintext is normalized with 'j' folded,
/// padded into digrams, and transformed with shift 1. The call fails
/// exactly when some letter of the padded stream is not in the key
/// square, which can only be an inserted pad letter.
pub open spec fn encrypt_spec(kw: Seq<char>, pt: Seq<char>, pad: char) -> Option<Seq<char>> {
    let m = pad_stream(normalize(pt, true), pad);
    if all_square_letters(m) {
        Some(transform(key_square(kw), m, 1))
    } else {
        None
    }
}

/// What `decrypt` returns: the ciphertext is normalized without folding
/// 'j', and transformed with shift 4. The call fails exactly when the
/// normalized stream has odd length or holds a letter (such as 'j')
/// that is not in the key square.
pub open spec fn decrypt_spec(kw: Seq<char>, ct: Seq<char>) -> Option<Seq<char>> {
    let m = normalize(ct, false);
    if m.len() % 2 == 0 && all_square_letters(m) {
        Some(transform(key_square(kw), m, 4))
    } else {
        None
    }
}

} // verus!
