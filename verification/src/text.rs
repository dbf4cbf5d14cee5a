//! Executable text normalization: reducing a message to its stream of
//! lowercase letters.
use vstd::prelude::*;

use crate::model::{is_letter, norm_char, normalize};

verus! {

/// Normalizes one character: `Some` of its lowercase form (with 'j'
/// folded into 'i' when `fold` is set) for an ASCII letter, `None` for
/// anything else.
fn norm_letter(c: char, fold: bool) -> (r: Option<char>)
    ensures
        match r {
            Some(n) => is_letter(c) && n == norm_char(c, fold),
            None => !is_letter(c),
        },
{
    let u = c as u32;
    if 97 <= u && u <= 122 {
        proof {
            vstd::utf8::char_u32_cast(c, u);
        }
        if fold && c == 'j' {
            Some('i')
        } else {
            Some(c)
        }
    } else if 65 <= u && u <= 90 {
        let l = ((u + 32) as u8) as char;
        if fold && l == 'j' {
            Some('i')
        } else {
            Some(l)
        }
    } else {
        None
    }
}

/// The normalized letter stream of `s`: ASCII letters only, in
/// lowercase, with 'j' folded into 'i' when `fold` is set.
pub fn normalize_text(s: &str, fold: bool) -> (v: Vec<char>)
    ensures
        v@ == normalize(s@, fold),
{
    let n = s.unicode_len();
    let mut v: Vec<char> = Vec::new();
    let mut i: usize = 0;
    while i < n
        invariant
            n == s@.len(),
            i <= n,
            v@ == normalize(s@.take(i as int), fold),
        decreases n - i,
    {
        let c = s.get_char(i);
        proof {
            let pre = s@.take(i as int);
            assert(s@.take(i + 1).drop_last() =~= pre);
            assert(s@.take(i + 1).last() == c);
            if is_letter(c) {
                assert(normalize(s@.take(i + 1), fold) =~= normalize(pre, fold).push(
                    norm_char(c, fold),
                ));
            } else {
                assert(normalize(s@.take(i + 1), fold) =~= normalize(pre, fold));
            }
        }
        match norm_letter(c, fold) {
            Some(nc) => {
                v.push(nc);
            },
            None => {},
        }
        i = i + 1;
    }
    proof {
        assert(s@.take(n as int) =~= s@);
    }
    v
}

/// Whether `v` holds the character `c`.
pub fn contains_char(v: &Vec<char>, c: char) -> (b: bool)
    ensures
        b == v@.contains(c),
{
    let mut i: usize = 0;
    while i < v.len()
        invariant
            i <= v@.len(),
            forall|j: int| 0 <= j < i ==> v@[j] != c,
        decreases v@.len() - i,
    {
        if v[i] == c {
            return true;
        }
        i = i + 1;
    }
    false
}

} // verus!
