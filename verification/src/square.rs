//! Building the key square: the keyword's letters first, each kept at
//! its first occurrence, then the rest of the 25-letter alphabet.
use vstd::prelude::*;

use crate::lemmas::lemma_key_square_valid;
use crate::model::{admit_char, alphabet25, dedup, is_square_letter, key_square, normalize,
    square_letter};
use crate::text::{contains_char, normalize_text};

verus! {

/// The `i`-th letter of the 25-letter alphabet, 'a' through 'z' with
/// 'j' left out.
fn square_letter_at(i: usize) -> (c: char)
    requires
        i < 25,
    ensures
        c == square_letter(i as int),
{
    if i < 9 {
        (97 + i as u8) as char
    } else {
        (98 + i as u8) as char
    }
}

/// Generates the 5x5 key square from the given keyword: 25 distinct
/// lowercase letters, the whole alphabet with 'j' folded into 'i'. The
/// keyword's letters come first, in order of first occurrence, then
/// the remaining alphabet in order. Never fails, whatever the keyword.
pub fn generate_key(keyword: &str) -> (key: Vec<char>)
    ensures
        key@ == key_square(keyword@),
        key@.len() == 25,
        key@.no_duplicates(),
        forall|c: char| key@.contains(c) <==> is_square_letter(c),
{
    let norm = normalize_text(keyword, true);
    let ghost n = normalize(keyword@, true);
    let mut key: Vec<char> = Vec::new();
    let mut i: usize = 0;
    while i < norm.len()
        invariant
            norm@ == n,
            i <= norm@.len(),
            key@ == dedup(n.take(i as int)),
        decreases norm@.len() - i,
    {
        let c = norm[i];
        proof {
            assert(n.take(i + 1).drop_last() =~= n.take(i as int));
            assert(n.take(i + 1).last() == c);
            assert(dedup(n.take(i + 1)) == admit_char(dedup(n.take(i as int)), c));
        }
        if !contains_char(&key, c) {
            key.push(c);
        }
        i = i + 1;
    }
    proof {
        assert(n.take(n.len() as int) =~= n);
    }
    let mut j: usize = 0;
    while j < 25
        invariant
            j <= 25,
            key@ == dedup(n + alphabet25().take(j as int)),
        decreases 25 - j,
    {
        let c = square_letter_at(j);
        proof {
            assert((n + alphabet25().take(j + 1)).drop_last() =~= n + alphabet25().take(j as int));
            assert((n + alphabet25().take(j + 1)).last() == c);
            assert(dedup(n + alphabet25().take(j + 1)) == admit_char(
                dedup(n + alphabet25().take(j as int)),
                c,
            ));
        }
        if !contains_char(&key, c) {
            key.push(c);
        }
        j = j + 1;
    }
    proof {
        assert(alphabet25().take(25) =~= alphabet25());
        lemma_key_square_valid(keyword@);
    }
    key
}

} // verus!
