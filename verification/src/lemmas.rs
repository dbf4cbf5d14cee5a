//! Proofs about the model: what the normalized stream holds, that the
//! key square is a permutation of the 25-letter alphabet, and what the
//! square looks like for an empty keyword.
use vstd::prelude::*;

use crate::model::{
    admit_char, alphabet25, dedup, is_letter, is_lower, is_square_letter, is_upper, key_square,
    norm_char, normalize, pad_stream, square_letter,
};

verus! {

/// Two distinct characters have distinct scalar values.
pub proof fn lemma_char_injective(a: char, b: char)
    requires
        a as u32 == b as u32,
    ensures
        a == b,
{
    vstd::utf8::char_u32_cast(a, a as u32);
    vstd::utf8::char_u32_cast(b, b as u32);
}

/// A sequence holds `c` exactly when its front part holds `c` or its
/// last element is `c`.
pub proof fn lemma_contains_split_last(s: Seq<char>, c: char)
    requires
        s.len() > 0,
    ensures
        s.contains(c) <==> s.drop_last().contains(c) || s.last() == c,
{
    if s.contains(c) {
        let i = choose|i: int| 0 <= i < s.len() && s[i] == c;
        if i < s.len() - 1 {
            assert(s.drop_last()[i] == c);
        }
    }
    if s.drop_last().contains(c) {
        let i = choose|i: int| 0 <= i < s.drop_last().len() && s.drop_last()[i] == c;
        assert(s[i] == c);
    }
    if s.last() == c {
        assert(s[s.len() - 1] == c);
    }
}

/// Membership in a sequence extended by one element.
pub proof fn lemma_contains_push(s: Seq<char>, x: char, c: char)
    ensures
        s.push(x).contains(c) <==> s.contains(c) || c == x,
{
    lemma_contains_split_last(s.push(x), c);
    assert(s.push(x).drop_last() =~= s);
}

/// Every character of a normalized stream is a lowercase letter, and
/// never 'j' when folding was asked for.
pub proof fn lemma_normalize_letters(s: Seq<char>, fold: bool)
    ensures
        forall|i: int|
            0 <= i < normalize(s, fold).len() ==> is_lower(#[trigger] normalize(s, fold)[i]) && (
            fold ==> normalize(s, fold)[i] != 'j'),
    decreases s.len(),
{
    if s.len() > 0 {
        let m0 = normalize(s.drop_last(), fold);
        let m = normalize(s, fold);
        lemma_normalize_letters(s.drop_last(), fold);
        if is_letter(s.last()) {
            let c = norm_char(s.last(), fold);
            assert(is_lower(c));
            assert(fold ==> c != 'j');
            assert(m =~= m0.push(c));
            assert forall|i: int|
                0 <= i < m.len() implies is_lower(#[trigger] m[i]) && (fold ==> m[i] != 'j') by {
                if i < m0.len() {
                    assert(m[i] == m0[i]);
                } else {
                    assert(m[i] == c);
                }
            }
        } else {
            assert(m =~= m0);
        }
    }
}

/// A stream of lowercase letters, free of 'j' when folding is asked
/// for, is its own normalization.
pub proof fn lemma_normalize_identity(s: Seq<char>, fold: bool)
    requires
        forall|i: int| 0 <= i < s.len() ==> is_lower(#[trigger] s[i]) && (fold ==> s[i] != 'j'),
    ensures
        normalize(s, fold) == s,
    decreases s.len(),
{
    if s.len() > 0 {
        assert(is_lower(s[s.len() - 1]));
        lemma_normalize_identity(s.drop_last(), fold);
        assert(is_letter(s.last()));
        assert(!is_upper(s.last()));
        assert(norm_char(s.last(), fold) == s.last());
        assert(normalize(s, fold) =~= s.drop_last().push(s.last()));
        assert(s.drop_last().push(s.last()) =~= s);
    }
}

/// Deduplication leaves no duplicates, and keeps exactly the
/// characters of its input.
pub proof fn lemma_dedup_props(s: Seq<char>)
    ensures
        dedup(s).no_duplicates(),
        forall|c: char| dedup(s).contains(c) <==> s.contains(c),
    decreases s.len(),
{
    if s.len() > 0 {
        lemma_dedup_props(s.drop_last());
        let d = dedup(s.drop_last());
        let x = s.last();
        let r = admit_char(d, x);
        if !d.contains(x) {
            assert forall|i: int, j: int|
                0 <= i < r.len() && 0 <= j < r.len() && i != j implies r[i] != r[j] by {
                if i < d.len() && j < d.len() {
                    assert(r[i] == d[i] && r[j] == d[j]);
                } else if i < d.len() {
                    assert(r[j] == x && r[i] == d[i]);
                    assert(d.contains(d[i]));
                } else {
                    assert(r[i] == x && r[j] == d[j]);
                    assert(d.contains(d[j]));
                }
            }
        }
        assert forall|c: char| r.contains(c) <==> s.contains(c) by {
            lemma_contains_split_last(s, c);
            if d.contains(x) {
                assert(r == d);
            } else {
                lemma_contains_push(d, x, c);
            }
        }
    } else {
        assert forall|c: char| dedup(s).contains(c) <==> s.contains(c) by {
            assert(!s.contains(c));
            assert(!dedup(s).contains(c));
        }
    }
}

/// Deduplication of an already duplicate-free stream is the stream
/// itself.
pub proof fn lemma_dedup_of_unique(s: Seq<char>)
    requires
        s.no_duplicates(),
    ensures
        dedup(s) == s,
    decreases s.len(),
{
    if s.len() > 0 {
        assert(s.drop_last().no_duplicates());
        lemma_dedup_of_unique(s.drop_last());
        if s.drop_last().contains(s.last()) {
            let i = choose|i: int| 0 <= i < s.drop_last().len() && s.drop_last()[i] == s.last();
            assert(s[i] == s[s.len() - 1]);
            assert(false);
        }
        assert(dedup(s) =~= s.drop_last().push(s.last()));
        assert(s.drop_last().push(s.last()) =~= s);
    }
}

/// The 25-letter alphabet has 25 distinct letters, and holds exactly
/// the lowercase letters other than 'j'.
pub proof fn lemma_alphabet25_props()
    ensures
        alphabet25().len() == 25,
        alphabet25().no_duplicates(),
        forall|c: char| alphabet25().contains(c) <==> is_square_letter(c),
{
    assert forall|i: int| 0 <= i < 25 implies is_square_letter(#[trigger] square_letter(i)) by {
        if i < 9 {
            assert(square_letter(i) as u32 == 97 + i);
        } else {
            assert(square_letter(i) as u32 == 98 + i);
        }
        assert(square_letter(i) as u32 != 106);
        if square_letter(i) == 'j' {
            assert(square_letter(i) as u32 == 106);
        }
    }
    assert forall|i: int, j: int|
        0 <= i < 25 && 0 <= j < 25 && i != j implies square_letter(i) != square_letter(j) by {
        assert(square_letter(i) as u32 != square_letter(j) as u32);
    }
    assert forall|c: char| alphabet25().contains(c) <==> is_square_letter(c) by {
        if alphabet25().contains(c) {
            let i = choose|i: int| 0 <= i < 25 && alphabet25()[i] == c;
            assert(is_square_letter(square_letter(i)));
        }
        if is_square_letter(c) {
            let v = c as u32;
            vstd::utf8::char_u32_cast(c, v);
            assert(v != 106) by {
                if v == 106 {
                    assert(c == 'j');
                }
            }
            let i: int = if v <= 105 {
                v - 97
            } else {
                v - 98
            };
            assert(0 <= i < 25);
            assert(square_letter(i) as u32 == v);
            lemma_char_injective(square_letter(i), c);
            assert(alphabet25()[i] == c);
        }
    }
}

/// Row and column of a grid position: both lie in the 5x5 grid, and
/// together they recover the position.
pub proof fn lemma_grid(p: int)
    requires
        0 <= p < 25,
    ensures
        0 <= p / 5 < 5,
        0 <= p % 5 < 5,
        p == (p / 5) * 5 + p % 5,
{
    vstd::arithmetic::div_mod::lemma_fundamental_div_mod(p, 5);
    vstd::arithmetic::div_mod::lemma_mod_bound(p, 5);
}

/// A row and a column of the 5x5 grid name one position, and the
/// position decomposes back into them.
pub proof fn lemma_grid_converse(y: int, x: int)
    requires
        0 <= y < 5,
        0 <= x < 5,
    ensures
        0 <= y * 5 + x < 25,
        (y * 5 + x) / 5 == y,
        (y * 5 + x) % 5 == x,
{
    vstd::arithmetic::div_mod::lemma_fundamental_div_mod_converse(y * 5 + x, 5, y, x);
}

/// The padded digram stream always has even length.
pub proof fn lemma_pad_stream_even(s: Seq<char>, pad: char)
    ensures
        pad_stream(s, pad).len() % 2 == 0,
    decreases s.len(),
{
    if s.len() == 0 {
    } else if s.len() == 1 {
    } else if s[0] == s[1] {
        lemma_pad_stream_even(s.drop_first(), pad);
    } else {
        lemma_pad_stream_even(s.skip(2), pad);
    }
}

/// The key square of any keyword is a permutation of the 25-letter
/// alphabet: 25 letters long, free of duplicates, holding every
/// lowercase letter but 'j' exactly once.
pub proof fn lemma_key_square_valid(kw: Seq<char>)
    ensures
        key_square(kw).len() == 25,
        key_square(kw).no_duplicates(),
        forall|c: char| key_square(kw).contains(c) <==> is_square_letter(c),
        !key_square(kw).contains('j'),
{
    broadcast use vstd::set::group_set_axioms;

    let n = normalize(kw, true);
    let a = alphabet25();
    let s = n + a;
    let ks = key_square(kw);
    lemma_normalize_letters(kw, true);
    lemma_alphabet25_props();
    lemma_dedup_props(s);
    assert forall|c: char| ks.contains(c) <==> is_square_letter(c) by {
        if ks.contains(c) {
            assert(s.contains(c));
            let i = choose|i: int| 0 <= i < s.len() && s[i] == c;
            if i < n.len() {
                assert(n[i] == c);
            } else {
                assert(a[i - n.len()] == c);
                assert(a.contains(c));
            }
        }
        if is_square_letter(c) {
            let i = choose|i: int| 0 <= i < a.len() && a[i] == c;
            assert(s[n.len() + i] == c);
            assert(s.contains(c));
        }
    }
    assert forall|c: char| ks.to_set().contains(c) <==> a.to_set().contains(c) by {
        assert(ks.contains(c) <==> is_square_letter(c));
        assert(a.contains(c) <==> is_square_letter(c));
    }
    assert(ks.to_set() =~= a.to_set());
    ks.unique_seq_to_set();
    a.unique_seq_to_set();
    assert(!is_square_letter('j'));
}

/// For an empty keyword the key square is the alphabet itself, 'a'
/// through 'z' with 'j' left out, in order.
pub proof fn lemma_key_square_of_empty()
    ensures
        key_square(Seq::empty()) == alphabet25(),
        key_square(Seq::empty()) == "abcdefghiklmnopqrstuvwxyz"@,
{
    lemma_alphabet25_props();
    reveal_strlit("abcdefghiklmnopqrstuvwxyz");
    assert forall|i: int| 0 <= i < 25 implies alphabet25()[i] == "abcdefghiklmnopqrstuvwxyz"@[i] by {
        assert(alphabet25()[i] == square_letter(i));
    }
    assert(alphabet25() =~= "abcdefghiklmnopqrstuvwxyz"@);
    assert(normalize(Seq::empty(), true) == Seq::<char>::empty());
    assert(Seq::empty() + alphabet25() =~= alphabet25());
    lemma_dedup_of_unique(alphabet25());
}

} // verus!
