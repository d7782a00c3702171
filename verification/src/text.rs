//! Character and text primitives shared across the engine.
//!
//! Names are ordered by Unicode scalar value. UTF-8 encodes a larger scalar
//! as a strictly larger byte sequence, so this order coincides with the
//! byte-wise comparison of the encoded names and does not depend on locale.

use vstd::prelude::*;

verus! {

/// ASCII lowercasing of one character; any other character is untouched.
pub open spec fn lower_char(c: char) -> char {
    if 'A' <= c && c <= 'Z' {
        ((c as int) + 32) as char
    } else {
        c
    }
}

/// ASCII lowercasing of a character sequence.
pub open spec fn lower_seq(s: Seq<char>) -> Seq<char> {
    s.map_values(|c: char| lower_char(c))
}

/// Executable ASCII lowercasing of one character.
pub fn to_lower(c: char) -> (r: char)
    ensures
        r == lower_char(c),
{
    match c {
        'A' => 'a',
        'B' => 'b',
        'C' => 'c',
        'D' => 'd',
        'E' => 'e',
        'F' => 'f',
        'G' => 'g',
        'H' => 'h',
        'I' => 'i',
        'J' => 'j',
        'K' => 'k',
        'L' => 'l',
        'M' => 'm',
        'N' => 'n',
        'O' => 'o',
        'P' => 'p',
        'Q' => 'q',
        'R' => 'r',
        'S' => 's',
        'T' => 't',
        'U' => 'u',
        'V' => 'v',
        'W' => 'w',
        'X' => 'x',
        'Y' => 'y',
        'Z' => 'z',
        _ => c,
    }
}

/// Case-insensitive (ASCII) comparison of `a` against an already lowercase
/// pattern `b`: true iff lowercasing `a` yields exactly `b`.
pub fn ci_eq(a: &str, b: &str) -> (r: bool)
    ensures
        r == (lower_seq(a@) == b@),
{
    let na = a.unicode_len();
    let nb = b.unicode_len();
    if na != nb {
        proof {
            assert(lower_seq(a@).len() == a@.len());
        }
        return false;
    }
    let mut i: usize = 0;
    while i < na
        invariant
            i <= na,
            na == a@.len(),
            na == b@.len(),
            forall|k: int| 0 <= k < i ==> lower_char(a@[k]) == b@[k],
        decreases na - i,
    {
        let ca = to_lower(a.get_char(i));
        let cb = b.get_char(i);
        if ca != cb {
            proof {
                assert(lower_seq(a@)[i as int] != b@[i as int]);
            }
            return false;
        }
        i = i + 1;
    }
    proof {
        assert(lower_seq(a@) =~= b@);
    }
    true
}

/// Strict lexicographic order on character sequences by scalar value.
pub open spec fn text_lt(a: Seq<char>, b: Seq<char>) -> bool
    decreases a.len(),
{
    if b.len() == 0 {
        false
    } else if a.len() == 0 {
        true
    } else if a[0] != b[0] {
        a[0] < b[0]
    } else {
        text_lt(a.drop_first(), b.drop_first())
    }
}

/// The reflexive closure of [`text_lt`].
pub open spec fn text_le(a: Seq<char>, b: Seq<char>) -> bool {
    !text_lt(b, a)
}

pub proof fn lemma_text_lt_irreflexive(a: Seq<char>)
    ensures
        !text_lt(a, a),
    decreases a.len(),
{
    if a.len() > 0 {
        lemma_text_lt_irreflexive(a.drop_first());
    }
}

pub proof fn lemma_text_lt_transitive(a: Seq<char>, b: Seq<char>, c: Seq<char>)
    requires
        text_lt(a, b),
        text_lt(b, c),
    ensures
        text_lt(a, c),
    decreases a.len(),
{
    if b.len() > 0 && c.len() > 0 && a.len() > 0 {
        if a[0] == b[0] && b[0] == c[0] {
            lemma_text_lt_transitive(a.drop_first(), b.drop_first(), c.drop_first());
        }
    }
}

pub proof fn lemma_text_lt_asymmetric(a: Seq<char>, b: Seq<char>)
    requires
        text_lt(a, b),
    ensures
        !text_lt(b, a),
{
    if text_lt(b, a) {
        lemma_text_lt_transitive(a, b, a);
        lemma_text_lt_irreflexive(a);
    }
}

/// Relates [`text_lt`] to the first position where two sequences can differ,
/// given that they agree on everything before it.
pub proof fn lemma_text_lt_from_prefix(a: Seq<char>, b: Seq<char>, i: int)
    requires
        0 <= i <= a.len(),
        i <= b.len(),
        forall|k: int| 0 <= k < i ==> a[k] == b[k],
    ensures
        (i < a.len() && i < b.len() && a[i] != b[i]) ==> text_lt(a, b) == (a[i] < b[i]),
        i == a.len() ==> text_lt(a, b) == (a.len() < b.len()),
        (i == b.len() && i < a.len()) ==> !text_lt(a, b),
    decreases i,
{
    if i > 0 {
        lemma_text_lt_from_prefix(a.drop_first(), b.drop_first(), i - 1);
    }
}

/// Executable strict name comparison: true iff `a` comes before `b`.
pub fn str_before(a: &str, b: &str) -> (r: bool)
    ensures
        r == text_lt(a@, b@),
{
    let na = a.unicode_len();
    let nb = b.unicode_len();
    let mut i: usize = 0;
    while i < na && i < nb
        invariant
            i <= na,
            i <= nb,
            na == a@.len(),
            nb == b@.len(),
            forall|k: int| 0 <= k < i ==> a@[k] == b@[k],
        decreases na - i,
    {
        let ca = a.get_char(i);
        let cb = b.get_char(i);
        if ca != cb {
            proof {
                lemma_text_lt_from_prefix(a@, b@, i as int);
            }
            return ca < cb;
        }
        i = i + 1;
    }
    proof {
        lemma_text_lt_from_prefix(a@, b@, i as int);
    }
    na < nb
}

/// Whether `pat` occurs contiguously inside `s`.
pub open spec fn contains_seq(s: Seq<char>, pat: Seq<char>) -> bool {
    exists|i: int| 0 <= i && i + pat.len() <= s.len() && #[trigger] s.subrange(i, i + pat.len())
        == pat
}

/// Executable substring search.
pub fn contains_str(s: &str, pat: &str) -> (r: bool)
    ensures
        r == contains_seq(s@, pat@),
{
    let n = s.unicode_len();
    let m = pat.unicode_len();
    if m > n {
        return false;
    }
    if m == 0 {
        proof {
            assert(s@.subrange(0, 0 + pat@.len() as int) =~= pat@);
            assert(contains_seq(s@, pat@));
        }
        return true;
    }
    let mut i: usize = 0;
    while i <= n - m
        invariant
            0 < m <= n,
            n == s@.len(),
            m == pat@.len(),
            i <= n - m + 1,
            forall|ii: int| 0 <= ii < i ==> #[trigger] s@.subrange(ii, ii + m) != pat@,
        decreases n - i,
    {
        let mut j: usize = 0;
        let mut mismatch = false;
        while j < m
            invariant
                i + m <= n,
                n == s@.len(),
                m == pat@.len(),
                j <= m,
                !mismatch ==> forall|k: int| 0 <= k < j ==> s@[i + k] == pat@[k],
                mismatch ==> s@.subrange(i as int, i + m) != pat@,
            decreases m - j,
        {
            if s.get_char(i + j) != pat.get_char(j) {
                proof {
                    assert(s@.subrange(i as int, i + m)[j as int] == s@[i + j]);
                }
                mismatch = true;
                j = m;
            } else {
                j = j + 1;
            }
        }
        if !mismatch {
            proof {
                assert(s@.subrange(i as int, i + m) =~= pat@);
            }
            return true;
        }
        i = i + 1;
    }
    proof {
        assert forall|ii: int| !(0 <= ii && ii + pat@.len() <= s@.len() && #[trigger] s@.subrange(
            ii,
            ii + pat@.len(),
        ) == pat@) by {
            if 0 <= ii && ii + pat@.len() <= s@.len() {
                assert(ii < i);
            }
        }
    }
    false
}

/// The text after the last occurrence of `sep`; the whole of `s` when `sep`
/// does not occur.
pub open spec fn after_last(s: Seq<char>, sep: char) -> Seq<char>
    decreases s.len(),
{
    if s.len() == 0 {
        s
    } else if s.last() == sep {
        Seq::empty()
    } else {
        after_last(s.drop_last(), sep).push(s.last())
    }
}

/// The text before the last occurrence of `sep`; empty when `sep` does not
/// occur.
pub open spec fn before_last(s: Seq<char>, sep: char) -> Seq<char>
    decreases s.len(),
{
    if s.len() == 0 {
        s
    } else if s.last() == sep {
        s.drop_last()
    } else {
        before_last(s.drop_last(), sep)
    }
}

/// At the last occurrence `i` of `sep`, [`before_last`] and [`after_last`]
/// are the pieces on either side of it.
pub proof fn lemma_split_at_last_sep(s: Seq<char>, sep: char, i: int)
    requires
        0 <= i < s.len(),
        s[i] == sep,
        forall|k: int| i < k < s.len() ==> s[k] != sep,
    ensures
        after_last(s, sep) == s.subrange(i + 1, s.len() as int),
        before_last(s, sep) == s.subrange(0, i),
    decreases s.len(),
{
    if i == s.len() - 1 {
        assert(after_last(s, sep) =~= s.subrange(i + 1, s.len() as int));
        assert(s.drop_last() =~= s.subrange(0, i));
    } else {
        lemma_split_at_last_sep(s.drop_last(), sep, i);
        assert(after_last(s, sep) =~= s.subrange(i + 1, s.len() as int));
        assert(s.drop_last().subrange(0, i) =~= s.subrange(0, i));
    }
}

pub proof fn lemma_no_sep(s: Seq<char>, sep: char)
    requires
        forall|k: int| 0 <= k < s.len() ==> s[k] != sep,
    ensures
        after_last(s, sep) == s,
        before_last(s, sep) == Seq::<char>::empty(),
    decreases s.len(),
{
    if s.len() > 0 {
        lemma_no_sep(s.drop_last(), sep);
        assert(after_last(s, sep) =~= s);
        assert(before_last(s, sep) =~= Seq::<char>::empty());
    } else {
        assert(before_last(s, sep) =~= Seq::<char>::empty());
    }
}

/// [`before_last`] is always a prefix of its input.
pub proof fn lemma_before_last_prefix(s: Seq<char>, sep: char)
    ensures
        before_last(s, sep).len() <= s.len(),
        forall|k: int|
            0 <= k < before_last(s, sep).len() ==> #[trigger] before_last(s, sep)[k] == s[k],
    decreases s.len(),
{
    if s.len() > 0 && s.last() != sep {
        lemma_before_last_prefix(s.drop_last(), sep);
    }
}

/// The position of the last occurrence of `sep` in `s`, if any.
pub fn last_index_of(s: &str, sep: char) -> (r: Option<usize>)
    ensures
        match r {
            Some(i) => i < s@.len() && s@[i as int] == sep && forall|k: int|
                i < k < s@.len() ==> s@[k] != sep,
            None => forall|k: int| 0 <= k < s@.len() ==> s@[k] != sep,
        },
{
    let n = s.unicode_len();
    let mut i: usize = n;
    while i > 0
        invariant
            i <= n,
            n == s@.len(),
            forall|k: int| i <= k < s@.len() ==> s@[k] != sep,
        decreases i,
    {
        i = i - 1;
        if s.get_char(i) == sep {
            return Some(i);
        }
    }
    None
}

/// Executable [`after_last`].
pub fn suffix_after_last(s: &str, sep: char) -> (r: String)
    ensures
        r@ == after_last(s@, sep),
{
    let n = s.unicode_len();
    match last_index_of(s, sep) {
        Some(i) => {
            proof {
                lemma_split_at_last_sep(s@, sep, i as int);
            }
            let t = s.substring_char(i + 1, n);
            t.to_owned()
        },
        None => {
            proof {
                lemma_no_sep(s@, sep);
            }
            s.to_owned()
        },
    }
}

} // verus!
