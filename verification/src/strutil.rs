//! Verified helpers on character sequences: lexicographic comparison,
//! substring containment, occurrence search and splitting.
//!
//! All executable functions here are specified against spec functions over
//! `Seq<char>`, so the rest of the crate can state its contracts over string
//! views alone.

use vstd::prelude::*;

verus! {

/// Lexicographic "less than or equal" on character sequences, comparing
/// code points; a prefix sorts before every extension of it.
pub open spec fn lex_le(a: Seq<char>, b: Seq<char>) -> bool
    decreases a.len(),
{
    if a.len() == 0 {
        true
    } else if b.len() == 0 {
        false
    } else if (a[0] as u32) < (b[0] as u32) {
        true
    } else if (a[0] as u32) > (b[0] as u32) {
        false
    } else {
        lex_le(a.drop_first(), b.drop_first())
    }
}

/// Any two character sequences are comparable under `lex_le`.
pub proof fn lemma_lex_le_total(a: Seq<char>, b: Seq<char>)
    ensures
        lex_le(a, b) || lex_le(b, a),
    decreases a.len(),
{
    if a.len() == 0 || b.len() == 0 {
    } else if (a[0] as u32) == (b[0] as u32) {
        lemma_lex_le_total(a.drop_first(), b.drop_first());
    }
}

/// `lex_le` is antisymmetric: two sequences below each other are equal.
pub proof fn lemma_lex_le_antisym(a: Seq<char>, b: Seq<char>)
    requires
        lex_le(a, b),
        lex_le(b, a),
    ensures
        a == b,
    decreases a.len(),
{
    if a.len() == 0 {
        assert(b.len() == 0);
        assert(a =~= b);
    } else {
        assert(b.len() > 0);
        assert((a[0] as u32) == (b[0] as u32));
        vstd::utf8::char_u32_cast(a[0], a[0] as u32);
        vstd::utf8::char_u32_cast(b[0], b[0] as u32);
        assert(a[0] == b[0]);
        lemma_lex_le_antisym(a.drop_first(), b.drop_first());
        assert(a.len() == b.len());
        assert forall|i: int| 0 <= i < a.len() implies a[i] == b[i] by {
            if i > 0 {
                assert(a.drop_first()[i - 1] == a[i]);
                assert(b.drop_first()[i - 1] == b[i]);
            }
        }
        assert(a =~= b);
    }
}

/// `lex_le` is transitive.
pub proof fn lemma_lex_le_trans(a: Seq<char>, b: Seq<char>, c: Seq<char>)
    requires
        lex_le(a, b),
        lex_le(b, c),
    ensures
        lex_le(a, c),
    decreases a.len(),
{
    if a.len() == 0 || b.len() == 0 || c.len() == 0 {
    } else if (a[0] as u32) == (b[0] as u32) && (b[0] as u32) == (c[0] as u32) {
        lemma_lex_le_trans(a.drop_first(), b.drop_first(), c.drop_first());
    }
}

/// Whether `needle` occurs in `hay` as a contiguous subsequence.
pub open spec fn contains_seq(hay: Seq<char>, needle: Seq<char>) -> bool {
    exists|i: int|
        0 <= i && i + needle.len() <= hay.len() && #[trigger] hay.subrange(i, i + needle.len())
            == needle
}

/// Position of the first occurrence of `needle` in `hay` at or after `from`,
/// or `None` if there is none.
pub open spec fn first_occurrence_from(hay: Seq<char>, needle: Seq<char>, from: int) -> Option<int>
    recommends
        0 <= from,
    decreases hay.len() - from,
{
    if from < 0 || needle.len() == 0 || from + needle.len() > hay.len() {
        None
    } else if hay.subrange(from, from + needle.len()) == needle {
        Some(from)
    } else {
        first_occurrence_from(hay, needle, from + 1)
    }
}

/// What `first_occurrence_from` returns: an in-range match position with no
/// earlier match, or `None` exactly when no position at or after `from` matches.
pub proof fn lemma_first_occurrence_from(hay: Seq<char>, needle: Seq<char>, from: int)
    requires
        0 <= from,
        needle.len() >= 1,
    ensures
        match first_occurrence_from(hay, needle, from) {
            Some(i) => from <= i && i + needle.len() <= hay.len() && hay.subrange(
                i,
                i + needle.len(),
            ) == needle && forall|j: int|
                from <= j < i ==> #[trigger] hay.subrange(j, j + needle.len()) != needle,
            None => forall|j: int|
                from <= j && j + needle.len() <= hay.len() ==> #[trigger] hay.subrange(
                    j,
                    j + needle.len(),
                ) != needle,
        },
    decreases hay.len() + 1 - from,
{
    if from + needle.len() > hay.len() {
    } else if hay.subrange(from, from + needle.len()) == needle {
    } else {
        lemma_first_occurrence_from(hay, needle, from + 1);
    }
}

/// The pieces of `s` between the non-overlapping occurrences of `sep`,
/// scanning left to right; always at least one piece.
pub open spec fn split_seq(s: Seq<char>, sep: Seq<char>) -> Seq<Seq<char>>
    decreases s.len() via split_seq_decreases
{
    if sep.len() == 0 {
        seq![s]
    } else {
        match first_occurrence_from(s, sep, 0) {
            None => seq![s],
            Some(i) => seq![s.subrange(0, i)] + split_seq(
                s.subrange(i + sep.len(), s.len() as int),
                sep,
            ),
        }
    }
}

#[via_fn]
proof fn split_seq_decreases(s: Seq<char>, sep: Seq<char>) {
    if sep.len() > 0 {
        lemma_first_occurrence_from(s, sep, 0);
    }
}

/// `split_seq` never returns an empty sequence of pieces.
pub proof fn lemma_split_seq_len(s: Seq<char>, sep: Seq<char>)
    ensures
        split_seq(s, sep).len() >= 1,
{
    if sep.len() > 0 {
        lemma_first_occurrence_from(s, sep, 0);
    }
}

/// Like `split_seq`, but a trailing empty piece is dropped: the behaviour of
/// splitting on a terminator.
pub open spec fn split_term_seq(s: Seq<char>, sep: Seq<char>) -> Seq<Seq<char>> {
    let p = split_seq(s, sep);
    if p.len() > 0 && p.last().len() == 0 {
        p.drop_last()
    } else {
        p
    }
}

/// Whether `needle` matches `hay` at position `at`, decided by comparing the
/// characters one by one.
fn match_at(hay: &str, needle: &str, at: usize, hay_len: usize, needle_len: usize) -> (r: bool)
    requires
        hay_len == hay@.len(),
        needle_len == needle@.len(),
        at + needle_len <= hay_len,
    ensures
        r == (hay@.subrange(at as int, at + needle@.len()) == needle@),
{
    let mut k: usize = 0;
    while k < needle_len
        invariant
            hay_len == hay@.len(),
            needle_len == needle@.len(),
            at + needle_len <= hay_len,
            0 <= k <= needle_len,
            forall|m: int| 0 <= m < k ==> hay@[at + m] == needle@[m],
        decreases needle_len - k,
    {
        let hc = hay.get_char(at + k);
        let nc = needle.get_char(k);
        if hc != nc {
            assert(hay@.subrange(at as int, at + needle@.len())[k as int] != needle@[k as int]);
            return false;
        }
        k = k + 1;
    }
    assert(hay@.subrange(at as int, at + needle@.len()) =~= needle@);
    true
}

/// Position of the first occurrence of `needle` in `hay`, as
/// `first_occurrence_from` names it.
pub fn find_first(hay: &str, needle: &str) -> (r: Option<usize>)
    requires
        needle@.len() >= 1,
    ensures
        match r {
            Some(i) => first_occurrence_from(hay@, needle@, 0) == Some(i as int),
            None => first_occurrence_from(hay@, needle@, 0) is None,
        },
{
    let hay_len = hay.unicode_len();
    let needle_len = needle.unicode_len();
    if needle_len > hay_len {
        return None;
    }
    let mut i: usize = 0;
    while i <= hay_len - needle_len
        invariant
            hay_len == hay@.len(),
            needle_len == needle@.len(),
            1 <= needle_len <= hay_len,
            0 <= i <= hay_len - needle_len + 1,
            first_occurrence_from(hay@, needle@, 0) == first_occurrence_from(
                hay@,
                needle@,
                i as int,
            ),
        decreases hay_len - needle_len + 1 - i,
    {
        if match_at(hay, needle, i, hay_len, needle_len) {
            return Some(i);
        }
        i = i + 1;
    }
    None
}

/// Whether the characters of `term` occur contiguously in `hay`.
pub fn str_contains_chars(hay: &str, term: &Vec<char>) -> (r: bool)
    ensures
        r == contains_seq(hay@, term@),
{
    let hay_len = hay.unicode_len();
    let term_len = term.len();
    if term_len > hay_len {
        assert(!contains_seq(hay@, term@));
        return false;
    }
    if term_len == 0 {
        assert(contains_seq(hay@, term@)) by {
            assert(hay@.subrange(0, 0 + term@.len() as int) =~= term@);
        }
        return true;
    }
    let mut i: usize = 0;
    while i <= hay_len - term_len
        invariant
            hay_len == hay@.len(),
            term_len == term@.len(),
            1 <= term_len <= hay_len,
            0 <= i <= hay_len - term_len + 1,
            forall|j: int| 0 <= j < i ==> #[trigger] hay@.subrange(j, j + term@.len()) != term@,
        decreases hay_len - term_len + 1 - i,
    {
        let mut k: usize = 0;
        let mut hit = true;
        while k < term_len && hit
            invariant
                hay_len == hay@.len(),
                term_len == term@.len(),
                i + term_len <= hay_len,
                0 <= k <= term_len,
                hit ==> forall|m: int| 0 <= m < k ==> hay@[i + m] == term@[m],
                !hit ==> hay@.subrange(i as int, i + term@.len()) != term@,
            decreases term_len - k + (if hit { 1int } else { 0int }),
        {
            let hc = hay.get_char(i + k);
            if hc != term[k] {
                assert(hay@.subrange(i as int, i + term@.len())[k as int] != term@[k as int]);
                hit = false;
            } else {
                k = k + 1;
            }
        }
        if hit {
            assert(hay@.subrange(i as int, i + term@.len()) =~= term@);
            return true;
        }
        i = i + 1;
    }
    assert forall|j: int| 0 <= j && j + term@.len() <= hay@.len() implies #[trigger] hay@.subrange(
        j,
        j + term@.len(),
    ) != term@ by {
        assert(j < i);
    }
    false
}

/// Whether two string slices hold the same characters.
pub fn str_eq(a: &str, b: &str) -> (r: bool)
    ensures
        r == (a@ == b@),
{
    let a_len = a.unicode_len();
    let b_len = b.unicode_len();
    if a_len != b_len {
        return false;
    }
    let mut i: usize = 0;
    while i < a_len
        invariant
            a_len == a@.len(),
            b_len == b@.len(),
            a_len == b_len,
            0 <= i <= a_len,
            forall|m: int| 0 <= m < i ==> a@[m] == b@[m],
        decreases a_len - i,
    {
        let ca = a.get_char(i);
        let cb = b.get_char(i);
        if ca != cb {
            return false;
        }
        i = i + 1;
    }
    assert(a@ =~= b@);
    true
}

/// Decides `lex_le` on two string slices.
pub fn str_le(a: &str, b: &str) -> (r: bool)
    ensures
        r == lex_le(a@, b@),
{
    let a_len = a.unicode_len();
    let b_len = b.unicode_len();
    let mut i: usize = 0;
    assert(a@.skip(0) =~= a@);
    assert(b@.skip(0) =~= b@);
    while i < a_len && i < b_len
        invariant
            a_len == a@.len(),
            b_len == b@.len(),
            0 <= i,
            i <= a_len,
            i <= b_len,
            lex_le(a@, b@) == lex_le(a@.skip(i as int), b@.skip(i as int)),
        decreases a_len - i,
    {
        let ca = a.get_char(i) as u32;
        let cb = b.get_char(i) as u32;
        if ca < cb {
            return true;
        }
        if ca > cb {
            return false;
        }
        assert(a@.skip(i as int).drop_first() =~= a@.skip(i + 1));
        assert(b@.skip(i as int).drop_first() =~= b@.skip(i + 1));
        i = i + 1;
    }
    if i == a_len {
        assert(a@.skip(i as int).len() == 0);
        true
    } else {
        assert(b@.skip(i as int).len() == 0);
        assert(a@.skip(i as int).len() > 0);
        false
    }
}

/// The pieces of `s` split on the terminator `sep`, as `split_term_seq`
/// names them.
pub fn split_terminator_str(s: &str, sep: &str) -> (r: Vec<String>)
    requires
        sep@.len() >= 1,
    ensures
        r.deep_view() == split_term_seq(s@, sep@),
{
    let sep_len = sep.unicode_len();
    let mut pieces: Vec<String> = Vec::new();
    let mut rest: String = s.to_owned();
    loop
        invariant_except_break
            split_seq(s@, sep@) == pieces.deep_view() + split_seq(rest@, sep@),
        invariant
            sep_len == sep@.len(),
            sep@.len() >= 1,
        ensures
            pieces.deep_view() == split_seq(s@, sep@),
        decreases rest@.len(),
    {
        let found = find_first(rest.as_str(), sep);
        match found {
            None => {
                let ghost pre = pieces.deep_view();
                pieces.push(rest);
                assert(pieces.deep_view() =~= pre.push(pieces@.last()@));
                assert(pieces.deep_view() =~= split_seq(s@, sep@));
                break;
            },
            Some(i) => {
                proof {
                    lemma_first_occurrence_from(rest@, sep@, 0);
                }
                let rest_len = rest.unicode_len();
                let piece = rest.as_str().substring_char(0, i).to_owned();
                let new_rest = rest.as_str().substring_char(i + sep_len, rest_len).to_owned();
                let ghost pre = pieces.deep_view();
                let ghost old_rest_view = rest@;
                pieces.push(piece);
                proof {
                    assert(split_seq(old_rest_view, sep@) == seq![
                        old_rest_view.subrange(0, i as int),
                    ] + split_seq(
                        old_rest_view.subrange(i + sep@.len(), old_rest_view.len() as int),
                        sep@,
                    ));
                    assert(pieces.deep_view() =~= pre.push(old_rest_view.subrange(0, i as int)));
                    assert(pieces.deep_view() + split_seq(new_rest@, sep@) =~= split_seq(
                        s@,
                        sep@,
                    ));
                }
                rest = new_rest;
            },
        }
    }
    let n = pieces.len();
    proof {
        lemma_split_seq_len(s@, sep@);
        assert(n >= 1);
    }
    let ghost pre = pieces.deep_view();
    if pieces[n - 1].as_str().is_empty() {
        pieces.pop();
        assert(pieces.deep_view() =~= pre.drop_last());
        assert(pre.last().len() == 0);
        assert(pieces.deep_view() =~= split_term_seq(s@, sep@));
    } else {
        assert(pre.last().len() != 0);
        assert(pieces.deep_view() =~= split_term_seq(s@, sep@));
    }
    pieces
}

} // verus!
