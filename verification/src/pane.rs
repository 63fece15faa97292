//! Panes: filtered, sorted, selectable views over the package index.
//!
//! A pane holds positions into the index, never records themselves, plus
//! one optional selection.  Every mutation re-derives the selection through
//! the re-anchoring rule, so the selection invariant — `None` exactly on an
//! empty pane, otherwise a valid position — holds after every operation.

use vstd::multiset::Multiset;
use vstd::prelude::*;

use crate::index::PackageIndex;
use crate::packages::{PackageDesc, PackageModel, Reason};
use crate::strutil::{lemma_lex_le_total, lemma_lex_le_trans, lex_le, str_le};

verus! {

/// The two orders a pane can show.
#[derive(Clone, Copy, Debug, Default, PartialEq, Eq, Structural)]
pub enum SortCritera {
    /// Alphabetically by name.
    #[default]
    NameAsc,
    /// By size, largest first; a missing size counts as zero.
    SizeDesc,
}

/// Which records the center pane shows.
#[derive(Clone, Copy, Debug, Default, PartialEq, Eq, Structural)]
pub enum Filter {
    /// Every installed package.
    #[default]
    All,
    /// Only packages the user asked for directly.
    Explicit,
}

/// Whether `m` passes the filter `f`.
pub open spec fn filter_passes(f: Filter, m: PackageModel) -> bool {
    f is All || m.reason is Explicit
}

impl Filter {
    /// Whether `package` passes this filter.
    pub fn filter(&self, package: &PackageDesc) -> (r: bool)
        ensures
            r == filter_passes(*self, package@),
    {
        match self {
            Filter::All => true,
            Filter::Explicit => match package.reason {
                Reason::Explicit => true,
                Reason::Dependency => false,
            },
        }
    }
}

/// The size used for sorting: a missing size counts as zero.
pub open spec fn size_or_zero(m: PackageModel) -> u64 {
    match m.size {
        Option::Some(s) => s,
        Option::None => 0u64,
    }
}

/// The sort order on records: `a` may come before `b`.
pub open spec fn le_key(c: SortCritera, a: PackageModel, b: PackageModel) -> bool {
    match c {
        SortCritera::NameAsc => lex_le(a.name, b.name),
        SortCritera::SizeDesc => size_or_zero(b) <= size_or_zero(a),
    }
}

/// The records at positions `items[a]` and `items[b]` are in order.
pub open spec fn le_pair(
    c: SortCritera,
    index: PackageIndex,
    items: Seq<usize>,
    a: int,
    b: int,
) -> bool {
    le_key(c, index.model(items[a] as int), index.model(items[b] as int))
}

/// The positions in `items` name records that are pairwise in order.
pub open spec fn sorted_by(c: SortCritera, index: PackageIndex, items: Seq<usize>) -> bool {
    forall|a: int, b: int| 0 <= a < b < items.len() ==> #[trigger] le_pair(c, index, items, a, b)
}

/// `x` occurs somewhere before `y` in `input`.
pub open spec fn precedes(input: Seq<usize>, x: usize, y: usize) -> bool {
    exists|ix: int, iy: int| 0 <= ix < iy < input.len() && input[ix] == x && input[iy] == y
}

/// The sort is stable: entries whose records compare equal keep the
/// relative order they had in `input`.  In a sorted `output` a pair
/// `a < b` is a tie exactly when the records also compare `<=` the other
/// way round.
pub open spec fn stable_ties(
    c: SortCritera,
    index: PackageIndex,
    input: Seq<usize>,
    output: Seq<usize>,
) -> bool {
    forall|a: int, b: int|
        0 <= a < b < output.len() && #[trigger] le_pair(c, index, output, b, a) ==> precedes(
            input,
            output[a],
            output[b],
        )
}

/// Ties appear in ascending name order: the canonical order that sorting
/// a name-ordered list stably produces.  In a sorted list a pair `a < b`
/// is a tie exactly when the records also compare `<=` the other way
/// round.
pub open spec fn ties_by_name(c: SortCritera, index: PackageIndex, items: Seq<usize>) -> bool {
    forall|a: int, b: int|
        0 <= a < b < items.len() && #[trigger] le_pair(c, index, items, b, a) ==> lex_le(
            index.model(items[a] as int).name,
            index.model(items[b] as int).name,
        )
}

/// A sorted, duplicate-free list of positions with canonical tie order
/// over records with pairwise distinct names is determined by its set of
/// positions alone: two such lists holding the same positions are equal.
pub proof fn lemma_canonical_sort_unique(
    c: SortCritera,
    index: PackageIndex,
    s1: Seq<usize>,
    s2: Seq<usize>,
)
    requires
        s1.no_duplicates(),
        s2.no_duplicates(),
        sorted_by(c, index, s1),
        sorted_by(c, index, s2),
        ties_by_name(c, index, s1),
        ties_by_name(c, index, s2),
        forall|x: usize, y: usize|
            #[trigger] s1.contains(x) && #[trigger] s1.contains(y) && x != y ==> index.model(
                x as int,
            ).name != index.model(y as int).name,
        forall|x: usize| s1.contains(x) <==> s2.contains(x),
    ensures
        s1 == s2,
    decreases s1.len(),
{
    if s1.len() == 0 {
        if s2.len() > 0 {
            assert(s2.contains(s2[0]));
            assert(false);
        }
        assert(s1 =~= s2);
    } else {
        assert(s1.contains(s1[0]));
        assert(s2.len() > 0);
        let x = s1[0];
        let y = s2[0];
        if x != y {
            // the heads are both the unique minimum of the shared set
            assert(s1.contains(y));
            let k = choose|k: int| 0 <= k < s1.len() && s1[k] == y;
            assert(k > 0);
            assert(le_pair(c, index, s1, 0, k));
            assert(s2.contains(x));
            let m = choose|m: int| 0 <= m < s2.len() && s2[m] == x;
            assert(m > 0);
            assert(le_pair(c, index, s2, 0, m));
            // both directions compare <=: a tie, so both canonical orders
            // apply and force the two head names to be lexicographically
            // equal, contradicting name uniqueness
            assert(le_pair(c, index, s1, k, 0));
            assert(lex_le(index.model(x as int).name, index.model(y as int).name));
            assert(le_pair(c, index, s2, m, 0));
            assert(lex_le(index.model(y as int).name, index.model(x as int).name));
            crate::strutil::lemma_lex_le_antisym(
                index.model(x as int).name,
                index.model(y as int).name,
            );
            assert(false);
        }
        let t1 = s1.drop_first();
        let t2 = s2.drop_first();
        assert forall|a: int, b: int| 0 <= a < b < t1.len() implies #[trigger] le_pair(
            c,
            index,
            t1,
            a,
            b,
        ) by {
            assert(le_pair(c, index, s1, a + 1, b + 1));
        }
        assert forall|a: int, b: int| 0 <= a < b < t2.len() implies #[trigger] le_pair(
            c,
            index,
            t2,
            a,
            b,
        ) by {
            assert(le_pair(c, index, s2, a + 1, b + 1));
        }
        assert forall|a: int, b: int|
            0 <= a < b < t1.len() && #[trigger] le_pair(c, index, t1, b, a) implies lex_le(
            index.model(t1[a] as int).name,
            index.model(t1[b] as int).name,
        ) by {
            assert(le_pair(c, index, s1, b + 1, a + 1));
        }
        assert forall|a: int, b: int|
            0 <= a < b < t2.len() && #[trigger] le_pair(c, index, t2, b, a) implies lex_le(
            index.model(t2[a] as int).name,
            index.model(t2[b] as int).name,
        ) by {
            assert(le_pair(c, index, s2, b + 1, a + 1));
        }
        assert forall|v: usize| t1.contains(v) <==> t2.contains(v) by {
            if t1.contains(v) {
                let i = choose|i: int| 0 <= i < t1.len() && t1[i] == v;
                assert(s1[i + 1] == v);
                assert(s1.contains(v));
                assert(v != x);
                assert(s2.contains(v));
                let j = choose|j: int| 0 <= j < s2.len() && s2[j] == v;
                assert(j > 0);
                assert(t2[j - 1] == v);
                assert(t2.contains(v));
            }
            if t2.contains(v) {
                let i = choose|i: int| 0 <= i < t2.len() && t2[i] == v;
                assert(s2[i + 1] == v);
                assert(s2.contains(v));
                assert(v != y);
                assert(s1.contains(v));
                let j = choose|j: int| 0 <= j < s1.len() && s1[j] == v;
                assert(j > 0);
                assert(t1[j - 1] == v);
                assert(t1.contains(v));
            }
        }
        assert forall|v: usize, w: usize|
            #[trigger] t1.contains(v) && #[trigger] t1.contains(w) && v != w implies index.model(
            v as int,
        ).name != index.model(w as int).name by {
            let i = choose|i: int| 0 <= i < t1.len() && t1[i] == v;
            assert(s1[i + 1] == v);
            assert(s1.contains(v));
            let j = choose|j: int| 0 <= j < t1.len() && t1[j] == w;
            assert(s1[j + 1] == w);
            assert(s1.contains(w));
        }
        lemma_canonical_sort_unique(c, index, t1, t2);
        assert(s1.len() == s2.len());
        assert forall|i: int| 0 <= i < s1.len() implies s1[i] == s2[i] by {
            if i > 0 {
                assert(t1[i - 1] == s1[i]);
                assert(t2[i - 1] == s2[i]);
            }
        }
        assert(s1 =~= s2);
    }
}

/// The other sort order.
pub open spec fn flipped(c: SortCritera) -> SortCritera {
    match c {
        SortCritera::NameAsc => SortCritera::SizeDesc,
        SortCritera::SizeDesc => SortCritera::NameAsc,
    }
}

proof fn lemma_le_key_total(c: SortCritera, a: PackageModel, b: PackageModel)
    ensures
        le_key(c, a, b) || le_key(c, b, a),
{
    match c {
        SortCritera::NameAsc => lemma_lex_le_total(a.name, b.name),
        SortCritera::SizeDesc => {},
    }
}

proof fn lemma_le_key_trans(c: SortCritera, a: PackageModel, b: PackageModel, d: PackageModel)
    requires
        le_key(c, a, b),
        le_key(c, b, d),
    ensures
        le_key(c, a, d),
{
    match c {
        SortCritera::NameAsc => lemma_lex_le_trans(a.name, b.name, d.name),
        SortCritera::SizeDesc => {},
    }
}

/// Decides `le_key` for the records at positions `a` and `b`.
fn le_exec(c: SortCritera, index: &PackageIndex, a: usize, b: usize) -> (r: bool)
    requires
        a < index.packages@.len(),
        b < index.packages@.len(),
    ensures
        r == le_key(c, index.model(a as int), index.model(b as int)),
{
    match c {
        SortCritera::NameAsc => str_le(
            index.packages[a].name.as_str(),
            index.packages[b].name.as_str(),
        ),
        SortCritera::SizeDesc => {
            let sa: u64 = match index.packages[a].size {
                Some(s) => s,
                None => 0,
            };
            let sb: u64 = match index.packages[b].size {
                Some(s) => s,
                None => 0,
            };
            sb <= sa
        },
    }
}

impl SortCritera {
    /// Reorders `items` into this order by insertion, keeping exactly the
    /// same positions: the result is sorted and a permutation of the input.
    pub fn sort(&self, index: &PackageIndex, items: &mut Vec<usize>)
        requires
            forall|k: int|
                0 <= k < old(items)@.len() ==> (#[trigger] old(items)@[k])
                    < index.packages@.len(),
        ensures
            final(items)@.to_multiset() == old(items)@.to_multiset(),
            sorted_by(*self, *index, final(items)@),
            forall|k: int|
                0 <= k < final(items)@.len() ==> (#[trigger] final(items)@[k])
                    < index.packages@.len(),
            old(items)@.no_duplicates() ==> final(items)@.no_duplicates(),
            stable_ties(*self, *index, old(items)@, final(items)@),
    {
        let c = *self;
        let n_items = items.len();
        let ghost input = items@;
        let mut result: Vec<usize> = Vec::new();
        let mut i: usize = 0;
        proof {
            broadcast use vstd::seq_lib::group_to_multiset_ensures;

            assert(input.take(0) =~= Seq::<usize>::empty());
            assert(result@.to_multiset() =~= input.take(0).to_multiset());
        }
        while i < n_items
            invariant
                0 <= i <= n_items,
                n_items == input.len(),
                items@ == input,
                forall|k: int|
                    0 <= k < input.len() ==> (#[trigger] input[k]) < index.packages@.len(),
                result@.len() == i,
                result@.to_multiset() == input.take(i as int).to_multiset(),
                sorted_by(c, *index, result@),
                stable_ties(c, *index, input, result@),
                forall|k: int|
                    0 <= k < result@.len() ==> (#[trigger] result@[k]) < index.packages@.len(),
                forall|k: int|
                    0 <= k < result@.len() ==> exists|j: int|
                        0 <= j < i && input[j] == (#[trigger] result@[k]),
            decreases n_items - i,
        {
            let x = items[i];
            let mut p: usize = 0;
            while p < result.len() && le_exec(c, index, result[p], x)
                invariant
                    0 <= p <= result@.len(),
                    x < index.packages@.len(),
                    forall|k: int|
                        0 <= k < result@.len() ==> (#[trigger] result@[k])
                            < index.packages@.len(),
                    forall|k: int|
                        0 <= k < p ==> le_key(
                            c,
                            index.model(#[trigger] result@[k] as int),
                            index.model(x as int),
                        ),
                decreases result@.len() - p,
            {
                p = p + 1;
            }
            let ghost s = result@;
            proof {
                // every element at or after the insertion point is at least `x`
                if p < s.len() {
                    lemma_le_key_total(c, index.model(s[p as int] as int), index.model(x as int));
                }
                assert forall|k: int| p <= k < s.len() implies le_key(
                    c,
                    index.model(x as int),
                    index.model(#[trigger] s[k] as int),
                ) by {
                    if k > p {
                        assert(le_pair(c, *index, s, p as int, k));
                        lemma_le_key_trans(
                            c,
                            index.model(x as int),
                            index.model(s[p as int] as int),
                            index.model(s[k] as int),
                        );
                    }
                }
            }
            result.insert(p, x);
            proof {
                broadcast use vstd::seq_lib::group_to_multiset_ensures;

                s.insert_ensures(p as int, x);
                assert(result@ == s.insert(p as int, x));
                // sortedness of the extended prefix
                assert forall|a: int, b: int| 0 <= a < b < result@.len() implies #[trigger] le_pair(
                    c,
                    *index,
                    result@,
                    a,
                    b,
                ) by {
                    if b < p {
                        assert(le_pair(c, *index, s, a, b));
                    } else if a > p {
                        assert(le_pair(c, *index, s, a - 1, b - 1));
                    } else if a == p {
                        assert(result@[a] == x);
                        assert(result@[b] == s[b - 1]);
                    } else if b == p {
                        assert(result@[a] == s[a]);
                        assert(result@[b] == x);
                    } else {
                        // a < p < b
                        assert(result@[a] == s[a]);
                        assert(result@[b] == s[b - 1]);
                        if a == b - 1 {
                            assert(false);
                        } else {
                            assert(le_pair(c, *index, s, a, b - 1));
                        }
                    }
                }
                // stability of the extended prefix
                assert forall|a: int, b: int|
                    0 <= a < b < result@.len() && #[trigger] le_pair(
                        c,
                        *index,
                        result@,
                        b,
                        a,
                    ) implies precedes(input, result@[a], result@[b]) by {
                    if b < p {
                        assert(le_pair(c, *index, s, b, a));
                    } else if a > p {
                        assert(le_pair(c, *index, s, b - 1, a - 1));
                    } else if a == p {
                        // no tie can follow the insertion point
                        assert(result@[b] == s[b - 1]);
                        if b - 1 > p {
                            assert(le_pair(c, *index, s, p as int, b - 1));
                            lemma_le_key_trans(
                                c,
                                index.model(s[p as int] as int),
                                index.model(s[b - 1] as int),
                                index.model(x as int),
                            );
                        }
                        assert(false);
                    } else if b == p {
                        // an element kept before the new one came earlier
                        let j = choose|j: int| 0 <= j < i && input[j] == s[a];
                        assert(input[i as int] == x);
                    } else {
                        assert(le_pair(c, *index, s, b - 1, a));
                    }
                }
                // every kept element still comes from the consumed prefix
                assert forall|k: int| 0 <= k < result@.len() implies exists|j: int|
                    0 <= j < i + 1 && input[j] == (#[trigger] result@[k]) by {
                    if k == p {
                        assert(input[i as int] == result@[k]);
                    } else if k < p {
                        let j = choose|j: int| 0 <= j < i && input[j] == s[k];
                        assert(input[j] == result@[k]);
                    } else {
                        let j = choose|j: int| 0 <= j < i && input[j] == s[k - 1];
                        assert(input[j] == result@[k]);
                    }
                }
                // the permutation fact
                let left = s.subrange(0, p as int);
                let right = s.subrange(p as int, s.len() as int);
                vstd::seq_lib::lemma_multiset_commutative(left.push(x), right);
                vstd::seq_lib::lemma_multiset_commutative(left, right);
                assert(s =~= left + right);
                assert(left.push(x).to_multiset() =~= left.to_multiset().insert(x));
                assert(result@.to_multiset() =~= s.to_multiset().insert(x));
                assert(input.take(i + 1).drop_last() =~= input.take(i as int));
                assert(input.take(i + 1) =~= input.take(i as int).push(input[i as int]));
                assert(input.take(i + 1).to_multiset() =~= input.take(
                    i as int,
                ).to_multiset().insert(input[i as int]));
            }
            i = i + 1;
        }
        proof {
            assert(input.take(n_items as int) =~= input);
        }
        *items = result;
        proof {
            if old(items)@.no_duplicates() {
                old(items)@.lemma_multiset_has_no_duplicates();
                assert(forall|y: usize|
                    final(items)@.to_multiset().contains(y)
                        ==> final(items)@.to_multiset().count(y) == 1);
                final(items)@.lemma_multiset_has_no_duplicates_conv();
            }
        }
    }
}

/// The selection that fallback chooses when the previous record is gone:
/// the first entry if there is one.
pub open spec fn fallback_sel(items: Seq<usize>) -> Option<usize> {
    if items.len() > 0 {
        Option::Some(0usize)
    } else {
        Option::None
    }
}

/// The re-anchoring rule: if the previously selected record is still
/// present, `sel` is its first position; otherwise `sel` falls back to the
/// first entry, or `None` on an empty pane.
/// `k` is the first position in `items` that holds `p`.
pub open spec fn first_pos_of(items: Seq<usize>, p: usize, k: usize) -> bool {
    &&& k < items.len()
    &&& items[k as int] == p
    &&& forall|m: int| 0 <= m < k ==> items[m] != p
}

pub open spec fn anchored(items: Seq<usize>, previous: Option<usize>, sel: Option<usize>) -> bool {
    match previous {
        Option::Some(p) => {
            if items.contains(p) {
                match sel {
                    Option::Some(k) => first_pos_of(items, p, k),
                    Option::None => false,
                }
            } else {
                sel == fallback_sel(items)
            }
        },
        Option::None => sel == fallback_sel(items),
    }
}

/// Re-anchoring keeps the selection: with no duplicate entries, anchoring
/// to the record selected at position `i` selects position `i` again.
pub proof fn lemma_reanchor_idempotent(items: Seq<usize>, i: int, sel: Option<usize>)
    requires
        items.no_duplicates(),
        0 <= i < items.len(),
        anchored(items, Option::Some(items[i] as usize), sel),
    ensures
        sel == Option::Some(i as usize),
{
    assert(items.contains(items[i] as usize));
    match sel {
        Option::Some(k) => {
            if k as int != i {
                assert(items[k as int] == items[i]);
            }
        },
        Option::None => {},
    }
}

/// Computes the re-anchored selection for `items`.
fn anchor_scan(items: &Vec<usize>, previous: Option<usize>) -> (sel: Option<usize>)
    ensures
        anchored(items@, previous, sel),
{
    let fallback: Option<usize> = if items.len() > 0 {
        Some(0)
    } else {
        None
    };
    match previous {
        None => fallback,
        Some(p) => {
            let n = items.len();
            let mut k: usize = 0;
            while k < n
                invariant
                    n == items@.len(),
                    0 <= k <= n,
                    previous == Option::Some(p),
                    forall|m: int| 0 <= m < k ==> items@[m] != p,
                decreases n - k,
            {
                if items[k] == p {
                    proof {
                        assert(items@.contains(p));
                    }
                    return Some(k);
                }
                k = k + 1;
            }
            assert(!items@.contains(p));
            fallback
        },
    }
}

/// One of the three views: an ordered list of positions into the package
/// index with a single optional selection.
pub struct Pane {
    /// Whether this pane receives directional input.
    pub is_active: bool,
    /// The order the pane shows.
    pub sort_criteria: SortCritera,
    /// Positions into the package index, in display order.
    pub items: Vec<usize>,
    /// The selected entry, as an index into `items`.
    pub selection: Option<usize>,
}

/// Clamping of a moved selection to the valid range.
pub open spec fn clamp_idx(t: int, len: int) -> int {
    if t <= 0 {
        0
    } else if t >= len {
        len - 1
    } else {
        t
    }
}

/// How a selection moves by `delta` in a list of `len` entries.
pub open spec fn moved_sel(sel: Option<usize>, delta: int, len: int) -> Option<usize> {
    match sel {
        Option::Some(i) => Option::Some(clamp_idx(i + delta, len) as usize),
        Option::None => Option::None,
    }
}

impl Pane {
    /// Selection is `None` exactly on an empty pane, otherwise a valid
    /// position; all entries name records of an index of length `n`, each
    /// at most once.
    pub open spec fn wf(self, n: int) -> bool {
        &&& (self.selection is None <==> self.items@.len() == 0)
        &&& match self.selection {
            Option::Some(i) => i < self.items@.len(),
            Option::None => true,
        }
        &&& forall|k: int| 0 <= k < self.items@.len() ==> (#[trigger] self.items@[k]) < n
        &&& self.items@.no_duplicates()
    }

    /// The selected position into the package index, if any.
    pub open spec fn selected_item(self) -> Option<usize> {
        match self.selection {
            Option::Some(i) => Option::Some(self.items@[i as int]),
            Option::None => Option::None,
        }
    }

    /// An empty, inactive pane sorted by name.
    pub fn new() -> (r: Pane)
        ensures
            !r.is_active,
            r.sort_criteria == SortCritera::NameAsc,
            r.items@.len() == 0,
            r.selection is None,
    {
        Pane { is_active: false, sort_criteria: SortCritera::NameAsc, items: Vec::new(), selection: None }
    }

    /// The selected position into the package index, if any.
    pub fn selected(&self) -> (r: Option<usize>)
        requires
            match self.selection {
                Option::Some(i) => i < self.items@.len(),
                Option::None => true,
            },
        ensures
            r == self.selected_item(),
    {
        match self.selection {
            Some(i) => Some(self.items[i]),
            None => None,
        }
    }

    /// Shifts the selection by `delta`, clamped to the list; reports
    /// whether it moved.
    pub fn move_selection(&mut self, delta: isize) -> (changed: bool)
        requires
            match old(self).selection {
                Option::Some(i) => i < old(self).items@.len(),
                Option::None => true,
            },
        ensures
            final(self).items == old(self).items,
            final(self).sort_criteria == old(self).sort_criteria,
            final(self).is_active == old(self).is_active,
            final(self).selection == moved_sel(
                old(self).selection,
                delta as int,
                old(self).items@.len() as int,
            ),
            changed == (final(self).selection != old(self).selection),
    {
        match self.selection {
            None => false,
            Some(i) => {
                let len = self.items.len();
                let new: usize = if delta >= 0 {
                    let d = delta as usize;
                    let room = len - 1 - i;
                    if d >= room {
                        len - 1
                    } else {
                        i + d
                    }
                } else {
                    let mag = (-(delta + 1)) as usize + 1;
                    if mag >= i {
                        0
                    } else {
                        i - mag
                    }
                };
                proof {
                    assert(new == clamp_idx(i + delta, len as int));
                }
                let changed = new != i;
                self.selection = Some(new);
                changed
            },
        }
    }

    /// Moves the selection to the first entry; reports whether it moved.
    pub fn jump_to_start(&mut self) -> (changed: bool)
        ensures
            final(self).items == old(self).items,
            final(self).sort_criteria == old(self).sort_criteria,
            final(self).is_active == old(self).is_active,
            final(self).selection == (if old(self).items@.len() > 0 {
                Option::Some(0usize)
            } else {
                old(self).selection
            }),
            changed == (final(self).selection != old(self).selection),
    {
        if self.items.len() > 0 {
            let changed = match self.selection {
                Some(i) => i != 0,
                None => true,
            };
            self.selection = Some(0);
            changed
        } else {
            false
        }
    }

    /// Moves the selection to the last entry; reports whether it moved.
    pub fn jump_to_end(&mut self) -> (changed: bool)
        ensures
            final(self).items == old(self).items,
            final(self).sort_criteria == old(self).sort_criteria,
            final(self).is_active == old(self).is_active,
            final(self).selection == (if old(self).items@.len() > 0 {
                Option::Some((old(self).items@.len() - 1) as usize)
            } else {
                old(self).selection
            }),
            changed == (final(self).selection != old(self).selection),
    {
        let len = self.items.len();
        if len > 0 {
            let last = len - 1;
            let changed = match self.selection {
                Some(i) => i != last,
                None => true,
            };
            self.selection = Some(last);
            changed
        } else {
            false
        }
    }

    /// Replaces the whole content and re-anchors the selection to the
    /// previously selected record, per the re-anchoring rule.
    pub fn replace_items(&mut self, new_items: Vec<usize>, previous: Option<usize>)
        ensures
            final(self).items == new_items,
            final(self).sort_criteria == old(self).sort_criteria,
            final(self).is_active == old(self).is_active,
            anchored(new_items@, previous, final(self).selection),
            final(self).selection is None <==> new_items@.len() == 0,
            match final(self).selection {
                Option::Some(i) => i < new_items@.len(),
                Option::None => true,
            },
    {
        let sel = anchor_scan(&new_items, previous);
        self.items = new_items;
        self.selection = sel;
    }

    /// Re-anchors the selection to `previous` without touching the
    /// content.
    pub fn reanchor(&mut self, previous: Option<usize>)
        ensures
            final(self).items == old(self).items,
            final(self).sort_criteria == old(self).sort_criteria,
            final(self).is_active == old(self).is_active,
            anchored(old(self).items@, previous, final(self).selection),
            final(self).selection is None <==> old(self).items@.len() == 0,
            match final(self).selection {
                Option::Some(i) => i < old(self).items@.len(),
                Option::None => true,
            },
    {
        let sel = anchor_scan(&self.items, previous);
        self.selection = sel;
    }

    /// Flips the sort order, re-sorts the content, and re-anchors the
    /// selection: the same record stays selected.
    pub fn toggle_sort(&mut self, index: &PackageIndex)
        requires
            old(self).wf(index.packages@.len() as int),
        ensures
            final(self).wf(index.packages@.len() as int),
            final(self).is_active == old(self).is_active,
            final(self).sort_criteria == flipped(old(self).sort_criteria),
            final(self).items@.to_multiset() == old(self).items@.to_multiset(),
            sorted_by(final(self).sort_criteria, *index, final(self).items@),
            stable_ties(final(self).sort_criteria, *index, old(self).items@, final(self).items@),
            final(self).selected_item() == old(self).selected_item(),
    {
        let prev = self.selected();
        self.sort_criteria = match self.sort_criteria {
            SortCritera::NameAsc => SortCritera::SizeDesc,
            SortCritera::SizeDesc => SortCritera::NameAsc,
        };
        let c = self.sort_criteria;
        c.sort(index, &mut self.items);
        let sel = anchor_scan(&self.items, prev);
        self.selection = sel;
        proof {
            broadcast use vstd::seq_lib::group_to_multiset_ensures;

            match prev {
                Option::Some(p) => {
                    assert(old(self).items@.contains(p));
                    assert(old(self).items@.to_multiset().count(p) > 0);
                    assert(final(self).items@.contains(p));
                },
                Option::None => {
                    assert(old(self).items@.len() == 0);
                    assert(old(self).items@.to_multiset() =~= Multiset::<usize>::empty());
                    assert(final(self).items@.to_multiset().len() == 0);
                    assert(final(self).items@.len() == 0);
                },
            }
        }
    }
}

} // verus!
