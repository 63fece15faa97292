//! The navigator: three synchronized panes over one package index.
//!
//! The center pane shows the records passing the current filter in its own
//! sort order; the two side panes always show the dependants and the
//! dependencies of the record selected in the center.  Every intent keeps
//! the invariant `inv`: well-formed panes, exactly one of them active, the
//! center content matching the filter, and the side panes matching the
//! center selection.

use vstd::prelude::*;

use crate::index::{dependencies_of, depends_on, packages_depending_on, PackageIndex};
use crate::pane::{
    fallback_sel, filter_passes, lemma_canonical_sort_unique, moved_sel, sorted_by,
    ties_by_name, Filter, Pane, SortCritera,
};
use crate::packages::Reason;
use crate::strutil::{contains_seq, str_contains_chars};

verus! {

/// Which way a repeated search moves.
#[derive(Clone, Copy, Debug, PartialEq, Eq, Structural)]
pub enum SearchDirection {
    /// Towards the start of the list, wrapping at the top.
    Up,
    /// Towards the end of the list, wrapping at the bottom.
    Down,
}

/// The keys the navigator reacts to, as plain values.
#[derive(Clone, Copy, Debug, PartialEq, Eq, Structural)]
pub enum Key {
    Char(char),
    Left,
    Right,
    Up,
    Down,
    PageUp,
    PageDown,
    Enter,
    Backspace,
    Esc,
}

/// The other filter.
pub open spec fn toggled_filter(f: Filter) -> Filter {
    match f {
        Filter::All => Filter::Explicit,
        Filter::Explicit => Filter::All,
    }
}

/// Toggling twice restores the filter.
pub proof fn lemma_toggled_filter_involution(f: Filter)
    ensures
        toggled_filter(toggled_filter(f)) == f,
{
}

proof fn lemma_permutation_contains(a: Seq<usize>, b: Seq<usize>)
    requires
        a.to_multiset() == b.to_multiset(),
    ensures
        forall|x: usize| a.contains(x) <==> b.contains(x),
{
    broadcast use vstd::seq_lib::group_to_multiset_ensures;

    assert forall|x: usize| a.contains(x) <==> b.contains(x) by {
        assert(a.contains(x) <==> a.to_multiset().count(x) > 0);
        assert(b.contains(x) <==> b.to_multiset().count(x) > 0);
    }
}

/// The positions of all records passing `f`, ascending and without
/// duplicates.
fn filtered_indices(index: &PackageIndex, f: Filter) -> (r: Vec<usize>)
    ensures
        r@.no_duplicates(),
        forall|a: int, b: int| 0 <= a < b < r@.len() ==> r@[a] < r@[b],
        forall|j: usize|
            #[trigger] r@.contains(j) <==> (j < index.packages@.len() && filter_passes(
                f,
                index.model(j as int),
            )),
{
    let n = index.packages.len();
    let mut r: Vec<usize> = Vec::new();
    let mut j: usize = 0;
    while j < n
        invariant
            n == index.packages@.len(),
            0 <= j <= n,
            r@.no_duplicates(),
            forall|a: int, b: int| 0 <= a < b < r@.len() ==> r@[a] < r@[b],
            forall|k: int| 0 <= k < r@.len() ==> r@[k] < j,
            forall|x: usize|
                #[trigger] r@.contains(x) <==> (x < j && filter_passes(f, index.model(x as int))),
        decreases n - j,
    {
        if f.filter(&index.packages[j]) {
            let ghost pre = r@;
            proof {
                broadcast use vstd::seq_lib::group_seq_properties;

                assert(!pre.contains(j));
            }
            r.push(j);
            proof {
                broadcast use vstd::seq_lib::group_seq_properties;

                assert(forall|x: usize| #[trigger] r@.contains(x) <==> (pre.contains(x) || x == j));
            }
        }
        j = j + 1;
    }
    r
}

/// The whole navigation state.
pub struct App {
    /// The package index with its dependant graph; never mutated.
    pub index: PackageIndex,
    /// The left pane: what depends on the centered record.
    pub dependants_pane: Pane,
    /// The center pane: the filterable list of all records.
    pub center: Pane,
    /// The right pane: what the centered record depends on.
    pub dependencies_pane: Pane,
    /// Which pane receives directional input: 0, 1 or 2.
    pub active_column: usize,
    /// Whether the help block is shown.
    pub show_help: bool,
    /// Which records the center pane shows.
    pub filter: Filter,
    /// Whether the user is composing a search term.
    pub searching: bool,
    /// The active search term.
    pub search: Vec<char>,
}

impl App {
    /// How many packages the index holds.
    pub open spec fn n(self) -> int {
        self.index.packages@.len() as int
    }

    /// The pane at column `i`.
    pub open spec fn pane_of(self, i: int) -> Pane {
        if i == 0 {
            self.dependants_pane
        } else if i == 1 {
            self.center
        } else {
            self.dependencies_pane
        }
    }

    /// Well-formed panes, a valid active column, and exactly the pane of
    /// the active column marked active.
    pub open spec fn panes_wf(self) -> bool {
        &&& self.index.wf()
        &&& self.dependants_pane.wf(self.n())
        &&& self.center.wf(self.n())
        &&& self.dependencies_pane.wf(self.n())
        &&& self.active_column < 3
        &&& (self.dependants_pane.is_active <==> self.active_column == 0)
        &&& (self.center.is_active <==> self.active_column == 1)
        &&& (self.dependencies_pane.is_active <==> self.active_column == 2)
    }

    /// The center pane holds exactly the records passing the filter, in
    /// its own sort order.
    pub open spec fn center_synced(self) -> bool {
        &&& forall|j: usize|
            #[trigger] self.center.items@.contains(j) <==> (j < self.n() && filter_passes(
                self.filter,
                self.index.model(j as int),
            ))
        &&& sorted_by(self.center.sort_criteria, self.index, self.center.items@)
    }

    /// What the side panes must hold when the center selects `package`:
    /// the dependants and the dependencies of that record, each in the
    /// side pane's own sort order; nothing when nothing is selected.
    pub open spec fn sides_synced_for(self, package: Option<usize>) -> bool {
        match package {
            Option::Some(p) => {
                &&& forall|j: usize|
                    #[trigger] self.dependants_pane.items@.contains(j) <==> (j < self.n()
                        && depends_on(self.index.model(j as int), self.index.model(p as int).name))
                &&& forall|j: usize|
                    #[trigger] self.dependencies_pane.items@.contains(j) <==> (j < self.n()
                        && depends_on(self.index.model(p as int), self.index.model(j as int).name))
                &&& sorted_by(
                    self.dependants_pane.sort_criteria,
                    self.index,
                    self.dependants_pane.items@,
                )
                &&& sorted_by(
                    self.dependencies_pane.sort_criteria,
                    self.index,
                    self.dependencies_pane.items@,
                )
            },
            Option::None => self.dependants_pane.items@.len() == 0
                && self.dependencies_pane.items@.len() == 0,
        }
    }

    /// The side panes match the current center selection.
    pub open spec fn sides_synced(self) -> bool {
        self.sides_synced_for(self.center.selected_item())
    }

    /// Both side panes select their first entry, or nothing when empty:
    /// the state right after a side-pane recomputation, which never
    /// preserves a side selection.
    pub open spec fn sides_selection_reset(self) -> bool {
        &&& self.dependants_pane.selection == fallback_sel(self.dependants_pane.items@)
        &&& self.dependencies_pane.selection == fallback_sel(self.dependencies_pane.items@)
    }

    /// The navigator invariant, kept by every intent.
    pub open spec fn inv(self) -> bool {
        self.panes_wf() && self.center_synced() && self.sides_synced()
    }

    /// Recomputes both side panes for the record at position `package`,
    /// resetting their selections to the first entry.
    fn update_sides(&mut self, package: Option<usize>)
        requires
            old(self).index.wf(),
            old(self).dependants_pane.wf(old(self).n()),
            old(self).dependencies_pane.wf(old(self).n()),
            match package {
                Option::Some(p) => p < old(self).n(),
                Option::None => true,
            },
        ensures
            final(self).index == old(self).index,
            final(self).center == old(self).center,
            final(self).active_column == old(self).active_column,
            final(self).show_help == old(self).show_help,
            final(self).filter == old(self).filter,
            final(self).searching == old(self).searching,
            final(self).search == old(self).search,
            final(self).dependants_pane.is_active == old(self).dependants_pane.is_active,
            final(self).dependants_pane.sort_criteria == old(self).dependants_pane.sort_criteria,
            final(self).dependencies_pane.is_active == old(self).dependencies_pane.is_active,
            final(self).dependencies_pane.sort_criteria == old(
                self,
            ).dependencies_pane.sort_criteria,
            final(self).dependants_pane.wf(final(self).n()),
            final(self).dependencies_pane.wf(final(self).n()),
            final(self).sides_synced_for(package),
            final(self).sides_selection_reset(),
    {
        match package {
            None => {
                self.dependants_pane.replace_items(Vec::new(), None);
                self.dependencies_pane.replace_items(Vec::new(), None);
            },
            Some(p) => {
                let mut left_items = packages_depending_on(
                    &self.index.packages,
                    self.index.packages[p].name.as_str(),
                );
                proof {
                    assert forall|k: int| 0 <= k < left_items@.len() implies (
                    #[trigger] left_items@[k]) < self.index.packages@.len() by {
                        assert(left_items@.contains(left_items@[k]));
                    }
                }
                let ghost left_pre = left_items@;
                let lc = self.dependants_pane.sort_criteria;
                lc.sort(&self.index, &mut left_items);
                proof {
                    lemma_permutation_contains(left_pre, left_items@);
                }
                self.dependants_pane.replace_items(left_items, None);

                let mut right_items = dependencies_of(&self.index.packages, p);
                proof {
                    assert forall|k: int| 0 <= k < right_items@.len() implies (
                    #[trigger] right_items@[k]) < self.index.packages@.len() by {
                        assert(right_items@.contains(right_items@[k]));
                    }
                }
                let ghost right_pre = right_items@;
                let rc = self.dependencies_pane.sort_criteria;
                rc.sort(&self.index, &mut right_items);
                proof {
                    lemma_permutation_contains(right_pre, right_items@);
                }
                self.dependencies_pane.replace_items(right_items, None);
            },
        }
    }

    /// Switches the center pane to `filter`: its content is recomputed
    /// from the whole index, sorted by its current order, the selection
    /// re-anchored to the previously selected record, and the side panes
    /// recomputed.  A previously selected record that passes the new
    /// filter stays selected.
    pub fn apply_center_filter(&mut self, filter: Filter)
        requires
            old(self).panes_wf(),
        ensures
            final(self).inv(),
            final(self).filter == filter,
            final(self).index == old(self).index,
            final(self).active_column == old(self).active_column,
            final(self).show_help == old(self).show_help,
            final(self).searching == old(self).searching,
            final(self).search == old(self).search,
            final(self).center.sort_criteria == old(self).center.sort_criteria,
            final(self).center.is_active == old(self).center.is_active,
            final(self).dependants_pane.sort_criteria == old(self).dependants_pane.sort_criteria,
            final(self).dependencies_pane.sort_criteria == old(
                self,
            ).dependencies_pane.sort_criteria,
            final(self).sides_selection_reset(),
            ties_by_name(
                final(self).center.sort_criteria,
                final(self).index,
                final(self).center.items@,
            ),
            crate::pane::anchored(
                final(self).center.items@,
                old(self).center.selected_item(),
                final(self).center.selection,
            ),
            match old(self).center.selected_item() {
                Option::Some(p) => filter_passes(filter, old(self).index.model(p as int))
                    ==> final(self).center.selected_item() == Option::Some(p),
                Option::None => true,
            },
    {
        self.filter = filter;
        let prev = self.center.selected();
        let mut new_items = filtered_indices(&self.index, filter);
        proof {
            assert forall|k: int| 0 <= k < new_items@.len() implies (#[trigger] new_items@[k])
                < self.index.packages@.len() by {
                assert(new_items@.contains(new_items@[k]));
            }
        }
        let ghost base = new_items@;
        let name_order = SortCritera::NameAsc;
        name_order.sort(&self.index, &mut new_items);
        let ghost pre = new_items@;
        proof {
            lemma_permutation_contains(base, pre);
        }
        let c = self.center.sort_criteria;
        c.sort(&self.index, &mut new_items);
        proof {
            lemma_permutation_contains(pre, new_items@);
        }
        self.center.replace_items(new_items, prev);
        proof {
            assert forall|k: int| 0 <= k < self.center.items@.len() implies (
            #[trigger] self.center.items@[k]) < self.index.packages@.len() by {
                assert(self.center.items@.contains(self.center.items@[k]));
            }
            let items = self.center.items@;
            assert forall|a: int, b: int|
                0 <= a < b < items.len() && #[trigger] crate::pane::le_pair(
                    c,
                    self.index,
                    items,
                    b,
                    a,
                ) implies crate::strutil::lex_le(
                self.index.model(items[a] as int).name,
                self.index.model(items[b] as int).name,
            ) by {
                assert(crate::pane::precedes(pre, items[a], items[b]));
                let (ix, iy) = choose|ix: int, iy: int|
                    0 <= ix < iy < pre.len() && pre[ix] == items[a] && pre[iy] == items[b];
                assert(crate::pane::le_pair(SortCritera::NameAsc, self.index, pre, ix, iy));
            }
        }
        let sel = self.center.selected();
        self.update_sides(sel);
    }

    /// Builds the navigator: the center pane active, sorted by name,
    /// filtered to explicitly installed packages, the side panes derived
    /// from its first entry, and the help block shown.
    pub fn new(index: PackageIndex) -> (r: App)
        requires
            index.wf(),
        ensures
            r.inv(),
            r.index == index,
            r.center.selection == fallback_sel(r.center.items@),
            r.sides_selection_reset(),
            ties_by_name(r.center.sort_criteria, r.index, r.center.items@),
            r.filter == Filter::Explicit,
            r.active_column == 1,
            r.show_help,
            !r.searching,
            r.search@.len() == 0,
            r.center.sort_criteria == SortCritera::NameAsc,
            r.dependants_pane.sort_criteria == SortCritera::NameAsc,
            r.dependencies_pane.sort_criteria == SortCritera::NameAsc,
    {
        let mut center = Pane::new();
        center.is_active = true;
        let mut app = App {
            index,
            dependants_pane: Pane::new(),
            center,
            dependencies_pane: Pane::new(),
            active_column: 1,
            show_help: true,
            filter: Filter::All,
            searching: false,
            search: Vec::new(),
        };
        app.apply_center_filter(Filter::Explicit);
        app
    }

    /// Makes column `new` the active pane; content is untouched.
    pub fn change_active_column(&mut self, new: usize)
        requires
            old(self).inv(),
            new < 3,
        ensures
            final(self).inv(),
            final(self).active_column == new,
            final(self).index == old(self).index,
            final(self).filter == old(self).filter,
            final(self).searching == old(self).searching,
            final(self).search == old(self).search,
            final(self).show_help == old(self).show_help,
            final(self).center.items == old(self).center.items,
            final(self).center.selection == old(self).center.selection,
            final(self).center.sort_criteria == old(self).center.sort_criteria,
            final(self).dependants_pane.items == old(self).dependants_pane.items,
            final(self).dependants_pane.selection == old(self).dependants_pane.selection,
            final(self).dependants_pane.sort_criteria == old(self).dependants_pane.sort_criteria,
            final(self).dependencies_pane.items == old(self).dependencies_pane.items,
            final(self).dependencies_pane.selection == old(self).dependencies_pane.selection,
            final(self).dependencies_pane.sort_criteria == old(
                self,
            ).dependencies_pane.sort_criteria,
    {
        self.dependants_pane.is_active = new == 0;
        self.center.is_active = new == 1;
        self.dependencies_pane.is_active = new == 2;
        self.active_column = new;
    }

    /// Moves the selection of the active pane by `delta`; a changed center
    /// selection recomputes the side panes.
    pub fn move_in_active(&mut self, delta: isize) -> (changed: bool)
        requires
            old(self).inv(),
        ensures
            final(self).inv(),
            final(self).index == old(self).index,
            final(self).filter == old(self).filter,
            final(self).searching == old(self).searching,
            final(self).search == old(self).search,
            final(self).show_help == old(self).show_help,
            final(self).active_column == old(self).active_column,
            ({
                let a = old(self).active_column as int;
                &&& final(self).pane_of(a).items == old(self).pane_of(a).items
                &&& final(self).pane_of(a).selection == moved_sel(
                    old(self).pane_of(a).selection,
                    delta as int,
                    old(self).pane_of(a).items@.len() as int,
                )
                &&& changed == (final(self).pane_of(a).selection != old(self).pane_of(
                    a,
                ).selection)
                &&& final(self).center.sort_criteria == old(self).center.sort_criteria
                &&& final(self).dependants_pane.sort_criteria == old(
                    self,
                ).dependants_pane.sort_criteria
                &&& final(self).dependencies_pane.sort_criteria == old(
                    self,
                ).dependencies_pane.sort_criteria
                &&& (a != 1 ==> final(self).center == old(self).center)
                &&& (a == 0 ==> final(self).dependencies_pane == old(self).dependencies_pane)
                &&& (a == 2 ==> final(self).dependants_pane == old(self).dependants_pane)
                &&& (a == 1 && changed ==> final(self).sides_selection_reset())
                &&& (a == 1 && !changed ==> final(self).dependants_pane == old(
                    self,
                ).dependants_pane && final(self).dependencies_pane == old(
                    self,
                ).dependencies_pane)
            }),
    {
        if self.active_column == 0 {
            self.dependants_pane.move_selection(delta)
        } else if self.active_column == 1 {
            let ch = self.center.move_selection(delta);
            if ch {
                let sel = self.center.selected();
                self.update_sides(sel);
            }
            ch
        } else {
            self.dependencies_pane.move_selection(delta)
        }
    }

    /// Moves the selection of the active pane to the first entry.
    pub fn jump_start_active(&mut self) -> (changed: bool)
        requires
            old(self).inv(),
        ensures
            final(self).inv(),
            final(self).index == old(self).index,
            final(self).filter == old(self).filter,
            final(self).searching == old(self).searching,
            final(self).search == old(self).search,
            final(self).show_help == old(self).show_help,
            final(self).active_column == old(self).active_column,
            ({
                let a = old(self).active_column as int;
                &&& final(self).pane_of(a).items == old(self).pane_of(a).items
                &&& final(self).pane_of(a).selection == (if old(self).pane_of(a).items@.len() > 0 {
                    Option::Some(0usize)
                } else {
                    old(self).pane_of(a).selection
                })
                &&& changed == (final(self).pane_of(a).selection != old(self).pane_of(
                    a,
                ).selection)
                &&& final(self).center.sort_criteria == old(self).center.sort_criteria
                &&& final(self).dependants_pane.sort_criteria == old(
                    self,
                ).dependants_pane.sort_criteria
                &&& final(self).dependencies_pane.sort_criteria == old(
                    self,
                ).dependencies_pane.sort_criteria
                &&& (a != 1 ==> final(self).center == old(self).center)
                &&& (a == 0 ==> final(self).dependencies_pane == old(self).dependencies_pane)
                &&& (a == 2 ==> final(self).dependants_pane == old(self).dependants_pane)
                &&& (a == 1 && changed ==> final(self).sides_selection_reset())
                &&& (a == 1 && !changed ==> final(self).dependants_pane == old(
                    self,
                ).dependants_pane && final(self).dependencies_pane == old(
                    self,
                ).dependencies_pane)
            }),
    {
        if self.active_column == 0 {
            self.dependants_pane.jump_to_start()
        } else if self.active_column == 1 {
            let ch = self.center.jump_to_start();
            if ch {
                let sel = self.center.selected();
                self.update_sides(sel);
            }
            ch
        } else {
            self.dependencies_pane.jump_to_start()
        }
    }

    /// Moves the selection of the active pane to the last entry.
    pub fn jump_end_active(&mut self) -> (changed: bool)
        requires
            old(self).inv(),
        ensures
            final(self).inv(),
            final(self).index == old(self).index,
            final(self).filter == old(self).filter,
            final(self).searching == old(self).searching,
            final(self).search == old(self).search,
            final(self).show_help == old(self).show_help,
            final(self).active_column == old(self).active_column,
            ({
                let a = old(self).active_column as int;
                &&& final(self).pane_of(a).items == old(self).pane_of(a).items
                &&& final(self).pane_of(a).selection == (if old(self).pane_of(a).items@.len() > 0 {
                    Option::Some((old(self).pane_of(a).items@.len() - 1) as usize)
                } else {
                    old(self).pane_of(a).selection
                })
                &&& changed == (final(self).pane_of(a).selection != old(self).pane_of(
                    a,
                ).selection)
                &&& final(self).center.sort_criteria == old(self).center.sort_criteria
                &&& final(self).dependants_pane.sort_criteria == old(
                    self,
                ).dependants_pane.sort_criteria
                &&& final(self).dependencies_pane.sort_criteria == old(
                    self,
                ).dependencies_pane.sort_criteria
                &&& (a != 1 ==> final(self).center == old(self).center)
                &&& (a == 0 ==> final(self).dependencies_pane == old(self).dependencies_pane)
                &&& (a == 2 ==> final(self).dependants_pane == old(self).dependants_pane)
                &&& (a == 1 && changed ==> final(self).sides_selection_reset())
                &&& (a == 1 && !changed ==> final(self).dependants_pane == old(
                    self,
                ).dependants_pane && final(self).dependencies_pane == old(
                    self,
                ).dependencies_pane)
            }),
    {
        if self.active_column == 0 {
            self.dependants_pane.jump_to_end()
        } else if self.active_column == 1 {
            let ch = self.center.jump_to_end();
            if ch {
                let sel = self.center.selected();
                self.update_sides(sel);
            }
            ch
        } else {
            self.dependencies_pane.jump_to_end()
        }
    }

    /// Flips the sort order of the active pane and re-sorts it; the
    /// selected record stays selected, so no side pane changes.
    pub fn toggle_sort_active(&mut self)
        requires
            old(self).inv(),
        ensures
            final(self).inv(),
            final(self).index == old(self).index,
            final(self).filter == old(self).filter,
            final(self).searching == old(self).searching,
            final(self).search == old(self).search,
            final(self).show_help == old(self).show_help,
            final(self).active_column == old(self).active_column,
            ({
                let a = old(self).active_column as int;
                &&& final(self).pane_of(a).sort_criteria == crate::pane::flipped(
                    old(self).pane_of(a).sort_criteria,
                )
                &&& final(self).pane_of(a).items@.to_multiset() == old(self).pane_of(
                    a,
                ).items@.to_multiset()
                &&& sorted_by(
                    final(self).pane_of(a).sort_criteria,
                    final(self).index,
                    final(self).pane_of(a).items@,
                )
                &&& final(self).pane_of(a).selected_item() == old(self).pane_of(
                    a,
                ).selected_item()
                &&& (a != 1 ==> final(self).center == old(self).center)
                &&& (a == 0 ==> final(self).dependencies_pane == old(self).dependencies_pane)
                &&& (a == 2 ==> final(self).dependants_pane == old(self).dependants_pane)
                &&& (a == 1 ==> final(self).dependants_pane == old(self).dependants_pane
                    && final(self).dependencies_pane == old(self).dependencies_pane)
            }),
    {
        if self.active_column == 0 {
            let ghost pre = self.dependants_pane.items@;
            self.dependants_pane.toggle_sort(&self.index);
            proof {
                lemma_permutation_contains(pre, self.dependants_pane.items@);
            }
        } else if self.active_column == 1 {
            let ghost pre = self.center.items@;
            self.center.toggle_sort(&self.index);
            proof {
                lemma_permutation_contains(pre, self.center.items@);
            }
        } else {
            let ghost pre = self.dependencies_pane.items@;
            self.dependencies_pane.toggle_sort(&self.index);
            proof {
                lemma_permutation_contains(pre, self.dependencies_pane.items@);
            }
        }
    }

    /// Switches the filter to the other setting and recomputes the center
    /// pane; a previously selected record that passes the new filter stays
    /// selected.
    pub fn toggle_filter(&mut self)
        requires
            old(self).inv(),
        ensures
            final(self).inv(),
            final(self).filter == toggled_filter(old(self).filter),
            final(self).index == old(self).index,
            final(self).active_column == old(self).active_column,
            final(self).show_help == old(self).show_help,
            final(self).searching == old(self).searching,
            final(self).search == old(self).search,
            final(self).center.sort_criteria == old(self).center.sort_criteria,
            final(self).dependants_pane.sort_criteria == old(self).dependants_pane.sort_criteria,
            final(self).dependencies_pane.sort_criteria == old(
                self,
            ).dependencies_pane.sort_criteria,
            final(self).sides_selection_reset(),
            ties_by_name(
                final(self).center.sort_criteria,
                final(self).index,
                final(self).center.items@,
            ),
            match old(self).center.selected_item() {
                Option::Some(p) => filter_passes(
                    toggled_filter(old(self).filter),
                    old(self).index.model(p as int),
                ) ==> final(self).center.selected_item() == Option::Some(p),
                Option::None => true,
            },
    {
        let f = match self.filter {
            Filter::All => Filter::Explicit,
            Filter::Explicit => Filter::All,
        };
        self.apply_center_filter(f);
    }

    /// Promotes the record selected in a side pane to the center: if it is
    /// a dependency-installed record hidden by the explicit-only filter,
    /// the filter is forced to `All` first; the center selection moves to
    /// that record and the side panes follow.  A no-op when the center is
    /// active or the side pane is empty.
    pub fn change_center_package(&mut self)
        requires
            old(self).inv(),
        ensures
            final(self).inv(),
            final(self).index == old(self).index,
            final(self).show_help == old(self).show_help,
            final(self).searching == old(self).searching,
            final(self).search == old(self).search,
            final(self).active_column == old(self).active_column,
            final(self).center.sort_criteria == old(self).center.sort_criteria,
            final(self).dependants_pane.sort_criteria == old(self).dependants_pane.sort_criteria,
            final(self).dependencies_pane.sort_criteria == old(
                self,
            ).dependencies_pane.sort_criteria,
            old(self).active_column == 1 ==> *final(self) == *old(self),
            ({
                let a = old(self).active_column as int;
                a != 1 ==> match old(self).pane_of(a).selected_item() {
                    Option::Some(p) => {
                        &&& final(self).filter == (if old(self).index.model(
                            p as int,
                        ).reason is Dependency && old(self).filter is Explicit {
                            Filter::All
                        } else {
                            old(self).filter
                        })
                        &&& final(self).center.selected_item() == Option::Some(p)
                        &&& final(self).sides_selection_reset()
                    },
                    Option::None => *final(self) == *old(self),
                }
            }),
    {
        if self.active_column == 1 {
            return ;
        }
        let sel = if self.active_column == 0 {
            self.dependants_pane.selected()
        } else {
            self.dependencies_pane.selected()
        };
        let p = match sel {
            Some(p) => p,
            None => {
                return ;
            },
        };
        proof {
            let a = old(self).active_column as int;
            match old(self).pane_of(a).selection {
                Option::Some(i) => {
                    assert(old(self).pane_of(a).items@[i as int] < old(self).n());
                },
                Option::None => {},
            }
        }
        let is_dep = match self.index.packages[p].reason {
            Reason::Dependency => true,
            Reason::Explicit => false,
        };
        let is_explicit_filter = match self.filter {
            Filter::Explicit => true,
            Filter::All => false,
        };
        if is_dep && is_explicit_filter {
            self.apply_center_filter(Filter::All);
        }
        proof {
            assert(self.center.items@.contains(p));
        }
        self.center.reanchor(Some(p));
        let sel2 = self.center.selected();
        self.update_sides(sel2);
    }

    /// Scans the center pane circularly for the next record whose name
    /// contains the search term, excluding the current selection, and
    /// selects it; the side panes follow.  A no-op reporting `false` when
    /// the term is empty, nothing is selected, or nothing matches.
    pub fn search(&mut self, direction: SearchDirection) -> (changed: bool)
        requires
            old(self).inv(),
        ensures
            final(self).inv(),
            final(self).index == old(self).index,
            final(self).filter == old(self).filter,
            final(self).searching == old(self).searching,
            final(self).search == old(self).search,
            final(self).show_help == old(self).show_help,
            final(self).active_column == old(self).active_column,
            final(self).center.items == old(self).center.items,
            final(self).center.sort_criteria == old(self).center.sort_criteria,
            final(self).dependants_pane.sort_criteria == old(self).dependants_pane.sort_criteria,
            final(self).dependencies_pane.sort_criteria == old(
                self,
            ).dependencies_pane.sort_criteria,
            match old(self).center.selection {
                Option::Some(i) => {
                    if old(self).search@.len() == 0 {
                        *final(self) == *old(self) && !changed
                    } else {
                        match first_hit(
                            old(self).index,
                            old(self).center.items@,
                            i as int,
                            old(self).search@,
                            direction,
                            1,
                        ) {
                            Option::Some(pos) => final(self).center.selection == Option::Some(
                                pos as usize,
                            ) && changed && final(self).sides_selection_reset(),
                            Option::None => *final(self) == *old(self) && !changed,
                        }
                    }
                },
                Option::None => *final(self) == *old(self) && !changed,
            },
    {
        if self.search.len() == 0 {
            return false;
        }
        let i = match self.center.selection {
            Some(i) => i,
            None => {
                return false;
            },
        };
        let len = self.center.items.len();
        let mut k: usize = 1;
        while k < len
            invariant
                *self == *old(self),
                old(self).inv(),
                self.center.selection == Option::Some(i),
                old(self).search@.len() > 0,
                len == self.center.items@.len(),
                i < len,
                1 <= k <= len,
                first_hit(
                    self.index,
                    self.center.items@,
                    i as int,
                    self.search@,
                    direction,
                    1,
                ) == first_hit(
                    self.index,
                    self.center.items@,
                    i as int,
                    self.search@,
                    direction,
                    k as int,
                ),
            decreases len - k,
        {
            let pos: usize = match direction {
                SearchDirection::Down => if k < len - i {
                    i + k
                } else {
                    k - (len - i)
                },
                SearchDirection::Up => if k <= i {
                    i - k
                } else {
                    len - (k - i)
                },
            };
            proof {
                assert(pos as int == probe(i as int, k as int, len as int, direction));
                assert(pos < len);
            }
            let item = self.center.items[pos];
            if str_contains_chars(self.index.packages[item].name.as_str(), &self.search) {
                self.center.selection = Some(pos);
                let sel = self.center.selected();
                self.update_sides(sel);
                return true;
            }
            k = k + 1;
        }
        false
    }

    /// Applies one key press: search entry when composing a term, else
    /// navigation, sort, filter, search and help intents; reports whether
    /// the application should quit.
    pub fn event(&mut self, key: Key) -> (quit: bool)
        requires
            old(self).inv(),
        ensures
            final(self).inv(),
            final(self).index == old(self).index,
            quit == (!old(self).searching && (key == Key::Char('q') || key == Key::Char('c'))),
            quit ==> *final(self) == *old(self),
            final(self).searching == (if old(self).searching {
                !(key == Key::Esc || key == Key::Enter)
            } else {
                key == Key::Char('/')
            }),
            final(self).search@ == (if old(self).searching {
                match key {
                    Key::Char(c) => old(self).search@.push(c),
                    Key::Backspace => if old(self).search@.len() > 0 {
                        old(self).search@.drop_last()
                    } else {
                        old(self).search@
                    },
                    Key::Esc => Seq::<char>::empty(),
                    _ => old(self).search@,
                }
            } else if key == Key::Char('/') {
                Seq::<char>::empty()
            } else {
                old(self).search@
            }),
            (!old(self).searching && key == Key::Char('e')) ==> final(self).filter
                == toggled_filter(old(self).filter),
            final(self).show_help == (if !old(self).searching && key == Key::Char('?') {
                !old(self).show_help
            } else {
                old(self).show_help
            }),
            (old(self).searching && key != Key::Enter) ==> (final(self).center == old(self).center
                && final(self).dependants_pane == old(self).dependants_pane
                && final(self).dependencies_pane == old(self).dependencies_pane
                && final(self).active_column == old(self).active_column
                && final(self).filter == old(self).filter),
            (!old(self).searching && key == Key::Left) ==> final(self).active_column == (
            if old(self).active_column > 0 {
                (old(self).active_column - 1) as usize
            } else {
                0usize
            }),
            (!old(self).searching && key == Key::Right) ==> final(self).active_column == (
            if old(self).active_column < 2 {
                (old(self).active_column + 1) as usize
            } else {
                2usize
            }),
            (!old(self).searching && (key == Key::Backspace || key == Key::Esc)) ==> *final(self)
                == *old(self),
            (!old(self).searching && (key == Key::Up || key == Key::Down || key == Key::PageUp
                || key == Key::PageDown)) ==> ({
                let a = old(self).active_column as int;
                let delta: int = if key == Key::Up {
                    -1
                } else if key == Key::Down {
                    1
                } else if key == Key::PageUp {
                    -10
                } else {
                    10
                };
                &&& final(self).pane_of(a).items == old(self).pane_of(a).items
                &&& final(self).pane_of(a).selection == moved_sel(
                    old(self).pane_of(a).selection,
                    delta,
                    old(self).pane_of(a).items@.len() as int,
                )
                &&& (a == 1 && final(self).center.selection != old(self).center.selection
                    ==> final(self).sides_selection_reset())
                &&& (a == 1 && final(self).center.selection == old(self).center.selection
                    ==> final(self).dependants_pane == old(self).dependants_pane && final(self).dependencies_pane == old(self).dependencies_pane)
                &&& (a != 1 ==> final(self).center == old(self).center)
            }),
            (!old(self).searching && (key == Key::Char('1') || key == Key::Char('0'))) ==> ({
                let a = old(self).active_column as int;
                &&& final(self).pane_of(a).items == old(self).pane_of(a).items
                &&& (a == 1 && final(self).center.selection != old(self).center.selection
                    ==> final(self).sides_selection_reset())
                &&& (a == 1 && final(self).center.selection == old(self).center.selection
                    ==> final(self).dependants_pane == old(self).dependants_pane && final(self).dependencies_pane == old(self).dependencies_pane)
                &&& (a != 1 ==> final(self).center == old(self).center)
            }),
            (!old(self).searching && key == Key::Char('s')) ==> ({
                let a = old(self).active_column as int;
                &&& final(self).pane_of(a).sort_criteria == crate::pane::flipped(
                    old(self).pane_of(a).sort_criteria,
                )
                &&& final(self).pane_of(a).selected_item() == old(self).pane_of(
                    a,
                ).selected_item()
            }),
            (!old(self).searching && key == Key::Char('1')) ==> ({
                let a = old(self).active_column as int;
                final(self).pane_of(a).selection == (if old(self).pane_of(a).items@.len() > 0 {
                    Option::Some(0usize)
                } else {
                    old(self).pane_of(a).selection
                })
            }),
            (!old(self).searching && key == Key::Char('0')) ==> ({
                let a = old(self).active_column as int;
                final(self).pane_of(a).selection == (if old(self).pane_of(a).items@.len() > 0 {
                    Option::Some((old(self).pane_of(a).items@.len() - 1) as usize)
                } else {
                    old(self).pane_of(a).selection
                })
            }),
            (old(self).searching || (key != Key::Char('e') && key != Key::Enter)) ==> final(self).filter == old(self).filter,
            (old(self).searching && key == Key::Enter) ==> final(self).active_column == 1,
            (!old(self).searching && (key == Key::Char('n') || key == Key::Char('N'))) ==> final(self).active_column == 1,
            ((old(self).searching && key != Key::Enter) || (!old(self).searching && key
                != Key::Left && key != Key::Right && key != Key::Char('n') && key != Key::Char(
                'N',
            ))) ==> final(self).active_column == old(self).active_column,
            (!old(self).searching && (key == Key::Left || key == Key::Right)) ==> (final(self).center.items == old(self).center.items && final(self).center.selection == old(
                self,
            ).center.selection && final(self).center.sort_criteria == old(
                self,
            ).center.sort_criteria && final(self).dependants_pane.items == old(
                self,
            ).dependants_pane.items && final(self).dependants_pane.selection == old(
                self,
            ).dependants_pane.selection && final(self).dependants_pane.sort_criteria == old(
                self,
            ).dependants_pane.sort_criteria && final(self).dependencies_pane.items == old(
                self,
            ).dependencies_pane.items && final(self).dependencies_pane.selection == old(
                self,
            ).dependencies_pane.selection && final(self).dependencies_pane.sort_criteria == old(
                self,
            ).dependencies_pane.sort_criteria),
            (!old(self).searching && key == Key::Enter) ==> ({
                let a = old(self).active_column as int;
                &&& (a == 1 ==> *final(self) == *old(self))
                &&& (a != 1 ==> match old(self).pane_of(a).selected_item() {
                    Option::Some(p) => {
                        &&& final(self).filter == (if old(self).index.model(
                            p as int,
                        ).reason is Dependency && old(self).filter is Explicit {
                            Filter::All
                        } else {
                            old(self).filter
                        })
                        &&& final(self).center.selected_item() == Option::Some(p)
                        &&& final(self).sides_selection_reset()
                    },
                    Option::None => *final(self) == *old(self),
                })
            }),
            (old(self).searching && key == Key::Enter) ==> (final(self).center.items == old(
                self,
            ).center.items && search_outcome(*old(self), *final(self), SearchDirection::Down)),
            (!old(self).searching && key == Key::Char('n')) ==> (final(self).center.items == old(
                self,
            ).center.items && search_outcome(*old(self), *final(self), SearchDirection::Down)),
            (!old(self).searching && key == Key::Char('N')) ==> (final(self).center.items == old(
                self,
            ).center.items && search_outcome(*old(self), *final(self), SearchDirection::Up)),
            (!old(self).searching && key == Key::Char('s')) ==> ({
                let a = old(self).active_column as int;
                &&& (a == 1 ==> final(self).dependants_pane == old(self).dependants_pane
                    && final(self).dependencies_pane == old(self).dependencies_pane)
                &&& (a != 1 ==> final(self).center == old(self).center)
            }),
            (!old(self).searching && key == Key::Char('e')) ==> final(self).sides_selection_reset(),
            (!old(self).searching && (match key {
                Key::Char(c) => c != '/' && c != 'n' && c != 'N' && c != 'q' && c != 'c' && c
                    != '1' && c != '0' && c != 's' && c != 'e' && c != '?',
                _ => false,
            })) ==> *final(self) == *old(self),
    {
        if self.searching {
            match key {
                Key::Char(c) => {
                    self.search.push(c);
                    return false;
                },
                Key::Backspace => {
                    if self.search.len() > 0 {
                        self.search.pop();
                    }
                    return false;
                },
                Key::Esc => {
                    self.searching = false;
                    self.search.clear();
                    return false;
                },
                Key::Enter => {
                    self.searching = false;
                    self.change_active_column(1);
                    let _ = self.search(SearchDirection::Down);
                    return false;
                },
                _ => {
                    return false;
                },
            }
        }
        match key {
            Key::Char(c) => {
                if c == '/' {
                    self.searching = true;
                    self.search.clear();
                    false
                } else if c == 'n' {
                    self.change_active_column(1);
                    let _ = self.search(SearchDirection::Down);
                    false
                } else if c == 'N' {
                    self.change_active_column(1);
                    let _ = self.search(SearchDirection::Up);
                    false
                } else if c == 'q' || c == 'c' {
                    true
                } else if c == '1' {
                    let _ = self.jump_start_active();
                    false
                } else if c == '0' {
                    let _ = self.jump_end_active();
                    false
                } else if c == 's' {
                    self.toggle_sort_active();
                    false
                } else if c == 'e' {
                    self.toggle_filter();
                    false
                } else if c == '?' {
                    self.show_help = !self.show_help;
                    false
                } else {
                    false
                }
            },
            Key::Left => {
                let cur = self.active_column;
                let new: usize = if cur > 0 {
                    cur - 1
                } else {
                    0
                };
                self.change_active_column(new);
                false
            },
            Key::Right => {
                let cur = self.active_column;
                let new: usize = if cur < 2 {
                    cur + 1
                } else {
                    2
                };
                self.change_active_column(new);
                false
            },
            Key::Up => {
                let _ = self.move_in_active(-1);
                false
            },
            Key::PageUp => {
                let _ = self.move_in_active(-10);
                false
            },
            Key::Down => {
                let _ = self.move_in_active(1);
                false
            },
            Key::PageDown => {
                let _ = self.move_in_active(10);
                false
            },
            Key::Enter => {
                self.change_center_package();
                false
            },
            Key::Backspace => false,
            Key::Esc => false,
        }
    }
}

/// Where a circular scan that starts at `sel` probes after `k` steps in
/// `dir`, in a list of `len` entries.
pub open spec fn probe(sel: int, k: int, len: int, dir: SearchDirection) -> int {
    match dir {
        SearchDirection::Down => if sel + k < len {
            sel + k
        } else {
            sel + k - len
        },
        SearchDirection::Up => if sel - k >= 0 {
            sel - k
        } else {
            sel + len - k
        },
    }
}

/// Whether the record shown at position `pos` has `term` in its name.
pub open spec fn name_matches(
    index: PackageIndex,
    items: Seq<usize>,
    pos: int,
    term: Seq<char>,
) -> bool {
    contains_seq(index.model(items[pos] as int).name, term)
}

/// The position selected by a circular search from `sel`: the first probe
/// at offsets `k`, `k + 1`, ... below `items.len()` whose record name
/// contains `term`, or `None` when the scan is exhausted.  The scan never
/// probes offset zero, so the current selection is excluded.
pub open spec fn first_hit(
    index: PackageIndex,
    items: Seq<usize>,
    sel: int,
    term: Seq<char>,
    dir: SearchDirection,
    k: int,
) -> Option<int>
    decreases items.len() - k,
{
    if k < 1 || k >= items.len() {
        Option::None
    } else if name_matches(index, items, probe(sel, k, items.len() as int, dir), term) {
        Option::Some(probe(sel, k, items.len() as int, dir))
    } else {
        first_hit(index, items, sel, term, dir, k + 1)
    }
}

/// What running the circular search in `dir` on the state `pre` leaves
/// behind: the first hit selected with the side panes reset, or the center
/// selection unchanged when the term is empty, nothing is selected, or
/// nothing matches.
pub open spec fn search_outcome(pre: App, post: App, dir: SearchDirection) -> bool {
    match pre.center.selection {
        Option::Some(i) => {
            if pre.search@.len() == 0 {
                post.center.selection == pre.center.selection
            } else {
                match first_hit(pre.index, pre.center.items@, i as int, pre.search@, dir, 1) {
                    Option::Some(pos) => post.center.selection == Option::Some(pos as usize)
                        && post.sides_selection_reset(),
                    Option::None => post.center.selection == pre.center.selection,
                }
            }
        },
        Option::None => post.center.selection == pre.center.selection,
    }
}

/// For every pane: the selection is `None` exactly when the pane is
/// empty, and otherwise a valid position — after any sequence of intents,
/// since each intent keeps `inv`.
pub proof fn lemma_selection_invariant(app: App, i: int)
    requires
        app.inv(),
        0 <= i < 3,
    ensures
        app.pane_of(i).selection is None <==> app.pane_of(i).items@.len() == 0,
        match app.pane_of(i).selection {
            Option::Some(k) => k < app.pane_of(i).items@.len(),
            Option::None => true,
        },
{
}

/// Exactly one of the three panes is active — after any sequence of
/// intents, since each intent keeps `inv`.
pub proof fn lemma_single_active_pane(app: App)
    requires
        app.inv(),
    ensures
        exists|i: int| 0 <= i < 3 && (#[trigger] app.pane_of(i)).is_active,
        forall|i: int, j: int|
            0 <= i < j < 3 ==> !((#[trigger] app.pane_of(i)).is_active && (
            #[trigger] app.pane_of(j)).is_active),
{
    assert(app.pane_of(app.active_column as int).is_active);
}

/// Toggling the filter twice restores the set of records the center pane
/// shows: two invariant-holding states over the same index with the same
/// filter — as after a double `toggle_filter`, whose `ensures` flips the
/// filter each time — hold exactly the same center items.
pub proof fn lemma_filter_round_trip(a: App, b: App)
    requires
        a.inv(),
        b.inv(),
        b.index == a.index,
        b.filter == a.filter,
    ensures
        forall|j: usize| a.center.items@.contains(j) <==> b.center.items@.contains(j),
{
}

/// Toggling the filter twice restores the center items in their exact
/// order, ties included: after any `apply_center_filter` the center holds
/// the canonical order (`ties_ascending`, in its ensures), and two
/// invariant-holding states over the same index with the same filter, the
/// same sort order and canonical tie order hold identical center items.
pub proof fn lemma_filter_round_trip_order(a: App, b: App)
    requires
        a.inv(),
        b.inv(),
        b.index == a.index,
        b.filter == a.filter,
        b.center.sort_criteria == a.center.sort_criteria,
        ties_by_name(a.center.sort_criteria, a.index, a.center.items@),
        ties_by_name(b.center.sort_criteria, b.index, b.center.items@),
    ensures
        a.center.items@ == b.center.items@,
{
    assert forall|x: usize| a.center.items@.contains(x) <==> b.center.items@.contains(x) by {}
    lemma_canonical_sort_unique(
        a.center.sort_criteria,
        a.index,
        a.center.items@,
        b.center.items@,
    );
}

/// Dependant/dependency consistency: when package `p` depends on package
/// `d`, centering `d` shows `p` in the dependants pane, and centering `p`
/// shows `d` in the dependencies pane.
pub proof fn lemma_dependant_dependency_consistency(app: App, p: usize, d: usize)
    requires
        app.inv(),
        p < app.n(),
        d < app.n(),
        depends_on(app.index.model(p as int), app.index.model(d as int).name),
    ensures
        app.center.selected_item() == Option::Some(d) ==> app.dependants_pane.items@.contains(p),
        app.center.selected_item() == Option::Some(p) ==> app.dependencies_pane.items@.contains(
            d,
        ),
{
}

} // verus!
