//! The package index: all records of one load, with the derived dependant
//! graph.
//!
//! The index is built once and never mutated afterwards.  Construction
//! fails on a duplicate package name or on a record with an empty required
//! field; the graph maps every package position to the positions of the
//! packages that list its name as a required or optional dependency.

use vstd::prelude::*;

use crate::packages::{PackageDesc, PackageModel};
use crate::strutil::str_eq;

verus! {

/// Whether the record `m` lists `name` among its required or optional
/// dependencies.
pub open spec fn depends_on(m: PackageModel, name: Seq<char>) -> bool {
    (exists|k: int| 0 <= k < m.dependencies.len() && m.dependencies[k] == name) || (exists|k: int|
        0 <= k < m.optional_dependencies.len() && m.optional_dependencies[k].name == name)
}

/// Whether all required fields of `m` are non-empty.
pub open spec fn record_fields_ok(m: PackageModel) -> bool {
    m.name.len() > 0 && m.version.len() > 0 && m.description.len() > 0 && m.url.len() > 0
}

/// Whether no two records share a name.
pub open spec fn names_unique(packages: Seq<PackageDesc>) -> bool {
    forall|i: int, j: int|
        0 <= i < j < packages.len() ==> (#[trigger] packages[i]@.name) != (
        #[trigger] packages[j]@.name)
}

/// Why building a package index failed.
#[derive(Clone, Copy, Debug, PartialEq, Eq, Structural)]
pub enum IndexError {
    /// A record with an empty name, version, description or URL.
    EmptyField,
    /// Two records with the same name.
    DuplicateName,
}

/// The first construction failure found when scanning the records in
/// order from position `i`: an empty required field is reported before a
/// name that repeats an earlier one.
pub open spec fn first_bad(records: Seq<PackageDesc>, i: int) -> Option<IndexError>
    decreases records.len() - i,
{
    if i < 0 || i >= records.len() {
        Option::None
    } else if !record_fields_ok(records[i]@) {
        Option::Some(IndexError::EmptyField)
    } else if exists|j: int| 0 <= j < i && records[j]@.name == records[i]@.name {
        Option::Some(IndexError::DuplicateName)
    } else {
        first_bad(records, i + 1)
    }
}

proof fn lemma_first_bad_none(records: Seq<PackageDesc>, i: int)
    requires
        0 <= i <= records.len(),
        forall|a: int, b: int|
            0 <= a < b < i ==> (#[trigger] records[a]@.name) != (#[trigger] records[b]@.name),
        forall|k: int| 0 <= k < i ==> record_fields_ok(#[trigger] records[k]@),
    ensures
        first_bad(records, i) is None <==> (names_unique(records) && forall|k: int|
            0 <= k < records.len() ==> record_fields_ok(#[trigger] records[k]@)),
    decreases records.len() - i,
{
    if i < records.len() {
        if record_fields_ok(records[i]@) && !(exists|j: int|
            0 <= j < i && records[j]@.name == records[i]@.name) {
            lemma_first_bad_none(records, i + 1);
        }
    }
}

/// All records of one load, with the derived dependant graph.
#[derive(Debug)]
pub struct PackageIndex {
    /// The records, in the order they were supplied.
    pub packages: Vec<PackageDesc>,
    /// For each package position, the positions of the packages that
    /// depend on it.
    pub dependants: Vec<Vec<usize>>,
}

impl PackageIndex {
    /// The model of the record at position `j`.
    pub open spec fn model(self, j: int) -> PackageModel {
        self.packages@[j]@
    }

    /// The dependant list of position `i` holds exactly the positions of
    /// the packages whose dependencies name package `i`.
    pub open spec fn dependant_set_ok(self, i: int) -> bool {
        &&& self.dependants@[i]@.no_duplicates()
        &&& forall|j: usize|
            #[trigger] self.dependants@[i]@.contains(j) <==> (j < self.packages@.len()
                && depends_on(self.model(j as int), self.model(i).name))
    }

    /// Well-formedness: unique names, non-empty required fields, and a
    /// dependant graph that matches the records.
    pub open spec fn wf(self) -> bool {
        &&& names_unique(self.packages@)
        &&& forall|k: int|
            0 <= k < self.packages@.len() ==> record_fields_ok(#[trigger] self.packages@[k]@)
        &&& self.dependants@.len() == self.packages@.len()
        &&& forall|i: int| 0 <= i < self.packages@.len() ==> self.dependant_set_ok(i)
    }

    /// How many packages the index holds.
    pub fn len(&self) -> (r: usize)
        ensures
            r == self.packages@.len(),
    {
        self.packages.len()
    }

    /// The record at position `i`.
    pub fn get(&self, i: usize) -> (r: &PackageDesc)
        requires
            i < self.packages@.len(),
        ensures
            r == self.packages@[i as int],
    {
        &self.packages[i]
    }

    /// The position of the record named `name`, if any.
    pub fn find_by_name(&self, name: &str) -> (r: Option<usize>)
        ensures
            match r {
                Some(t) => t < self.packages@.len() && self.model(t as int).name == name@,
                None => forall|t: int|
                    0 <= t < self.packages@.len() ==> (#[trigger] self.model(t)).name != name@,
            },
    {
        let n = self.packages.len();
        let mut t: usize = 0;
        while t < n
            invariant
                n == self.packages@.len(),
                0 <= t <= n,
                forall|k: int| 0 <= k < t ==> (#[trigger] self.model(k)).name != name@,
            decreases n - t,
        {
            if str_eq(self.packages[t].name.as_str(), name) {
                return Some(t);
            }
            t = t + 1;
        }
        None
    }

    /// Builds the index from externally supplied records.  Fails exactly
    /// when a record has an empty required field or a name repeats, as
    /// `first_bad` names the first failure.
    pub fn new(records: Vec<PackageDesc>) -> (r: Result<PackageIndex, IndexError>)
        ensures
            match r {
                Result::Ok(idx) => first_bad(records@, 0) is None && idx.wf() && idx.packages@
                    == records@,
                Result::Err(e) => first_bad(records@, 0) == Option::Some(e),
            },
            r is Ok <==> (names_unique(records@) && forall|k: int|
                0 <= k < records@.len() ==> record_fields_ok(#[trigger] records@[k]@)),
    {
        let n = records.len();
        let mut i: usize = 0;
        while i < n
            invariant
                n == records@.len(),
                0 <= i <= n,
                first_bad(records@, 0) == first_bad(records@, i as int),
                forall|a: int, b: int|
                    0 <= a < b < i ==> (#[trigger] records@[a]@.name) != (
                    #[trigger] records@[b]@.name),
                forall|k: int| 0 <= k < i ==> record_fields_ok(#[trigger] records@[k]@),
            decreases n - i,
        {
            let rec = &records[i];
            if rec.name.as_str().is_empty() || rec.version.as_str().is_empty()
                || rec.description.as_str().is_empty() || rec.url.as_str().is_empty() {
                return Err(IndexError::EmptyField);
            }
            let mut j: usize = 0;
            while j < i
                invariant
                    n == records@.len(),
                    0 <= j <= i < n,
                    record_fields_ok(records@[i as int]@),
                    first_bad(records@, 0) == first_bad(records@, i as int),
                    forall|k: int| 0 <= k < j ==> (#[trigger] records@[k]@.name) != records@[
                        i as int
                    ]@.name,
                decreases i - j,
            {
                if str_eq(records[j].name.as_str(), records[i].name.as_str()) {
                    proof {
                        assert(records@[j as int]@.name == records@[i as int]@.name);
                        assert(exists|j2: int|
                            0 <= j2 < i && records@[j2]@.name == records@[i as int]@.name);
                        assert(record_fields_ok(records@[i as int]@));
                        assert(first_bad(records@, i as int) == Option::Some(
                            IndexError::DuplicateName,
                        ));
                    }
                    return Err(IndexError::DuplicateName);
                }
                j = j + 1;
            }
            i = i + 1;
        }
        proof {
            lemma_first_bad_none(records@, n as int);
        }
        let mut dependants: Vec<Vec<usize>> = Vec::new();
        let mut t: usize = 0;
        while t < n
            invariant
                n == records@.len(),
                0 <= t <= n,
                dependants@.len() == t,
                forall|i2: int|
                    0 <= i2 < t ==> ((#[trigger] dependants@[i2]@).no_duplicates() && forall|
                        j2: usize,
                    |
                        #[trigger] dependants@[i2]@.contains(j2) <==> (j2 < records@.len()
                            && depends_on(records@[j2 as int]@, records@[i2]@.name))),
            decreases n - t,
        {
            let ds = packages_depending_on(&records, records[t].name.as_str());
            dependants.push(ds);
            t = t + 1;
        }
        let idx = PackageIndex { packages: records, dependants };
        proof {
            lemma_first_bad_none(idx.packages@, n as int);
            assert(idx.wf());
        }
        Ok(idx)
    }
}

/// Whether `p` lists `name` among its dependencies, decided by scanning
/// both dependency lists.
pub fn depends_on_exec(p: &PackageDesc, name: &str) -> (r: bool)
    ensures
        r == depends_on(p@, name@),
{
    let nd = p.dependencies.len();
    let mut k: usize = 0;
    while k < nd
        invariant
            nd == p.dependencies@.len(),
            0 <= k <= nd,
            forall|m: int| 0 <= m < k ==> p@.dependencies[m] != name@,
        decreases nd - k,
    {
        if str_eq(p.dependencies[k].as_str(), name) {
            assert(p@.dependencies[k as int] == name@);
            return true;
        }
        k = k + 1;
    }
    let no = p.optional_dependencies.len();
    let mut k2: usize = 0;
    while k2 < no
        invariant
            no == p.optional_dependencies@.len(),
            0 <= k2 <= no,
            forall|m: int| 0 <= m < k2 ==> p@.optional_dependencies[m].name != name@,
        decreases no - k2,
    {
        if str_eq(p.optional_dependencies[k2].name.as_str(), name) {
            assert(p@.optional_dependencies[k2 as int].name == name@);
            return true;
        }
        k2 = k2 + 1;
    }
    assert(forall|m: int| 0 <= m < p@.dependencies.len() ==> p@.dependencies[m] != name@);
    false
}

/// The positions of all packages that list `name` as a dependency, in
/// ascending order and without duplicates.
pub fn packages_depending_on(packages: &Vec<PackageDesc>, name: &str) -> (r: Vec<usize>)
    ensures
        r@.no_duplicates(),
        forall|j: usize|
            #[trigger] r@.contains(j) <==> (j < packages@.len() && depends_on(
                packages@[j as int]@,
                name@,
            )),
{
    let n = packages.len();
    let mut r: Vec<usize> = Vec::new();
    let mut j: usize = 0;
    while j < n
        invariant
            n == packages@.len(),
            0 <= j <= n,
            r@.no_duplicates(),
            forall|x: usize|
                #[trigger] r@.contains(x) <==> (x < j && depends_on(
                    packages@[x as int]@,
                    name@,
                )),
        decreases n - j,
    {
        if depends_on_exec(&packages[j], name) {
            let ghost pre = r@;
            proof {
                broadcast use vstd::seq_lib::group_seq_properties;

                assert(!pre.contains(j));
            }
            r.push(j);
            proof {
                broadcast use vstd::seq_lib::group_seq_properties;

                assert(forall|x: usize|
                    #[trigger] r@.contains(x) <==> (pre.contains(x) || x == j));
            }
        }
        j = j + 1;
    }
    r
}

/// The positions of all packages that package `p` depends on, in
/// ascending order and without duplicates.
pub fn dependencies_of(packages: &Vec<PackageDesc>, p: usize) -> (r: Vec<usize>)
    requires
        p < packages@.len(),
    ensures
        r@.no_duplicates(),
        forall|j: usize|
            #[trigger] r@.contains(j) <==> (j < packages@.len() && depends_on(
                packages@[p as int]@,
                packages@[j as int]@.name,
            )),
{
    let n = packages.len();
    let target = &packages[p];
    let mut r: Vec<usize> = Vec::new();
    let mut j: usize = 0;
    while j < n
        invariant
            n == packages@.len(),
            p < n,
            target == packages@[p as int],
            0 <= j <= n,
            r@.no_duplicates(),
            forall|x: usize|
                #[trigger] r@.contains(x) <==> (x < j && depends_on(
                    packages@[p as int]@,
                    packages@[x as int]@.name,
                )),
        decreases n - j,
    {
        if depends_on_exec(target, packages[j].name.as_str()) {
            let ghost pre = r@;
            proof {
                broadcast use vstd::seq_lib::group_seq_properties;

                assert(!pre.contains(j));
            }
            r.push(j);
            proof {
                broadcast use vstd::seq_lib::group_seq_properties;

                assert(forall|x: usize|
                    #[trigger] r@.contains(x) <==> (pre.contains(x) || x == j));
            }
        }
        j = j + 1;
    }
    r
}

} // verus!
