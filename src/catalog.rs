//! The catalog: a name-keyed table of shared animation definitions, built once
//! from parsed records. A later record under an existing name replaces it.
use std::rc::Rc;
use vstd::prelude::*;

use crate::animation::{load_animation, load_error, loaded_frames, AnimationData, AnimationParams, LoadError};
use crate::geometry::SheetImage;

verus! {

/// One parsed record, under the name of the asset it came from.
pub struct AnimationRecord {
    pub name: String,
    pub params: AnimationParams,
}

/// A record that could not be loaded, and why.
#[derive(Debug)]
pub struct CatalogError {
    pub name: String,
    pub error: LoadError,
}

/// `d` is what the record `p` loads to against `images`, tagged `id`.
pub open spec fn describes(d: AnimationData, p: AnimationParams, images: Seq<SheetImage>, id: int) -> bool {
    &&& d.frames() == loaded_frames(p, images)
    &&& d.is_looping() == p.looping
    &&& d.id() == id
    &&& d.wf()
}

/// Position of the first of the first `n` records that does not load.
pub open spec fn first_failure(records: Seq<AnimationRecord>, images: Seq<SheetImage>, n: int) -> Option<int>
    decreases n,
{
    if n <= 0 {
        None
    } else {
        match first_failure(records, images, n - 1) {
            Some(k) => Some(k),
            None => if load_error(records[n - 1].params, images) is Some {
                Some(n - 1)
            } else {
                None
            },
        }
    }
}

/// Position of the last of the first `n` records named `name`.
pub open spec fn last_with_name(records: Seq<AnimationRecord>, name: Seq<char>, n: int) -> Option<int>
    decreases n,
{
    if n <= 0 {
        None
    } else if records[n - 1].name@ == name {
        Some(n - 1)
    } else {
        last_with_name(records, name, n - 1)
    }
}

/// What the catalog built from `records` holds under `name`: nothing when no
/// record has that name, else the definition of the last record with it,
/// tagged with that record's position.
pub open spec fn catalog_entry(
    entry: Option<AnimationData>,
    records: Seq<AnimationRecord>,
    images: Seq<SheetImage>,
    name: Seq<char>,
    n: int,
) -> bool {
    match last_with_name(records, name, n) {
        None => entry is None,
        Some(k) => entry matches Some(d) && describes(d, records[k].params, images, k),
    }
}

/// A read-only table from animation name to shared definition.
pub struct Catalog {
    names: Vec<String>,
    defs: Vec<Rc<AnimationData>>,
}

impl Catalog {
    /// Names and definitions pair up, names are distinct, and so are the
    /// definitions' ids.
    pub closed spec fn wf(&self) -> bool {
        &&& self.names@.len() == self.defs@.len()
        &&& forall|i: int, j: int|
            0 <= i < j < self.names@.len() ==> #[trigger] self.names@[i]@ != #[trigger] self.names@[j]@
        &&& forall|i: int, j: int|
            0 <= i < j < self.defs@.len() ==> (*#[trigger] self.defs@[i]).id() != (*#[trigger] self.defs@[j]).id()
        &&& forall|i: int| 0 <= i < self.defs@.len() ==> (*#[trigger] self.defs@[i]).wf()
    }

    /// The definition stored under `name`.
    pub closed spec fn lookup(&self, name: Seq<char>) -> Option<AnimationData> {
        if exists|i: int| 0 <= i < self.names@.len() && #[trigger] self.names@[i]@ == name {
            let i = choose|i: int| 0 <= i < self.names@.len() && #[trigger] self.names@[i]@ == name;
            Some(*self.defs@[i])
        } else {
            None
        }
    }

    proof fn lemma_lookup_at(&self, i: int)
        requires
            self.wf(),
            0 <= i < self.names@.len(),
        ensures
            self.lookup(self.names@[i]@) == Some(*self.defs@[i]),
    {
        let name = self.names@[i]@;
        assert(0 <= i < self.names@.len() && self.names@[i]@ == name);
        let j = choose|j: int| 0 <= j < self.names@.len() && #[trigger] self.names@[j]@ == name;
        if j < i {
            assert(self.names@[j]@ != self.names@[i]@);
        } else if i < j {
            assert(self.names@[i]@ != self.names@[j]@);
        }
    }

    /// Number of names in the table.
    pub closed spec fn size(&self) -> nat {
        self.names@.len()
    }

    /// Number of names in the table.
    pub fn len(&self) -> (r: usize)
        ensures
            r == self.size(),
    {
        self.names.len()
    }

    /// The shared definition stored under `name`, if any.
    pub fn get(&self, name: &String) -> (r: Option<Rc<AnimationData>>)
        requires
            self.wf(),
        ensures
            match self.lookup(name@) {
                None => r is None,
                Some(d) => r matches Some(x) && *x == d,
            },
    {
        let mut i: usize = 0;
        while i < self.names.len()
            invariant
                self.wf(),
                i <= self.names@.len(),
                forall|j: int| 0 <= j < i ==> #[trigger] self.names@[j]@ != name@,
            decreases self.names@.len() - i,
        {
            if self.names[i] == *name {
                proof {
                    self.lemma_lookup_at(i as int);
                }
                return Some(Rc::clone(&self.defs[i]));
            }
            i = i + 1;
        }
        None
    }

    /// Stores `data` under `name`, replacing what was there.
    fn insert(&mut self, name: String, data: AnimationData)
        requires
            old(self).wf(),
            data.wf(),
            forall|nm: Seq<char>| #[trigger] old(self).lookup(nm) matches Some(d) ==> d.id() != data.id(),
        ensures
            final(self).wf(),
            forall|nm: Seq<char>|
                #[trigger] final(self).lookup(nm) == if nm == name@ {
                    Some(data)
                } else {
                    old(self).lookup(nm)
                },
    {
        let ghost before = *self;
        assert forall|j: int| 0 <= j < before.defs@.len() implies (*#[trigger] before.defs@[j]).id() != data.id() by {
            before.lemma_lookup_at(j);
        }
        let mut i: usize = 0;
        while i < self.names.len()
            invariant
                *self == before,
                before == *old(self),
                before.wf(),
                data.wf(),
                forall|j: int| 0 <= j < before.defs@.len() ==> (*#[trigger] before.defs@[j]).id() != data.id(),
                i <= self.names@.len(),
                forall|j: int| 0 <= j < i ==> #[trigger] self.names@[j]@ != name@,
            decreases self.names@.len() - i,
        {
            if self.names[i] == name {
                self.defs.set(i, Rc::new(data));
                proof {
                    assert forall|a: int, b: int| 0 <= a < b < self.defs@.len() implies (*#[trigger] self.defs@[a]).id()
                        != (*#[trigger] self.defs@[b]).id() by {
                        if a != i && b != i {
                            assert(self.defs@[a] == before.defs@[a] && self.defs@[b] == before.defs@[b]);
                        } else if a != i {
                            assert(self.defs@[a] == before.defs@[a]);
                        } else {
                            assert(self.defs@[b] == before.defs@[b]);
                        }
                    }
                    assert forall|a: int| 0 <= a < self.defs@.len() implies (*#[trigger] self.defs@[a]).wf() by {
                        if a != i {
                            assert(self.defs@[a] == before.defs@[a]);
                        }
                    }
                    assert(self.wf());
                    assert forall|nm: Seq<char>|
                        #[trigger] self.lookup(nm) == if nm == name@ {
                            Some(data)
                        } else {
                            before.lookup(nm)
                        } by {
                        self.lemma_lookup_at(i as int);
                        assert(self.names@ == before.names@);
                        if nm != name@ {
                            if exists|j: int| 0 <= j < self.names@.len() && #[trigger] self.names@[j]@ == nm {
                                let j = choose|j: int| 0 <= j < self.names@.len() && #[trigger] self.names@[j]@ == nm;
                                self.lemma_lookup_at(j);
                                before.lemma_lookup_at(j);
                                assert(self.defs@[j] == before.defs@[j]);
                            }
                        }
                    }
                }
                return;
            }
            i = i + 1;
        }
        self.names.push(name);
        self.defs.push(Rc::new(data));
        proof {
            let n = before.names@.len() as int;
            assert forall|a: int, b: int| 0 <= a < b < self.names@.len() implies #[trigger] self.names@[a]@
                != #[trigger] self.names@[b]@ by {
                if b < n {
                    assert(self.names@[a] == before.names@[a] && self.names@[b] == before.names@[b]);
                } else {
                    assert(self.names@[a] == before.names@[a]);
                }
            }
            assert forall|a: int, b: int| 0 <= a < b < self.defs@.len() implies (*#[trigger] self.defs@[a]).id()
                != (*#[trigger] self.defs@[b]).id() by {
                if b < n {
                    assert(self.defs@[a] == before.defs@[a] && self.defs@[b] == before.defs@[b]);
                } else {
                    assert(self.defs@[a] == before.defs@[a]);
                }
            }
            assert forall|a: int| 0 <= a < self.defs@.len() implies (*#[trigger] self.defs@[a]).wf() by {
                if a < n {
                    assert(self.defs@[a] == before.defs@[a]);
                }
            }
            assert(self.wf());
            assert forall|nm: Seq<char>|
                #[trigger] self.lookup(nm) == if nm == name@ {
                    Some(data)
                } else {
                    before.lookup(nm)
                } by {
                self.lemma_lookup_at(n);
                if nm != name@ {
                    if exists|j: int| 0 <= j < self.names@.len() && #[trigger] self.names@[j]@ == nm {
                        let j = choose|j: int| 0 <= j < self.names@.len() && #[trigger] self.names@[j]@ == nm;
                        self.lemma_lookup_at(j);
                        before.lemma_lookup_at(j);
                    } else {
                        assert forall|j: int| 0 <= j < before.names@.len() implies #[trigger] before.names@[j]@ != nm by {
                            assert(self.names@[j] == before.names@[j]);
                        }
                    }
                }
            }
        }
    }
}

/// Builds the catalog from parsed records against the decoded sheets: each
/// record is loaded and stored under its name, a later record replacing an
/// earlier one of the same name. The first record that does not load stops the
/// build, and the error names it.
pub fn load_animations(records: &Vec<AnimationRecord>, images: &Vec<SheetImage>) -> (r: Result<Catalog, CatalogError>)
    requires
        forall|k: int| 0 <= k < images@.len() ==> (#[trigger] images@[k]).wf(),
    ensures
        match first_failure(records@, images@, records@.len() as int) {
            Some(k) => r matches Err(e) && e.name@ == records@[k].name@ && Some(e.error) == load_error(
                records@[k].params,
                images@,
            ),
            None => r matches Ok(c) && c.wf() && forall|nm: Seq<char>|
                catalog_entry(#[trigger] c.lookup(nm), records@, images@, nm, records@.len() as int),
        },
{
    let mut catalog = Catalog { names: Vec::new(), defs: Vec::new() };
    let mut i: usize = 0;
    while i < records.len()
        invariant
            forall|k: int| 0 <= k < images@.len() ==> (#[trigger] images@[k]).wf(),
            i <= records@.len(),
            catalog.wf(),
            first_failure(records@, images@, i as int) is None,
            forall|nm: Seq<char>| catalog_entry(#[trigger] catalog.lookup(nm), records@, images@, nm, i as int),
        decreases records@.len() - i,
    {
        let record = &records[i];
        match load_animation(&record.params, images, i as u64) {
            Ok(data) => {
                proof {
                    assert forall|nm: Seq<char>| (#[trigger] catalog.lookup(nm) matches Some(d) ==> d.id()
                        != data.id()) by {
                        assert(catalog_entry(catalog.lookup(nm), records@, images@, nm, i as int));
                        lemma_last_before(records@, nm, i as int);
                    }
                }
                catalog.insert(record.name.clone(), data);
                proof {
                    assert forall|nm: Seq<char>|
                        catalog_entry(#[trigger] catalog.lookup(nm), records@, images@, nm, i + 1) by {
                        if nm != records@[i as int].name@ {
                            assert(last_with_name(records@, nm, i + 1) == last_with_name(records@, nm, i as int));
                        }
                    }
                }
            },
            Err(error) => {
                proof {
                    lemma_failure_sticks(records@, images@, i + 1, records@.len() as int);
                }
                return Err(CatalogError { name: record.name.clone(), error });
            },
        }
        i = i + 1;
    }
    Ok(catalog)
}

proof fn lemma_last_before(records: Seq<AnimationRecord>, name: Seq<char>, n: int)
    ensures
        last_with_name(records, name, n) matches Some(k) ==> 0 <= k < n,
    decreases n,
{
    if n > 0 {
        lemma_last_before(records, name, n - 1);
    }
}

proof fn lemma_failure_sticks(records: Seq<AnimationRecord>, images: Seq<SheetImage>, m: int, n: int)
    requires
        first_failure(records, images, m) is Some,
        m <= n,
    ensures
        first_failure(records, images, n) == first_failure(records, images, m),
    decreases n - m,
{
    if m < n {
        lemma_failure_sticks(records, images, m, n - 1);
    }
}

/// Definitions stored under two different names of one catalog are told apart:
/// an instance of one is never an instance of the other.
pub proof fn lemma_distinct_names_distinct_ids(c: Catalog, n1: Seq<char>, n2: Seq<char>)
    requires
        c.wf(),
        n1 != n2,
        c.lookup(n1) is Some,
        c.lookup(n2) is Some,
    ensures
        c.lookup(n1).unwrap().id() != c.lookup(n2).unwrap().id(),
{
    let i = choose|i: int| 0 <= i < c.names@.len() && #[trigger] c.names@[i]@ == n1;
    let j = choose|j: int| 0 <= j < c.names@.len() && #[trigger] c.names@[j]@ == n2;
    c.lemma_lookup_at(i);
    c.lemma_lookup_at(j);
}

} // verus!
