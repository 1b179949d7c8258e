//! The type registry.
//!
//! A process-wide table, populated during startup, mapping each type name
//! to its wire kind and its human-readable description.  Every type name
//! used anywhere in a schema must resolve here; the registry refuses a
//! second registration under the same name.

use vstd::prelude::*;

use crate::bytes::bytes_eq;
use crate::errors::ConstructionError;
use crate::kinds::TypeKind;

verus! {

/// One registered type.
pub struct TypeEntry {
    pub name: Vec<u8>,
    pub kind: TypeKind,
    pub desc: Vec<u8>,
}

/// The registry: a table of registered types with pairwise distinct names.
pub struct TypeRegistry {
    entries: Vec<TypeEntry>,
}

/// First entry of `entries` whose name is `name`, as kind and description.
pub open spec fn resolve_in(entries: Seq<TypeEntry>, name: Seq<u8>) -> Option<(TypeKind, Seq<u8>)>
    decreases entries.len(),
{
    if entries.len() == 0 {
        None
    } else if entries[0].name@ == name {
        Some((entries[0].kind, entries[0].desc@))
    } else {
        resolve_in(entries.drop_first(), name)
    }
}

impl TypeRegistry {
    /// The registered entries, in registration order.
    pub closed spec fn entries(self) -> Seq<TypeEntry> {
        self.entries@
    }

    /// Names are pairwise distinct.
    pub open spec fn wf(self) -> bool {
        forall|i: int, j: int|
            0 <= i < j < self.entries().len() ==> self.entries()[i].name@
                != self.entries()[j].name@
    }

    /// The kind and description registered under `name`, if any.
    pub open spec fn spec_lookup(self, name: Seq<u8>) -> Option<(TypeKind, Seq<u8>)> {
        resolve_in(self.entries(), name)
    }

    /// The kind registered under `name`, if any.
    pub open spec fn spec_kind(self, name: Seq<u8>) -> Option<TypeKind> {
        match self.spec_lookup(name) {
            Some((k, d)) => Some(k),
            None => None,
        }
    }

    /// An empty registry.
    pub fn new() -> (r: TypeRegistry)
        ensures
            r.entries() == Seq::<TypeEntry>::empty(),
            r.wf(),
    {
        let r = TypeRegistry { entries: Vec::new() };
        proof {
            assert(r.entries() =~= Seq::<TypeEntry>::empty());
        }
        r
    }

    /// Registers a type; refuses a second registration of the same name.
    pub fn register(&mut self, name: Vec<u8>, kind: TypeKind, desc: Vec<u8>) -> (r: Result<
        (),
        ConstructionError,
    >)
        requires
            old(self).wf(),
        ensures
            final(self).wf(),
            r is Ok <==> old(self).spec_lookup(name@) is None,
            r is Ok ==> final(self).entries().len() == old(self).entries().len() + 1
                && final(self).entries().drop_last() == old(self).entries()
                && final(self).entries().last().name@ == name@
                && final(self).entries().last().kind == kind
                && final(self).entries().last().desc@ == desc@,
            r matches Err(e) ==> e matches ConstructionError::DuplicateType { name: tn }
                && tn@ == name@ && *final(self) == *old(self),
    {
        match self.find(&name) {
            Some(i) => Err(ConstructionError::DuplicateType { name }),
            None => {
                let ghost olde = self.entries@;
                self.entries.push(TypeEntry { name, kind, desc });
                proof {
                    assert(self.entries@.drop_last() =~= olde);
                    assert forall|i: int, j: int|
                        0 <= i < j < self.entries().len() implies self.entries()[i].name@
                        != self.entries()[j].name@ by {
                        if j == self.entries().len() - 1 {
                            lemma_resolve_none_all_differ(olde, self.entries@[j].name@, i);
                        }
                    }
                }
                Ok(())
            },
        }
    }

    /// Index of the entry registered under `name`, if any.
    fn find(&self, name: &Vec<u8>) -> (r: Option<usize>)
        ensures
            r is None <==> self.spec_lookup(name@) is None,
            r matches Some(i) ==> i < self.entries().len() && self.entries()[i as int].name@
                == name@ && self.spec_lookup(name@) == Some(
                (self.entries()[i as int].kind, self.entries()[i as int].desc@),
            ),
    {
        let mut j: usize = 0;
        proof {
            assert(self.entries().skip(0) =~= self.entries());
        }
        while j < self.entries.len()
            invariant
                j <= self.entries().len(),
                resolve_in(self.entries(), name@) == resolve_in(self.entries().skip(j as int), name@),
                forall|i: int| 0 <= i < j ==> self.entries()[i].name@ != name@,
            decreases self.entries().len() - j,
        {
            if bytes_eq(&self.entries[j].name, name) {
                proof {
                    assert(self.entries().skip(j as int)[0] == self.entries()[j as int]);
                }
                return Some(j);
            }
            proof {
                assert(self.entries().skip(j as int)[0] == self.entries()[j as int]);
                assert(self.entries().skip(j as int).drop_first() =~= self.entries().skip(
                    j as int + 1,
                ));
            }
            j = j + 1;
        }
        proof {
            assert(self.entries().skip(j as int) =~= Seq::<TypeEntry>::empty());
        }
        None
    }

    /// Resolves `name` to its registered entry.
    pub fn resolve(&self, name: &Vec<u8>) -> (r: Option<&TypeEntry>)
        ensures
            r is None <==> self.spec_lookup(name@) is None,
            r matches Some(e) ==> e.name@ == name@ && self.spec_lookup(name@) == Some(
                (e.kind, e.desc@),
            ),
    {
        match self.find(name) {
            Some(i) => Some(&self.entries[i]),
            None => None,
        }
    }
}

/// A name that differs from every entry's resolves to nothing.
pub proof fn lemma_resolve_none(entries: Seq<TypeEntry>, name: Seq<u8>)
    requires
        forall|i: int| 0 <= i < entries.len() ==> (#[trigger] entries[i]).name@ != name,
    ensures
        resolve_in(entries, name) is None,
    decreases entries.len(),
{
    if entries.len() > 0 {
        assert(entries[0].name@ != name);
        lemma_resolve_none(entries.drop_first(), name);
    }
}

/// The first entry carrying `name` is what the name resolves to.
pub proof fn lemma_resolve_found(entries: Seq<TypeEntry>, name: Seq<u8>, i: int)
    requires
        0 <= i < entries.len(),
        entries[i].name@ == name,
        forall|j: int| 0 <= j < i ==> (#[trigger] entries[j]).name@ != name,
    ensures
        resolve_in(entries, name) == Some((entries[i].kind, entries[i].desc@)),
    decreases entries.len(),
{
    if i > 0 {
        lemma_resolve_found(entries.drop_first(), name, i - 1);
    }
}

/// If `name` resolves to nothing in `entries`, it differs from every name.
pub proof fn lemma_resolve_none_all_differ(entries: Seq<TypeEntry>, name: Seq<u8>, i: int)
    requires
        resolve_in(entries, name) is None,
        0 <= i < entries.len(),
    ensures
        entries[i].name@ != name,
    decreases entries.len(),
{
    if i > 0 {
        lemma_resolve_none_all_differ(entries.drop_first(), name, i - 1);
    }
}

} // verus!
