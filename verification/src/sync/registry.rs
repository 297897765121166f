//! Registries of the component, resource and prefab types that are synced.
use std::collections::HashMap;
use vstd::prelude::*;

use crate::bytes;

verus! {

broadcast use vstd::std_specs::hash::group_hash_axioms;

/// Metadata of one synced type. `H` holds the callbacks of the engine that
/// the type is registered with.
#[derive(Debug)]
pub struct Registration<H> {
    /// Stable type path for diagnostics and registry lookup.
    pub type_path: &'static str,
    /// Stable wire identifier of the type.
    pub wire_id: u64,
    /// What the engine does with values of the type.
    pub handlers: H,
}

impl<H: Copy> Copy for Registration<H> {

}

impl<H: Copy> Clone for Registration<H> {
    fn clone(&self) -> (copy: Self)
        ensures
            copy == *self,
    {
        *self
    }
}

/// Metadata for a syncable component type.
pub type ComponentRegistration<H> = Registration<H>;

/// Metadata for a syncable resource type.
pub type ResourceRegistration<H> = Registration<H>;

/// Metadata for a prefab definition used to spawn visuals remotely.
pub type PrefabRegistration<H> = Registration<H>;

/// Registrations found by wire identifier or by type path.
#[derive(Debug)]
#[verifier::reject_recursive_types(H)]
pub struct RegistrationTable<H> {
    by_wire_id: HashMap<u64, Registration<H>>,
    by_type_path: Vec<Registration<H>>,
}

/// What a [`RegistrationTable`] holds.
#[verifier::ext_equal]
#[verifier::reject_recursive_types(H)]
pub struct TableView<H> {
    pub by_wire_id: Map<u64, Registration<H>>,
    pub by_type_path: Map<Seq<char>, Registration<H>>,
}

impl<H> TableView<H> {
    /// The table without registrations.
    pub open spec fn empty() -> TableView<H> {
        TableView { by_wire_id: Map::empty(), by_type_path: Map::empty() }
    }

    /// The table after a registration. It replaces what was registered under
    /// the same wire identifier, and under the same type path.
    pub open spec fn register(self, registration: Registration<H>) -> TableView<H> {
        TableView {
            by_wire_id: self.by_wire_id.insert(registration.wire_id, registration),
            by_type_path: self.by_type_path.insert(registration.type_path@, registration),
        }
    }

    /// The table after several registrations in order.
    pub open spec fn register_all(self, registrations: Seq<Registration<H>>) -> TableView<H>
        decreases registrations.len(),
    {
        if registrations.len() == 0 {
            self
        } else {
            self.register_all(registrations.drop_last()).register(registrations.last())
        }
    }

    /// The registration under a wire identifier.
    pub open spec fn lookup(self, wire_id: u64) -> Option<Registration<H>> {
        if self.by_wire_id.dom().contains(wire_id) {
            Some(self.by_wire_id[wire_id])
        } else {
            None
        }
    }

    /// Whether each registration stands under its own wire identifier and
    /// type path.
    pub open spec fn keyed(self) -> bool {
        &&& self.by_wire_id.dom().finite()
        &&& forall|wire_id: u64| #[trigger]
            self.by_wire_id.dom().contains(wire_id) ==> self.by_wire_id[wire_id].wire_id == wire_id
        &&& forall|path: Seq<char>| #[trigger]
            self.by_type_path.dom().contains(path) ==> self.by_type_path[path].type_path@ == path
    }
}

/// Whether `list` holds each registration under a wire identifier once.
pub open spec fn enumerates<H>(list: Seq<Registration<H>>, table: TableView<H>) -> bool {
    &&& list.len() == table.by_wire_id.dom().len()
    &&& forall|i: int, j: int|
        0 <= i < j < list.len() ==> #[trigger] list[i].wire_id != #[trigger] list[j].wire_id
    &&& forall|i: int|
        0 <= i < list.len() ==> table.lookup(#[trigger] list[i].wire_id) == Some(list[i])
    &&& forall|wire_id: u64| #[trigger]
        table.by_wire_id.dom().contains(wire_id) ==> list.contains(table.by_wire_id[wire_id])
}

/// Whether some entry of the list has the type path.
spec fn listed<H>(list: Seq<Registration<H>>, path: Seq<char>) -> bool {
    exists|i: int| 0 <= i < list.len() && #[trigger] list[i].type_path@ == path
}

/// The place of the entry with the type path.
spec fn place<H>(list: Seq<Registration<H>>, path: Seq<char>) -> int {
    choose|i: int| 0 <= i < list.len() && #[trigger] list[i].type_path@ == path
}

/// Whether no two entries of the list have the same type path.
spec fn distinct_paths<H>(list: Seq<Registration<H>>) -> bool {
    forall|i: int, j: int|
        0 <= i < list.len() && 0 <= j < list.len() && #[trigger] list[i].type_path@
            == #[trigger] list[j].type_path@ ==> i == j
}

impl<H> View for RegistrationTable<H> {
    type V = TableView<H>;

    closed spec fn view(&self) -> TableView<H> {
        TableView {
            by_wire_id: self.by_wire_id@,
            by_type_path: Map::new(
                |path: Seq<char>| listed(self.by_type_path@, path),
                |path: Seq<char>| self.by_type_path@[place(self.by_type_path@, path)],
            ),
        }
    }
}

impl<H: Copy> RegistrationTable<H> {
    /// Whether the table holds one registration per type path.
    pub closed spec fn wf(&self) -> bool {
        &&& distinct_paths(self.by_type_path@)
        &&& self@.keyed()
    }

    /// Creates an empty table.
    pub fn new() -> (table: Self)
        ensures
            table.wf(),
            table@ == TableView::<H>::empty(),
    {
        let table = RegistrationTable { by_wire_id: HashMap::new(), by_type_path: Vec::new() };
        assert(table@ =~= TableView::<H>::empty());
        table
    }

    /// Registers one type.
    pub fn register(&mut self, registration: Registration<H>)
        requires
            old(self).wf(),
        ensures
            final(self).wf(),
            final(self)@ == old(self)@.register(registration),
    {
        self.by_wire_id.insert(registration.wire_id, registration);
        let ghost before = self.by_type_path@;
        let mut index: usize = 0;
        while index < self.by_type_path.len() && !bytes::text_equal(
            self.by_type_path[index].type_path,
            registration.type_path,
        )
            invariant
                index <= before.len(),
                self.by_type_path@ == before,
                self.by_wire_id@ == old(self).by_wire_id@.insert(
                    registration.wire_id,
                    registration,
                ),
                forall|i: int|
                    0 <= i < index ==> #[trigger] before[i].type_path@ != registration.type_path@,
            decreases before.len() - index,
        {
            index = index + 1;
        }
        if index < self.by_type_path.len() {
            self.by_type_path.set(index, registration);
        } else {
            self.by_type_path.push(registration);
        }
        let ghost after = self.by_type_path@;
        proof {
            let path = registration.type_path@;
            assert(after[index as int].type_path@ == path);
            assert forall|i: int| 0 <= i < before.len() && i != index implies #[trigger] after[i]
                == before[i] by {}
            assert forall|i: int|
                0 <= i < after.len() && #[trigger] after[i].type_path@ == path implies i
                == index by {
                if i < before.len() && i != index {
                    assert(before[i].type_path@ == path);
                }
            }
            assert(distinct_paths(after)) by {
                assert forall|i: int, j: int|
                    0 <= i < after.len() && 0 <= j < after.len() && #[trigger] after[i].type_path@
                        == #[trigger] after[j].type_path@ implies i == j by {
                    if i != index && j != index {
                        assert(before[i].type_path@ == before[j].type_path@);
                    }
                }
            }
            assert(listed(after, path) && place(after, path) == index);
            let expected = old(self)@.register(registration);
            assert forall|other: Seq<char>| #[trigger]
                self@.by_type_path.dom().contains(other) == expected.by_type_path.dom().contains(
                    other,
                ) && (listed(after, other) ==> self@.by_type_path[other]
                    == expected.by_type_path[other]) by {
                if other != path && listed(before, other) {
                    let i = place(before, other);
                    assert(after[i].type_path@ == other);
                }
                if other != path && listed(after, other) {
                    let i = place(after, other);
                    assert(before[i].type_path@ == other);
                }
            }
            assert(self@.by_type_path =~= expected.by_type_path);
            assert(self@ =~= expected);
        }
    }

    /// Looks up a registration by wire identifier.
    pub fn by_wire_id(&self, wire_id: u64) -> (found: Option<&Registration<H>>)
        ensures
            match found {
                Some(registration) => self@.lookup(wire_id) == Some(*registration),
                None => self@.lookup(wire_id) is None,
            },
    {
        self.by_wire_id.get(&wire_id)
    }

    /// Lists all registrations, in no particular order.
    pub fn all(&self) -> (list: Vec<Registration<H>>)
        requires
            self.wf(),
        ensures
            enumerates(list@, self@),
    {
        let mut list: Vec<Registration<H>> = Vec::new();
        let ghost mut wire_ids: Seq<u64> = Seq::empty();
        for wire_id in iter: self.by_wire_id.keys()
            invariant
                iter.seq().no_duplicates(),
                iter.seq().unref().to_set() == self.by_wire_id@.dom(),
                iter.seq().len() == self.by_wire_id@.dom().len(),
                wire_ids == iter.seq().unref().take(iter.index() as int),
                wire_ids.no_duplicates(),
                wire_ids.len() == self.by_wire_id@.dom().len() ==> wire_ids.to_set()
                    == self.by_wire_id@.dom(),
                list@.len() == wire_ids.len(),
                forall|i: int|
                    0 <= i < list@.len() ==> #[trigger] list@[i] == self.by_wire_id@[wire_ids[i]],
        {
            assert(iter.seq().unref().contains(*wire_id)) by {
                assert(iter.seq().unref()[iter.index() as int] == *wire_id);
            }
            let registration = self.by_wire_id.get(wire_id).unwrap();
            list.push(*registration);
            assert(iter.seq().unref().take(iter.index() + 1) =~= wire_ids.push(*wire_id));
            proof {
                wire_ids = wire_ids.push(*wire_id);
            }
            assert(wire_ids.len() == iter.seq().len() ==> wire_ids =~= iter.seq().unref());
        }
        proof {
            let map = self.by_wire_id@;
            assert forall|i: int| 0 <= i < list@.len() implies #[trigger] list@[i].wire_id
                == wire_ids[i] && map.dom().contains(wire_ids[i]) by {
                assert(wire_ids.to_set().contains(wire_ids[i]));
            }
            assert forall|wire_id: u64| #[trigger] map.dom().contains(wire_id) implies list@.contains(
                map[wire_id],
            ) by {
                assert(wire_ids.to_set().contains(wire_id));
                let i = choose|i: int| 0 <= i < wire_ids.len() && wire_ids[i] == wire_id;
                assert(list@[i] == map[wire_id]);
            }
        }
        list
    }
}

/// Runtime registry for component handlers.
#[derive(Debug)]
#[verifier::reject_recursive_types(H)]
pub struct SyncRegistry<H> {
    table: RegistrationTable<H>,
}

impl<H> View for SyncRegistry<H> {
    type V = TableView<H>;

    closed spec fn view(&self) -> TableView<H> {
        self.table@
    }
}

impl<H: Copy> SyncRegistry<H> {
    /// Whether the registry holds one registration per type path.
    pub closed spec fn wf(&self) -> bool {
        self.table.wf()
    }

    /// Creates an empty registry.
    pub fn new() -> (registry: Self)
        ensures
            registry.wf(),
            registry@ == TableView::<H>::empty(),
    {
        SyncRegistry { table: RegistrationTable::new() }
    }

    /// Registers one component handler.
    pub fn register(&mut self, registration: ComponentRegistration<H>)
        requires
            old(self).wf(),
        ensures
            final(self).wf(),
            final(self)@ == old(self)@.register(registration),
    {
        self.table.register(registration);
    }

    /// Looks up a component handler by wire ID.
    pub fn by_wire_id(&self, wire_id: u64) -> (found: Option<&ComponentRegistration<H>>)
        ensures
            match found {
                Some(registration) => self@.lookup(wire_id) == Some(*registration),
                None => self@.lookup(wire_id) is None,
            },
    {
        self.table.by_wire_id(wire_id)
    }
}

/// Runtime registry for resource handlers.
#[derive(Debug)]
#[verifier::reject_recursive_types(H)]
pub struct SyncResourceRegistry<H> {
    table: RegistrationTable<H>,
}

impl<H> View for SyncResourceRegistry<H> {
    type V = TableView<H>;

    closed spec fn view(&self) -> TableView<H> {
        self.table@
    }
}

impl<H: Copy> SyncResourceRegistry<H> {
    /// Whether the registry holds one registration per type path.
    pub closed spec fn wf(&self) -> bool {
        self.table.wf()
    }

    /// Creates an empty registry.
    pub fn new() -> (registry: Self)
        ensures
            registry.wf(),
            registry@ == TableView::<H>::empty(),
    {
        SyncResourceRegistry { table: RegistrationTable::new() }
    }

    /// Registers one resource handler.
    pub fn register(&mut self, registration: ResourceRegistration<H>)
        requires
            old(self).wf(),
        ensures
            final(self).wf(),
            final(self)@ == old(self)@.register(registration),
    {
        self.table.register(registration);
    }

    /// Looks up a resource handler by wire ID.
    pub fn by_wire_id(&self, wire_id: u64) -> (found: Option<&ResourceRegistration<H>>)
        ensures
            match found {
                Some(registration) => self@.lookup(wire_id) == Some(*registration),
                None => self@.lookup(wire_id) is None,
            },
    {
        self.table.by_wire_id(wire_id)
    }
}

/// Runtime registry for prefab handlers.
#[derive(Debug)]
#[verifier::reject_recursive_types(H)]
pub struct PrefabRegistry<H> {
    table: RegistrationTable<H>,
}

impl<H> View for PrefabRegistry<H> {
    type V = TableView<H>;

    closed spec fn view(&self) -> TableView<H> {
        self.table@
    }
}

impl<H: Copy> PrefabRegistry<H> {
    /// Whether the registry holds one registration per type path.
    pub closed spec fn wf(&self) -> bool {
        self.table.wf()
    }

    /// Creates an empty registry.
    pub fn new() -> (registry: Self)
        ensures
            registry.wf(),
            registry@ == TableView::<H>::empty(),
    {
        PrefabRegistry { table: RegistrationTable::new() }
    }

    /// Registers one prefab handler.
    pub fn register(&mut self, registration: PrefabRegistration<H>)
        requires
            old(self).wf(),
        ensures
            final(self).wf(),
            final(self)@ == old(self)@.register(registration),
    {
        self.table.register(registration);
    }

    /// Looks up a prefab handler by wire ID.
    pub fn by_wire_id(&self, wire_id: u64) -> (found: Option<&PrefabRegistration<H>>)
        ensures
            match found {
                Some(registration) => self@.lookup(wire_id) == Some(*registration),
                None => self@.lookup(wire_id) is None,
            },
    {
        self.table.by_wire_id(wire_id)
    }

    /// Lists all prefab registrations, in no particular order.
    pub fn all(&self) -> (list: Vec<PrefabRegistration<H>>)
        requires
            self.wf(),
        ensures
            enumerates(list@, self@),
    {
        self.table.all()
    }
}

/// The registration last made under a wire identifier is the one found there;
/// registrations under other identifiers stay.
pub proof fn law_last_registration_wins<H>(
    table: TableView<H>,
    registration: Registration<H>,
    other: u64,
)
    ensures
        table.register(registration).lookup(registration.wire_id) == Some(registration),
        other != registration.wire_id ==> table.register(registration).lookup(other)
            == table.lookup(other),
        table.keyed() ==> table.register(registration).keyed(),
        TableView::<H>::empty().keyed(),
{
}

/// An empty table finds nothing; registrations are made one after the other,
/// and each changes what is found under its own identifier and path only.
pub proof fn law_registrations_are_made_in_order<H>(
    table: TableView<H>,
    registrations: Seq<Registration<H>>,
    registration: Registration<H>,
    wire_id: u64,
)
    ensures
        TableView::<H>::empty().lookup(wire_id) is None,
        TableView::<H>::empty().by_type_path == Map::<Seq<char>, Registration<H>>::empty(),
        table.register(registration).by_wire_id == table.by_wire_id.insert(
            registration.wire_id,
            registration,
        ),
        table.register(registration).by_type_path == table.by_type_path.insert(
            registration.type_path@,
            registration,
        ),
        table.register_all(Seq::empty()) == table,
        table.register_all(registrations.push(registration)).lookup(wire_id) == if wire_id
            == registration.wire_id {
            Some(registration)
        } else {
            table.register_all(registrations).lookup(wire_id)
        },
        table.register_all(registrations.push(registration)).by_type_path == table.register_all(
            registrations,
        ).by_type_path.insert(registration.type_path@, registration),
        table.lookup(wire_id) is Some <==> table.by_wire_id.dom().contains(wire_id),
        table.by_wire_id.dom().contains(wire_id) ==> table.lookup(wire_id) == Some(
            table.by_wire_id[wire_id],
        ),
{
    assert(registrations.push(registration).drop_last() =~= registrations);
}

/// A listing of a table holds each registration under a wire identifier once
/// and nothing else.
pub proof fn law_listings_hold_each_registration_once<H>(
    list: Seq<Registration<H>>,
    table: TableView<H>,
    wire_id: u64,
)
    requires
        enumerates(list, table),
    ensures
        list.len() == table.by_wire_id.dom().len(),
        list.no_duplicates(),
        table.lookup(wire_id) is Some ==> list.contains(table.lookup(wire_id)->0),
        forall|i: int|
            0 <= i < list.len() ==> table.lookup((#[trigger] list[i]).wire_id) == Some(list[i]),
{
    assert forall|i: int, j: int|
        0 <= i < list.len() && 0 <= j < list.len() && i != j implies list[i] != list[j] by {
        if i < j {
            assert(list[i].wire_id != list[j].wire_id);
        } else {
            assert(list[j].wire_id != list[i].wire_id);
        }
    }
    assert forall|i: int| 0 <= i < list.len() implies table.lookup((#[trigger] list[i]).wire_id)
        == Some(list[i]) by {
        assert(list[i].wire_id == list[i].wire_id);
    }
}

} // verus!
