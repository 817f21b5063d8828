//! The items table: a store of [`Item`] rows keyed by a store-assigned id.
//!
//! The well-formedness invariant keeps the rows in strictly increasing id
//! order below the next id to assign, so ids are unique and a freshly
//! assigned id never collides with a stored one. Every operation performs
//! the work of exactly one relational statement: list all rows, point
//! lookup, insert, update of the two text fields, or delete.

use vstd::prelude::*;
use crate::models::{Item, ItemModel, NewItem, NewItemModel};

verus! {

/// The mathematical value of a [`Store`]: the stored rows, in order, and the
/// id the next created item will receive.
#[verifier::ext_equal]
pub ghost struct StoreModel {
    pub items: Seq<ItemModel>,
    pub next_id: int,
}

/// Whether some row of `items` has id `id`.
pub open spec fn has_id(items: Seq<ItemModel>, id: int) -> bool {
    exists|i: int| 0 <= i < items.len() && items[i].id == id
}

/// The index of the row with id `id`; meaningful only when `has_id` holds
/// (under [`StoreModel::wf`] that row is unique).
pub open spec fn index_of(items: Seq<ItemModel>, id: int) -> int {
    choose|i: int| 0 <= i < items.len() && items[i].id == id
}

/// The row with id `id`, or `None` when no row has it.
pub open spec fn lookup(m: StoreModel, id: int) -> Option<ItemModel> {
    if has_id(m.items, id) {
        Some(m.items[index_of(m.items, id)])
    } else {
        None
    }
}

/// The item a create on store `m` assigns: the next free id, and the
/// payload's two text fields.
pub open spec fn spec_created(m: StoreModel, n: NewItemModel) -> ItemModel {
    ItemModel { id: m.next_id, name: n.name, description: n.description }
}

/// The store after a create: the new row appended, the next id advanced.
pub open spec fn spec_create(m: StoreModel, n: NewItemModel) -> StoreModel {
    StoreModel { items: m.items.push(spec_created(m, n)), next_id: m.next_id + 1 }
}

/// The store after an update: the matching row's text fields replaced, ids
/// and order untouched; the store unchanged when no row matches.
pub open spec fn spec_update(m: StoreModel, id: int, n: NewItemModel) -> StoreModel {
    if has_id(m.items, id) {
        StoreModel {
            items: m.items.update(
                index_of(m.items, id),
                ItemModel { id: id, name: n.name, description: n.description },
            ),
            next_id: m.next_id,
        }
    } else {
        m
    }
}

/// The store after a delete: the matching row removed, the store unchanged
/// when no row matches. The next id never goes back, so a deleted id is
/// never reassigned.
pub open spec fn spec_delete(m: StoreModel, id: int) -> StoreModel {
    if has_id(m.items, id) {
        StoreModel { items: m.items.remove(index_of(m.items, id)), next_id: m.next_id }
    } else {
        m
    }
}

impl StoreModel {
    /// Well-formedness: ids start at 1, stay below the next id to assign,
    /// and are strictly increasing along the row order. Strict increase
    /// gives both uniqueness and a deterministic listing order.
    pub open spec fn wf(self) -> bool {
        &&& 1 <= self.next_id
        &&& forall|i: int|
            0 <= i < self.items.len() ==> 1 <= #[trigger] self.items[i].id < self.next_id
        &&& forall|i: int, j: int|
            0 <= i < j < self.items.len() ==> #[trigger] self.items[i].id
                < #[trigger] self.items[j].id
    }
}

/// The items table. Rows are held in ascending id order; `next_id` is the id
/// the next created row will receive and only ever grows.
pub struct Store {
    items: Vec<Item>,
    next_id: i32,
}

impl View for Store {
    type V = StoreModel;

    closed spec fn view(&self) -> StoreModel {
        StoreModel {
            items: self.items@.map_values(|it: Item| it@),
            next_id: self.next_id as int,
        }
    }
}

impl Store {
    /// An empty table whose first created row will receive id 1.
    pub fn new() -> (result: Store)
        ensures
            result@.wf(),
            result@.items == Seq::<ItemModel>::empty(),
            result@.next_id == 1,
    {
        let store = Store { items: Vec::new(), next_id: 1 };
        proof {
            assert(store@.items =~= Seq::<ItemModel>::empty());
        }
        store
    }

    /// The id the next created row will receive. It only ever grows, so a
    /// caller can tell when the id space is exhausted.
    pub fn next_id(&self) -> (n: i32)
        ensures
            n == self@.next_id,
    {
        self.next_id
    }

    /// How many rows are stored.
    pub fn len(&self) -> (n: usize)
        ensures
            n == self@.items.len(),
    {
        self.items.len()
    }

    /// Every stored row, in ascending id order. An empty table yields an
    /// empty sequence, not an error.
    #[verifier::loop_isolation(false)]
    pub fn list(&self) -> (result: Vec<Item>)
        ensures
            result@.map_values(|it: Item| it@) == self@.items,
    {
        let mut out: Vec<Item> = Vec::new();
        let mut i: usize = 0;
        while i < self.items.len()
            invariant
                i <= self.items.len(),
                out@.map_values(|it: Item| it@) =~= self@.items.subrange(0, i as int),
            decreases self.items.len() - i,
        {
            out.push(self.items[i].clone());
            i = i + 1;
        }
        proof {
            assert(self@.items.subrange(0, self.items@.len() as int) =~= self@.items);
        }
        out
    }

    /// Point lookup by id: the row with that id, or `None` when absent.
    #[verifier::loop_isolation(false)]
    pub fn get(&self, id: i32) -> (result: Option<Item>)
        requires
            self@.wf(),
        ensures
            match result {
                Some(item) => lookup(self@, id as int) == Some(item@),
                None => lookup(self@, id as int) is None,
            },
    {
        let mut i: usize = 0;
        while i < self.items.len()
            invariant
                i <= self.items.len(),
                forall|j: int| 0 <= j < i ==> #[trigger] self@.items[j].id != id as int,
            decreases self.items.len() - i,
        {
            if self.items[i].id == id {
                let found = self.items[i].clone();
                proof {
                    assert(self@.items[i as int].id == id as int);
                    assert(has_id(self@.items, id as int));
                    let w = index_of(self@.items, id as int);
                    assert(self@.wf());
                    assert(self@.items[w].id == self@.items[i as int].id);
                    assert(w == i as int) by {
                        if w < i as int {
                            assert(self@.items[w].id < self@.items[i as int].id);
                        } else if w > i as int {
                            assert(self@.items[i as int].id < self@.items[w].id);
                        }
                    }
                }
                return Some(found);
            }
            i = i + 1;
        }
        proof {
            assert(!has_id(self@.items, id as int));
        }
        None
    }

    /// Insert a payload as a new row. The store assigns the id, returns the
    /// fully populated row, and advances the next id.
    pub fn create(&mut self, new_item: NewItem) -> (created: Item)
        requires
            old(self)@.wf(),
            old(self)@.next_id < i32::MAX,
        ensures
            final(self)@.wf(),
            created@ == spec_created(old(self)@, new_item@),
            final(self)@ == spec_create(old(self)@, new_item@),
    {
        let id = self.next_id;
        let item = Item {
            id,
            name: new_item.name,
            description: new_item.description,
        };
        let created = item.clone();
        self.items.push(item);
        self.next_id = self.next_id + 1;
        proof {
            let m0 = old(self)@;
            assert(self@.items =~= m0.items.push(spec_created(m0, new_item@)));
            assert(self@ =~= spec_create(m0, new_item@));
            assert forall|i: int, j: int| 0 <= i < j < self@.items.len() implies #[trigger] self@
                .items[i].id < #[trigger] self@.items[j].id by {
                if j < m0.items.len() {
                    assert(m0.items[i].id < m0.items[j].id);
                } else {
                    assert(m0.items[i].id < m0.next_id);
                }
            }
        }
        created
    }

    /// Replace the text fields of the row with id `id`. Returns whether such
    /// a row existed; when none did, the store is unchanged and in
    /// particular no row is created.
    #[verifier::loop_isolation(false)]
    pub fn update(&mut self, id: i32, updated: NewItem) -> (found: bool)
        requires
            old(self)@.wf(),
        ensures
            final(self)@.wf(),
            found == has_id(old(self)@.items, id as int),
            final(self)@ == spec_update(old(self)@, id as int, updated@),
    {
        let ghost m0 = old(self)@;
        let mut i: usize = 0;
        while i < self.items.len()
            invariant
                self == old(self),
                i <= self.items.len(),
                forall|j: int| 0 <= j < i ==> #[trigger] m0.items[j].id != id as int,
            decreases self.items.len() - i,
        {
            if self.items[i].id == id {
                let row = Item {
                    id,
                    name: updated.name,
                    description: updated.description,
                };
                self.items.set(i, row);
                proof {
                    assert(m0.items[i as int].id == id as int);
                    assert(has_id(m0.items, id as int));
                    let w = index_of(m0.items, id as int);
                    assert(w == i as int) by {
                        if w < i as int {
                            assert(m0.items[w].id < m0.items[i as int].id);
                        } else if w > i as int {
                            assert(m0.items[i as int].id < m0.items[w].id);
                        }
                    }
                    assert(self@.items =~= m0.items.update(
                        i as int,
                        ItemModel { id: id as int, name: updated@.name, description: updated@.description },
                    ));
                    assert(self@ =~= spec_update(m0, id as int, updated@));
                    assert forall|p: int, q: int| 0 <= p < q < self@.items.len() implies #[trigger]
                        self@.items[p].id < #[trigger] self@.items[q].id by {
                        assert(self@.items[p].id == m0.items[p].id);
                        assert(self@.items[q].id == m0.items[q].id);
                    }
                }
                return true;
            }
            i = i + 1;
        }
        proof {
            assert(!has_id(m0.items, id as int));
            assert(self@ =~= spec_update(m0, id as int, updated@));
        }
        false
    }

    /// Delete the row with id `id`. Returns whether such a row existed (the
    /// uniqueness invariant makes "more than one row deleted" impossible);
    /// when none did, the store is unchanged.
    #[verifier::loop_isolation(false)]
    pub fn delete(&mut self, id: i32) -> (found: bool)
        requires
            old(self)@.wf(),
        ensures
            final(self)@.wf(),
            found == has_id(old(self)@.items, id as int),
            final(self)@ == spec_delete(old(self)@, id as int),
    {
        let ghost m0 = old(self)@;
        let mut i: usize = 0;
        while i < self.items.len()
            invariant
                self == old(self),
                i <= self.items.len(),
                forall|j: int| 0 <= j < i ==> #[trigger] m0.items[j].id != id as int,
            decreases self.items.len() - i,
        {
            if self.items[i].id == id {
                self.items.remove(i);
                proof {
                    assert(m0.items[i as int].id == id as int);
                    assert(has_id(m0.items, id as int));
                    let w = index_of(m0.items, id as int);
                    assert(w == i as int) by {
                        if w < i as int {
                            assert(m0.items[w].id < m0.items[i as int].id);
                        } else if w > i as int {
                            assert(m0.items[i as int].id < m0.items[w].id);
                        }
                    }
                    assert(self@.items =~= m0.items.remove(i as int));
                    assert(self@ =~= spec_delete(m0, id as int));
                    assert forall|p: int, q: int| 0 <= p < q < self@.items.len() implies #[trigger]
                        self@.items[p].id < #[trigger] self@.items[q].id by {
                        m0.items.remove_ensures(i as int);
                        if q < i as int {
                            assert(m0.items[p].id < m0.items[q].id);
                        } else if p >= i as int {
                            assert(m0.items[p + 1].id < m0.items[q + 1].id);
                        } else {
                            assert(m0.items[p].id < m0.items[q + 1].id);
                        }
                    }
                }
                return true;
            }
            i = i + 1;
        }
        proof {
            assert(!has_id(m0.items, id as int));
            assert(self@ =~= spec_delete(m0, id as int));
        }
        false
    }
}

/// Law: creating an item and then fetching it by the id the store assigned
/// yields a row with exactly the payload's name and description.
pub proof fn lemma_create_then_lookup(m: StoreModel, n: NewItemModel)
    requires
        m.wf(),
    ensures
        lookup(spec_create(m, n), spec_created(m, n).id) == Some(spec_created(m, n)),
{
    let m2 = spec_create(m, n);
    let it = spec_created(m, n);
    assert(m2.items[m.items.len() as int] == it);
    assert(has_id(m2.items, it.id));
    let w = index_of(m2.items, it.id);
    assert(0 <= w < m2.items.len() && m2.items[w].id == it.id);
    if w < m.items.len() {
        assert(m2.items[w] == m.items[w]);
        assert(m.items[w].id < m.next_id);
        assert(false);
    }
}

/// Law: deleting the row with a given id and then fetching that id yields
/// not-found.
pub proof fn lemma_delete_then_lookup(m: StoreModel, id: int)
    requires
        m.wf(),
    ensures
        lookup(spec_delete(m, id), id) is None,
{
    let m2 = spec_delete(m, id);
    if has_id(m.items, id) {
        let i = index_of(m.items, id);
        assert(0 <= i < m.items.len() && m.items[i].id == id);
        m.items.remove_ensures(i);
        assert forall|j: int| 0 <= j < m2.items.len() implies #[trigger] m2.items[j].id != id by {
            if j < i {
                assert(m2.items[j] == m.items[j]);
                assert(m.items[j].id < m.items[i].id);
            } else {
                assert(m2.items[j] == m.items[j + 1]);
                assert(m.items[i].id < m.items[j + 1].id);
            }
        }
        assert(!has_id(m2.items, id));
    }
}

/// Law: updating an id that no row has leaves the store unchanged; in
/// particular the id still resolves to not-found and no row is created.
pub proof fn lemma_update_missing_is_noop(m: StoreModel, id: int, n: NewItemModel)
    requires
        !has_id(m.items, id),
    ensures
        spec_update(m, id, n) == m,
        lookup(spec_update(m, id, n), id) is None,
{
}

/// The store after creating each payload of `ns`, in order.
pub open spec fn spec_create_all(m: StoreModel, ns: Seq<NewItemModel>) -> StoreModel
    decreases ns.len(),
{
    if ns.len() == 0 {
        m
    } else {
        spec_create_all(spec_create(m, ns[0]), ns.subrange(1, ns.len() as int))
    }
}

/// Law: creating N items adds exactly N rows, so listing afterwards returns
/// exactly N more entities, in whatever order they are compared.
pub proof fn lemma_create_all_count(m: StoreModel, ns: Seq<NewItemModel>)
    ensures
        spec_create_all(m, ns).items.len() == m.items.len() + ns.len(),
    decreases ns.len(),
{
    if ns.len() > 0 {
        lemma_create_all_count(spec_create(m, ns[0]), ns.subrange(1, ns.len() as int));
    }
}

/// Law: assigned ids never collide. The store serializes creates, and in
/// whichever order two creates run, the second sees the store the first
/// left behind: the two assigned ids differ, and neither equals the id of a
/// row already stored.
pub proof fn lemma_creates_distinct_ids(m: StoreModel, n1: NewItemModel, n2: NewItemModel)
    requires
        m.wf(),
    ensures
        spec_created(m, n1).id != spec_created(spec_create(m, n1), n2).id,
        !has_id(m.items, spec_created(m, n1).id),
{
    if has_id(m.items, spec_created(m, n1).id) {
        let i = index_of(m.items, m.next_id);
        assert(0 <= i < m.items.len() && m.items[i].id == m.next_id);
        assert(m.items[i].id < m.next_id);
    }
}

} // verus!
