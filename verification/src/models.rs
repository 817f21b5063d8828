//! The persisted entity of the items table and the transient input payload
//! that create and update requests carry.

use vstd::prelude::*;

verus! {

/// A persisted row of the items table. The store assigns `id` on creation
/// and never changes it afterwards; `name` and `description` are the two
/// client-visible text fields.
pub struct Item {
    pub id: i32,
    pub name: String,
    pub description: String,
}

/// The input payload for create and update requests. It carries only the
/// mutable fields; it is never persisted as its own record.
pub struct NewItem {
    pub name: String,
    pub description: String,
}

/// The mathematical value of an [`Item`]: its id as an unbounded integer and
/// its text fields as character sequences.
pub ghost struct ItemModel {
    pub id: int,
    pub name: Seq<char>,
    pub description: Seq<char>,
}

/// The mathematical value of a [`NewItem`].
pub ghost struct NewItemModel {
    pub name: Seq<char>,
    pub description: Seq<char>,
}

impl View for Item {
    type V = ItemModel;

    open spec fn view(&self) -> ItemModel {
        ItemModel { id: self.id as int, name: self.name@, description: self.description@ }
    }
}

impl View for NewItem {
    type V = NewItemModel;

    open spec fn view(&self) -> NewItemModel {
        NewItemModel { name: self.name@, description: self.description@ }
    }
}

impl Clone for Item {
    fn clone(&self) -> (res: Self)
        ensures
            res@ == self@,
    {
        Item { id: self.id, name: self.name.clone(), description: self.description.clone() }
    }
}

} // verus!
