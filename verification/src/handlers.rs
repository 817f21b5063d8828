//! Request handlers: each turns one store operation into an HTTP outcome.
//!
//! Not-found is a first-class outcome mapped to 404, distinct from any
//! generic failure; malformed input is rejected before these handlers run,
//! at the JSON boundary outside the library. The handlers work on the
//! in-process [`Store`], where the only failure a statement can show is
//! "no such row", so the 5xx outcomes reserved for store faults never
//! arise here.

use vstd::prelude::*;
use vstd::string::StringExecFns;
use crate::models::{Item, NewItem};
use crate::store::{has_id, lookup, spec_create, spec_created, spec_delete, spec_update, Store};

verus! {

/// The payload of an HTTP response.
pub enum Body {
    /// No content at all (the 204 outcome).
    Empty,
    /// A plain confirmation or error message.
    Message(String),
    /// One item, rendered as JSON by the transport layer.
    Entity(Item),
    /// A sequence of items, rendered as a JSON array.
    Entities(Vec<Item>),
}

/// An HTTP outcome: a status code and a body.
pub struct Response {
    pub status: u16,
    pub body: Body,
}

/// `GET /health`: a literal confirmation that the service is up.
pub fn health_check() -> (r: Response)
    ensures
        r.status == 200,
        r.body matches Body::Message(s) && s@ == "API is running"@,
{
    Response { status: 200, body: Body::Message(String::from_str("API is running")) }
}

/// `GET /items`: every stored row, with status 200. An empty table gives an
/// empty sequence, not an error.
pub fn get_items(store: &Store) -> (r: Response)
    ensures
        r.status == 200,
        r.body matches Body::Entities(v) && v@.map_values(|it: Item| it@) == store@.items,
{
    Response { status: 200, body: Body::Entities(store.list()) }
}

/// `GET /items/{id}`: the row with that id and status 200, or 404 when no
/// row has it.
pub fn get_item_by_id(store: &Store, id: i32) -> (r: Response)
    requires
        store@.wf(),
    ensures
        has_id(store@.items, id as int) ==> r.status == 200 && (r.body matches Body::Entity(item)
            && lookup(store@, id as int) == Some(item@)),
        !has_id(store@.items, id as int) ==> r.status == 404 && (r.body matches Body::Message(s)
            && s@ == "Item not found"@),
{
    match store.get(id) {
        Some(item) => Response { status: 200, body: Body::Entity(item) },
        None => Response { status: 404, body: Body::Message(String::from_str("Item not found")) },
    }
}

/// `POST /items`: insert the payload and answer 201 with the fully
/// populated row, id included.
pub fn create_item(store: &mut Store, new_item: NewItem) -> (r: Response)
    requires
        old(store)@.wf(),
        old(store)@.next_id < i32::MAX,
    ensures
        final(store)@ == spec_create(old(store)@, new_item@),
        r.status == 201,
        r.body matches Body::Entity(item) && item@ == spec_created(old(store)@, new_item@),
{
    let created = store.create(new_item);
    Response { status: 201, body: Body::Entity(created) }
}

/// `PUT /items/{id}`: replace the text fields of the row with that id and
/// confirm with 200, or answer 404 and change nothing when no row has it.
pub fn update_item(store: &mut Store, id: i32, updated_item: NewItem) -> (r: Response)
    requires
        old(store)@.wf(),
    ensures
        final(store)@ == spec_update(old(store)@, id as int, updated_item@),
        has_id(old(store)@.items, id as int) ==> r.status == 200 && (r.body
            matches Body::Message(s) && s@ == "Item updated successfully"@),
        !has_id(old(store)@.items, id as int) ==> r.status == 404 && (r.body
            matches Body::Message(s) && s@ == "Item not found"@),
{
    if store.update(id, updated_item) {
        Response {
            status: 200,
            body: Body::Message(String::from_str("Item updated successfully")),
        }
    } else {
        Response { status: 404, body: Body::Message(String::from_str("Item not found")) }
    }
}

/// `DELETE /items/{id}`: remove the row with that id and answer 204 with no
/// content, or 404 and change nothing when no row has it. The uniqueness
/// invariant rules out more than one row matching.
pub fn delete_item(store: &mut Store, id: i32) -> (r: Response)
    requires
        old(store)@.wf(),
    ensures
        final(store)@ == spec_delete(old(store)@, id as int),
        has_id(old(store)@.items, id as int) ==> r.status == 204 && r.body matches Body::Empty,
        !has_id(old(store)@.items, id as int) ==> r.status == 404 && (r.body
            matches Body::Message(s) && s@ == "Item not found"@),
{
    if store.delete(id) {
        Response { status: 204, body: Body::Empty }
    } else {
        Response { status: 404, body: Body::Message(String::from_str("Item not found")) }
    }
}

} // verus!
