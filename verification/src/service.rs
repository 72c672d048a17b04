//! The request-handling layer: the five operations of the HTTP surface as
//! one verified dispatch step over the store.

use vstd::prelude::*;
use crate::todonts::{
    created, deleted, lookup, row_from, updated, InputTodont, Todont, TodontStore,
};

verus! {

/// The status every handled request answers with: each of the five
/// operations succeeds, a get of an absent id included.
pub const STATUS_OK: u16 = 200;

/// One of the five operations of the HTTP surface, with its decoded inputs.
pub enum Request {
    /// List every todont.
    ListAll,
    /// Fetch one todont by id.
    GetOne { id: i64 },
    /// Create a todont from the submitted description and done flag; the
    /// store assigns the id.
    Create { input: InputTodont },
    /// Replace description and done flag of the todont under `id` in full.
    Update { id: i64, input: InputTodont },
    /// Remove the todont under `id`.
    Delete { id: i64 },
}

/// What a handled request answers: a status code and the payload to encode.
pub enum Response {
    /// Every row, for a list request.
    Rows { status: u16, rows: Vec<Todont> },
    /// The row under the requested id, or nothing, for a get request.
    MaybeRow { status: u16, row: Option<Todont> },
    /// A bare status, for create, update and delete.
    Empty { status: u16 },
}

/// Dispatch one request against the store: list and get leave it untouched,
/// create appends the row under the next id, update and delete change at
/// most the row under the given id and never fail on an absent one.
pub fn handle(store: &mut TodontStore, req: Request) -> (resp: Response)
    requires
        old(store).wf(),
        req is Create ==> old(store).spec_next_id() < i64::MAX,
    ensures
        final(store).wf(),
        match req {
            Request::ListAll => {
                &&& *final(store) == *old(store)
                &&& resp matches Response::Rows { status, rows } && status == STATUS_OK
                    && rows@ == old(store)@
            },
            Request::GetOne { id } => {
                &&& *final(store) == *old(store)
                &&& resp matches Response::MaybeRow { status, row } && status == STATUS_OK
                    && row == lookup(old(store)@, id)
            },
            Request::Create { input } => {
                &&& final(store)@ == created(old(store)@, old(store).spec_next_id(), input)
                &&& final(store).spec_next_id() == old(store).spec_next_id() + 1
                &&& resp matches Response::Empty { status } && status == STATUS_OK
            },
            Request::Update { id, input } => {
                &&& final(store)@ == updated(old(store)@, row_from(id, input))
                &&& final(store).spec_next_id() == old(store).spec_next_id()
                &&& resp matches Response::Empty { status } && status == STATUS_OK
            },
            Request::Delete { id } => {
                &&& final(store)@ == deleted(old(store)@, id)
                &&& final(store).spec_next_id() == old(store).spec_next_id()
                &&& resp matches Response::Empty { status } && status == STATUS_OK
            },
        },
{
    match req {
        Request::ListAll => Response::Rows { status: STATUS_OK, rows: store.get_all() },
        Request::GetOne { id } => Response::MaybeRow {
            status: STATUS_OK,
            row: store.get_one(id),
        },
        Request::Create { input } => {
            let _id = store.create_todont(input);
            Response::Empty { status: STATUS_OK }
        },
        Request::Update { id, input } => {
            store.update_todont(Todont { id, description: input.description, done: input.done });
            Response::Empty { status: STATUS_OK }
        },
        Request::Delete { id } => {
            store.delete_todont(id);
            Response::Empty { status: STATUS_OK }
        },
    }
}

} // verus!
