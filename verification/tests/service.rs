use rustodont::service::{handle, Request, Response, STATUS_OK};
use rustodont::todonts::{InputTodont, TodontStore};

fn input(description: &str, done: bool) -> InputTodont {
    InputTodont { description: String::from(description), done }
}

#[test]
fn list_on_empty_store_answers_ok_and_no_rows() {
    let mut store = TodontStore::new();
    match handle(&mut store, Request::ListAll) {
        Response::Rows { status, rows } => {
            assert_eq!(status, STATUS_OK);
            assert!(rows.is_empty());
        }
        _ => panic!("list must answer with rows"),
    }
}

#[test]
fn create_then_get_through_the_service() {
    let mut store = TodontStore::new();
    match handle(&mut store, Request::Create { input: input("write letters", false) }) {
        Response::Empty { status } => assert_eq!(status, STATUS_OK),
        _ => panic!("create must answer with a bare status"),
    }
    match handle(&mut store, Request::GetOne { id: 1 }) {
        Response::MaybeRow { status, row } => {
            assert_eq!(status, STATUS_OK);
            let row = row.expect("created row must be found");
            assert_eq!(row.id, 1);
            assert_eq!(row.description, "write letters");
            assert_eq!(row.done, false);
        }
        _ => panic!("get must answer with an optional row"),
    }
}

#[test]
fn update_then_delete_through_the_service() {
    let mut store = TodontStore::new();
    handle(&mut store, Request::Create { input: input("draft", false) });
    match handle(&mut store, Request::Update { id: 1, input: input("final", true) }) {
        Response::Empty { status } => assert_eq!(status, STATUS_OK),
        _ => panic!("update must answer with a bare status"),
    }
    match handle(&mut store, Request::GetOne { id: 1 }) {
        Response::MaybeRow { status: _, row } => {
            let row = row.unwrap();
            assert_eq!(row.description, "final");
            assert_eq!(row.done, true);
        }
        _ => panic!("get must answer with an optional row"),
    }
    match handle(&mut store, Request::Delete { id: 1 }) {
        Response::Empty { status } => assert_eq!(status, STATUS_OK),
        _ => panic!("delete must answer with a bare status"),
    }
    match handle(&mut store, Request::GetOne { id: 1 }) {
        Response::MaybeRow { status, row } => {
            assert_eq!(status, STATUS_OK);
            assert!(row.is_none());
        }
        _ => panic!("get must answer with an optional row"),
    }
}

#[test]
fn get_of_missing_id_answers_ok_with_no_row() {
    let mut store = TodontStore::new();
    match handle(&mut store, Request::GetOne { id: 9 }) {
        Response::MaybeRow { status, row } => {
            assert_eq!(status, STATUS_OK);
            assert!(row.is_none());
        }
        _ => panic!("get must answer with an optional row"),
    }
}

#[test]
fn update_and_delete_of_missing_id_answer_ok_and_change_nothing() {
    let mut store = TodontStore::new();
    handle(&mut store, Request::Create { input: input("stays", true) });
    match handle(&mut store, Request::Update { id: 5, input: input("ghost", false) }) {
        Response::Empty { status } => assert_eq!(status, STATUS_OK),
        _ => panic!("update must answer with a bare status"),
    }
    match handle(&mut store, Request::Delete { id: 5 }) {
        Response::Empty { status } => assert_eq!(status, STATUS_OK),
        _ => panic!("delete must answer with a bare status"),
    }
    match handle(&mut store, Request::ListAll) {
        Response::Rows { status: _, rows } => {
            assert_eq!(rows.len(), 1);
            assert_eq!(rows[0].id, 1);
            assert_eq!(rows[0].description, "stays");
            assert_eq!(rows[0].done, true);
        }
        _ => panic!("list must answer with rows"),
    }
}
