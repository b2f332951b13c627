//! The service surface end to end: routing, the three handlers, and
//! the exact wire texts they produce.

use groceries::http::{handle_add, handle_delete, handle_get, handle_request, route, Method, Route};
use groceries::store::GroceryList;

#[test]
fn scenario_post_then_get() {
    let mut list = GroceryList::new();
    let r = handle_request(
        &mut list,
        Method::Post,
        "/v1/groceries",
        b"{\"name\":\"milk\",\"quantity\":2}",
    );
    assert_eq!(r.status, 201);
    assert_eq!(r.body, "Added item to the grocery list");
    let g = handle_request(&mut list, Method::Get, "/v1/groceries", b"");
    assert_eq!(g.status, 200);
    assert_eq!(g.body, "{\"milk\":2}");
}

#[test]
fn scenario_overwrite_leaves_single_entry() {
    let mut list = GroceryList::new();
    let first = handle_request(
        &mut list,
        Method::Post,
        "/v1/groceries",
        b"{\"name\":\"milk\",\"quantity\":2}",
    );
    assert_eq!(first.status, 201);
    let second = handle_request(
        &mut list,
        Method::Post,
        "/v1/groceries",
        b"{\"name\":\"milk\",\"quantity\":5}",
    );
    assert_eq!(second.status, 201);
    let g = handle_request(&mut list, Method::Get, "/v1/groceries", b"");
    assert_eq!(g.body, "{\"milk\":5}");
    assert_eq!(list.len(), 1);
}

#[test]
fn scenario_delete_absent_still_succeeds() {
    let mut list = GroceryList::new();
    list.insert(String::from("eggs"), 12);
    let r = handle_request(&mut list, Method::Delete, "/v1/groceries/milk", b"");
    assert_eq!(r.status, 200);
    assert_eq!(r.body, "Removed item milk");
    let g = handle_request(&mut list, Method::Get, "/v1/groceries", b"");
    assert_eq!(g.body, "{\"eggs\":12}");
}

#[test]
fn scenario_missing_quantity_rejected() {
    let mut list = GroceryList::new();
    let r = handle_request(&mut list, Method::Post, "/v1/groceries", b"{\"name\":\"milk\"}");
    assert_eq!(r.status, 400);
    let g = handle_request(&mut list, Method::Get, "/v1/groceries", b"");
    assert_eq!(g.body, "{}");
    assert_eq!(list.get("milk"), None);
}

#[test]
fn oversized_body_rejected_before_any_mutation() {
    let mut list = GroceryList::new();
    let body = vec![b'x'; 16385];
    let r = handle_add(&mut list, &body);
    assert_eq!(r.status, 413);
    assert_eq!(r.body, "Request body too large");
    assert_eq!(list.len(), 0);
}

#[test]
fn body_at_the_limit_is_still_parsed() {
    // The body is exactly 16384 bytes: the fixed frame plus a long name.
    let frame = "{\"name\":\"\",\"quantity\":7}";
    let name = "a".repeat(16384 - frame.len());
    let body = format!("{{\"name\":\"{}\",\"quantity\":7}}", name);
    assert_eq!(body.len(), 16384);
    let mut list = GroceryList::new();
    let r = handle_add(&mut list, body.as_bytes());
    assert_eq!(r.status, 201);
    assert_eq!(list.get(&name), Some(7));
}

#[test]
fn invalid_utf8_body_rejected() {
    let mut list = GroceryList::new();
    let r = handle_add(&mut list, &[0xff, 0xfe, b'{', b'}']);
    assert_eq!(r.status, 400);
    assert_eq!(r.body, "Invalid request body");
    assert_eq!(list.len(), 0);
}

#[test]
fn delete_handler_reports_the_name() {
    let mut list = GroceryList::new();
    list.insert(String::from("milk"), 2);
    let r = handle_delete(&mut list, "milk");
    assert_eq!(r.status, 200);
    assert_eq!(r.body, "Removed item milk");
    assert_eq!(list.get("milk"), None);
}

#[test]
fn get_handler_renders_current_state() {
    let mut list = GroceryList::new();
    list.insert(String::from("a"), 1);
    list.insert(String::from("b"), -3);
    let r = handle_get(&list);
    assert_eq!(r.status, 200);
    assert_eq!(r.body, "{\"a\":1,\"b\":-3}");
}

#[test]
fn unknown_route_is_404() {
    let mut list = GroceryList::new();
    let r = handle_request(&mut list, Method::Get, "/v2/groceries", b"");
    assert_eq!(r.status, 404);
    assert_eq!(r.body, "Not found");
    let nested = handle_request(&mut list, Method::Delete, "/v1/groceries/a/b", b"");
    assert_eq!(nested.status, 404);
    let trailing = handle_request(&mut list, Method::Delete, "/v1/groceries/", b"");
    assert_eq!(trailing.status, 404);
}

#[test]
fn wrong_method_is_405() {
    let mut list = GroceryList::new();
    let r = handle_request(&mut list, Method::Delete, "/v1/groceries", b"");
    assert_eq!(r.status, 405);
    assert_eq!(r.body, "Method not allowed");
    let g = handle_request(&mut list, Method::Get, "/v1/groceries/milk", b"");
    assert_eq!(g.status, 405);
    let o = handle_request(&mut list, Method::Other, "/v1/groceries", b"");
    assert_eq!(o.status, 405);
}

#[test]
fn route_table_resolves_each_operation() {
    assert!(matches!(route(Method::Post, "/v1/groceries"), Route::AddItem));
    assert!(matches!(route(Method::Get, "/v1/groceries"), Route::ListItems));
    match route(Method::Delete, "/v1/groceries/milk") {
        Route::DeleteItem(name) => assert_eq!(name, "milk"),
        _ => panic!("expected a delete route"),
    }
    assert!(matches!(route(Method::Get, "/"), Route::NotFound));
    assert!(matches!(route(Method::Other, "/v1/groceries/milk"), Route::MethodNotAllowed));
}
