//! The HTTP surface: the route table over method and path, and one
//! handler per operation. Handlers take plain values (the method, the
//! path, the raw body bytes) and return the status code and body text
//! to send, so every decision about a request is made here.

use vstd::prelude::*;
use vstd::string::StrSliceExecFns;
use vstd::string::StringExecFns;
use vstd::string::StringSliceAdditionalSpecFns;
use vstd::utf8::valid_utf8;
use vstd::utf8::decode_utf8;
use vstd::utf8::encode_utf8_decode_utf8;
use crate::store::GroceryList;
use crate::store::drop_pair;
use crate::store::pairs_denote;
use crate::parse::parse_item;
use crate::parse::parse_item_spec;
use crate::render::render_list;
use crate::render::render_spec;
use crate::strutil::str_eq;

verus! {

/// The request methods the service distinguishes.
#[derive(Clone, Copy)]
pub enum Method {
    Get,
    Post,
    Delete,
    Other,
}

/// Where a request goes.
pub enum Route {
    AddItem,
    ListItems,
    DeleteItem(String),
    MethodNotAllowed,
    NotFound,
}

/// Where a request goes, abstractly.
pub enum RoutePlan {
    AddItem,
    ListItems,
    DeleteItem(Seq<char>),
    MethodNotAllowed,
    NotFound,
}

/// A response: the status code and the body text.
pub struct Response {
    pub status: u16,
    pub body: String,
}

/// The collection's path.
pub open spec fn collection_path() -> Seq<char> {
    "/v1/groceries"@
}

/// The prefix of every single-item path.
pub open spec fn item_prefix() -> Seq<char> {
    "/v1/groceries/"@
}

/// A path naming one item: the prefix, then a nonempty name without
/// further slashes.
pub open spec fn is_item_path(p: Seq<char>) -> bool {
    &&& p.len() > item_prefix().len()
    &&& p.subrange(0, item_prefix().len() as int) == item_prefix()
    &&& forall|k: int| item_prefix().len() <= k < p.len() ==> p[k] != '/'
}

/// The name an item path names.
pub open spec fn item_name(p: Seq<char>) -> Seq<char> {
    p.subrange(item_prefix().len() as int, p.len() as int)
}

/// The route table: which handler a method and path reach.
pub open spec fn route_of(m: Method, p: Seq<char>) -> RoutePlan {
    if p == collection_path() {
        match m {
            Method::Post => RoutePlan::AddItem,
            Method::Get => RoutePlan::ListItems,
            _ => RoutePlan::MethodNotAllowed,
        }
    } else if is_item_path(p) {
        match m {
            Method::Delete => RoutePlan::DeleteItem(item_name(p)),
            _ => RoutePlan::MethodNotAllowed,
        }
    } else {
        RoutePlan::NotFound
    }
}

/// Resolves a method and path against the route table.
pub fn route(method: Method, path: &str) -> (r: Route)
    ensures
        ({
            let plan = route_of(method, path@);
            match r {
                Route::AddItem => plan is AddItem,
                Route::ListItems => plan is ListItems,
                Route::DeleteItem(n) => plan matches RoutePlan::DeleteItem(pn) && n@ == pn,
                Route::MethodNotAllowed => plan is MethodNotAllowed,
                Route::NotFound => plan is NotFound,
            }
        }),
{
    if str_eq(path, "/v1/groceries") {
        match method {
            Method::Post => Route::AddItem,
            Method::Get => Route::ListItems,
            _ => Route::MethodNotAllowed,
        }
    } else {
        let l = path.unicode_len();
        let pl = "/v1/groceries/".unicode_len();
        if l > pl && str_eq(path.substring_char(0, pl), "/v1/groceries/") {
            let mut k = pl;
            while k < l
                invariant
                    pl <= k <= l,
                    l == path@.len(),
                    pl == item_prefix().len(),
                    !(path@ == collection_path()),
                    forall|m: int| pl <= m < k ==> path@[m] != '/',
                decreases l - k,
            {
                if path.get_char(k) == '/' {
                    proof {
                        assert(path@[k as int] == '/');
                        assert(!is_item_path(path@));
                    }
                    return Route::NotFound;
                }
                k += 1;
            }
            match method {
                Method::Delete => {
                    let name = String::from_str(path.substring_char(pl, l));
                    Route::DeleteItem(name)
                },
                _ => Route::MethodNotAllowed,
            }
        } else {
            Route::NotFound
        }
    }
}

/// Relies on core::str::from_utf8: it succeeds exactly when the bytes
/// are valid UTF-8, and then borrows them as the string they encode.
#[verifier::external_body]
fn bytes_as_str(b: &[u8]) -> (r: Option<&str>)
    ensures
        r is Some <==> valid_utf8(b@),
        r matches Some(t) ==> t.spec_bytes() == b@,
{
    core::str::from_utf8(b).ok()
}

/// What a create-item request does: the relation between the body
/// bytes, the store before and after, and the response sent back.
pub open spec fn add_outcome(
    pre: Map<Seq<char>, int>,
    pre_pairs: Seq<(Seq<char>, int)>,
    body: Seq<u8>,
    post: Map<Seq<char>, int>,
    post_pairs: Seq<(Seq<char>, int)>,
    status: int,
    resp: Seq<char>,
) -> bool {
    if body.len() > crate::MAX_BODY_BYTES {
        status == 413 && resp == "Request body too large"@ && post == pre && post_pairs
            == pre_pairs
    } else if !valid_utf8(body) {
        status == 400 && resp == "Invalid request body"@ && post == pre && post_pairs == pre_pairs
    } else {
        match parse_item_spec(decode_utf8(body)) {
            Some((n, q)) => status == 201 && resp == "Added item to the grocery list"@ && post
                == pre.insert(n, q) && post_pairs == drop_pair(pre_pairs, n).push((n, q)),
            None => status == 400 && resp == "Invalid request body"@ && post == pre && post_pairs
                == pre_pairs,
        }
    }
}

/// Creates or overwrites an item from a request body. Oversized bodies
/// are rejected before anything looks at their content, malformed ones
/// before the store is touched.
pub fn handle_add(list: &mut GroceryList, body: &[u8]) -> (r: Response)
    ensures
        add_outcome(
            old(list)@,
            old(list).pairs(),
            body@,
            final(list)@,
            final(list).pairs(),
            r.status as int,
            r.body@,
        ),
{
    if body.len() > crate::MAX_BODY_BYTES {
        return Response { status: 413, body: String::from_str("Request body too large") };
    }
    match bytes_as_str(body) {
        None => Response { status: 400, body: String::from_str("Invalid request body") },
        Some(t) => {
            proof {
                encode_utf8_decode_utf8(t@);
            }
            match parse_item(t) {
                None => Response { status: 400, body: String::from_str("Invalid request body") },
                Some(item) => {
                    list.insert(item.name, item.quantity);
                    Response {
                        status: 201,
                        body: String::from_str("Added item to the grocery list"),
                    }
                },
            }
        },
    }
}

/// Reads the whole list as its JSON object text.
pub fn handle_get(list: &GroceryList) -> (r: Response)
    ensures
        r.status == 200,
        r.body@ == render_spec(list.pairs()),
        pairs_denote(list.pairs(), list@),
{
    list.pairs_denote_view();
    Response { status: 200, body: render_list(list) }
}

/// Deletes an item by name; deleting an absent name is still a success.
pub fn handle_delete(list: &mut GroceryList, name: &str) -> (r: Response)
    ensures
        final(list)@ == old(list)@.remove(name@),
        final(list).pairs() == drop_pair(old(list).pairs(), name@),
        r.status == 200,
        r.body@ == "Removed item "@ + name@,
{
    list.remove(name);
    let mut msg = String::from_str("Removed item ");
    msg.append(name);
    Response { status: 200, body: msg }
}

/// Serves one request: resolves the route, runs the one store
/// operation it calls for, and builds the response.
pub fn handle_request(list: &mut GroceryList, method: Method, path: &str, body: &[u8]) -> (r:
    Response)
    ensures
        ({
            let plan = route_of(method, path@);
            &&& plan is ListItems ==> r.status == 200 && r.body@ == render_spec(old(list).pairs())
                && pairs_denote(old(list).pairs(), old(list)@) && final(list)@ == old(list)@
                && final(list).pairs() == old(list).pairs()
            &&& plan is AddItem ==> add_outcome(
                old(list)@,
                old(list).pairs(),
                body@,
                final(list)@,
                final(list).pairs(),
                r.status as int,
                r.body@,
            )
            &&& plan matches RoutePlan::DeleteItem(n) ==> r.status == 200 && r.body@
                == "Removed item "@ + n && final(list)@ == old(list)@.remove(n)
                && final(list).pairs() == drop_pair(old(list).pairs(), n)
            &&& plan is NotFound ==> r.status == 404 && r.body@ == "Not found"@ && final(list)@
                == old(list)@ && final(list).pairs() == old(list).pairs()
            &&& plan is MethodNotAllowed ==> r.status == 405 && r.body@ == "Method not allowed"@
                && final(list)@ == old(list)@ && final(list).pairs() == old(list).pairs()
        }),
{
    match route(method, path) {
        Route::AddItem => handle_add(list, body),
        Route::ListItems => handle_get(list),
        Route::DeleteItem(n) => handle_delete(list, n.as_str()),
        Route::NotFound => Response { status: 404, body: String::from_str("Not found") },
        Route::MethodNotAllowed => Response {
            status: 405,
            body: String::from_str("Method not allowed"),
        },
    }
}

} // verus!
