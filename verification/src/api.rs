//! The request layer: routing, the body-size guard, decoding, and the
//! response for each request, stated exactly over the store's view and the
//! codec's grammar.

use crate::json;
use crate::store;
use crate::store::Store;
use vstd::prelude::*;

verus! {

/// The request methods the router distinguishes.
pub enum Method {
    Get,
    Post,
    Other,
}

/// A response: a status code and a body.
pub struct Response {
    pub status: u16,
    pub body: Vec<u8>,
}

/// The largest accepted `POST` body, in bytes.
pub const BODY_LIMIT: usize = 16384;

/// The route both operations live under: `/v1/groceries`.
pub open spec fn groceries_path() -> Seq<u8> {
    seq![
        0x2fu8,
        0x76u8,
        0x31u8,
        0x2fu8,
        0x67u8,
        0x72u8,
        0x6fu8,
        0x63u8,
        0x65u8,
        0x72u8,
        0x69u8,
        0x65u8,
        0x73u8,
    ]
}

/// The `201` confirmation text: `Added items to the grocery list`.
pub open spec fn confirmation_msg() -> Seq<u8> {
    seq![
        0x41u8,
        0x64u8,
        0x64u8,
        0x65u8,
        0x64u8,
        0x20u8,
        0x69u8,
        0x74u8,
        0x65u8,
        0x6du8,
        0x73u8,
        0x20u8,
        0x74u8,
        0x6fu8,
        0x20u8,
        0x74u8,
        0x68u8,
        0x65u8,
        0x20u8,
        0x67u8,
        0x72u8,
        0x6fu8,
        0x63u8,
        0x65u8,
        0x72u8,
        0x79u8,
        0x20u8,
        0x6cu8,
        0x69u8,
        0x73u8,
        0x74u8,
    ]
}

/// The status a `POST` body earns: `413` over the size limit, `400` when it
/// does not match the accepted grammar, `201` otherwise.
pub open spec fn post_status(body: Seq<u8>) -> int {
    if body.len() > BODY_LIMIT {
        413
    } else if json::parse_item_spec(body) is Some {
        201
    } else {
        400
    }
}

/// The store's pairs after a `POST`: upserted on success, untouched on any
/// rejection.
pub open spec fn post_entries(v: Seq<(Seq<u8>, int)>, body: Seq<u8>) -> Seq<(Seq<u8>, int)> {
    if body.len() <= BODY_LIMIT && json::parse_item_spec(body) is Some {
        store::upserted(
            v,
            (json::parse_item_spec(body)->0).0,
            (json::parse_item_spec(body)->0).1,
        )
    } else {
        v
    }
}

/// The body of a `POST` response: the confirmation text on success, empty
/// on any rejection.
pub open spec fn post_reply(body: Seq<u8>) -> Seq<u8> {
    if post_status(body) == 201 {
        confirmation_msg()
    } else {
        Seq::empty()
    }
}

/// Whether `p` is exactly the groceries route.
pub fn is_groceries_path(p: &Vec<u8>) -> (r: bool)
    ensures
        r == (p@ == groceries_path()),
{
    let r = p.len() == 13 && p[0] == 0x2f && p[1] == 0x76 && p[2] == 0x31 && p[3] == 0x2f && p[4]
        == 0x67 && p[5] == 0x72 && p[6] == 0x6f && p[7] == 0x63 && p[8] == 0x65 && p[9] == 0x72
        && p[10] == 0x69 && p[11] == 0x65 && p[12] == 0x73;
    proof {
        if r {
            assert(p@ =~= groceries_path());
        }
        if p@ == groceries_path() {
            assert(p@.len() == 13);
            assert(p@[0] == 0x2f && p@[1] == 0x76 && p@[2] == 0x31 && p@[3] == 0x2f && p@[4]
                == 0x67 && p@[5] == 0x72 && p@[6] == 0x6f && p@[7] == 0x63 && p@[8] == 0x65 && p@[9]
                == 0x72 && p@[10] == 0x69 && p@[11] == 0x65 && p@[12] == 0x73);
        }
    }
    r
}

/// The `201` confirmation body.
pub fn confirmation_body() -> (r: Vec<u8>)
    ensures
        r@ == confirmation_msg(),
{
    let mut out: Vec<u8> = Vec::new();
    out.push(0x41);
    out.push(0x64);
    out.push(0x64);
    out.push(0x65);
    out.push(0x64);
    out.push(0x20);
    out.push(0x69);
    out.push(0x74);
    out.push(0x65);
    out.push(0x6d);
    out.push(0x73);
    out.push(0x20);
    out.push(0x74);
    out.push(0x6f);
    out.push(0x20);
    out.push(0x74);
    out.push(0x68);
    out.push(0x65);
    out.push(0x20);
    out.push(0x67);
    out.push(0x72);
    out.push(0x6f);
    out.push(0x63);
    out.push(0x65);
    out.push(0x72);
    out.push(0x79);
    out.push(0x20);
    out.push(0x6c);
    out.push(0x69);
    out.push(0x73);
    out.push(0x74);
    proof {
        assert(out@ =~= confirmation_msg());
    }
    out
}

/// Applies a `POST /v1/groceries` body to the store.
///
/// A body over the size limit earns `413` and is not even decoded; a body
/// that does not match the accepted grammar earns `400`; in both cases the
/// store is untouched.  Otherwise the decoded entry is upserted and the
/// response is `201` with the confirmation text.
pub fn handle_post(store: &mut Store, body: &Vec<u8>) -> (r: Response)
    requires
        old(store).wf(),
    ensures
        final(store).wf(),
        r.status == post_status(body@),
        final(store).entries_view() == post_entries(old(store).entries_view(), body@),
        final(store)@ == store::map_of(post_entries(old(store).entries_view(), body@)),
        r.body@ == post_reply(body@),
{
    if body.len() > BODY_LIMIT {
        return Response { status: 413, body: Vec::new() };
    }
    match json::parse_item(body) {
        None => Response { status: 400, body: Vec::new() },
        Some(e) => {
            store.upsert(e.name, e.quantity);
            Response { status: 201, body: confirmation_body() }
        },
    }
}

/// Answers `GET /v1/groceries`: `200` with the store rendered as a JSON
/// object, in the stored entry order.
pub fn handle_get(store: &Store) -> (r: Response)
    ensures
        r.status == 200,
        r.body@ == json::render(store.entries_view()),
{
    let body = json::render_pairs(&store.entries);
    proof {
        assert(store.entries@.map_values(|e: store::Entry| store::pair_of(e))
            =~= store.entries_view());
    }
    Response { status: 200, body }
}

/// Routes one request.  Anything off the groceries route earns `404`; a
/// method other than `GET` or `POST` earns `405`; otherwise the request is
/// handled as the method says.  Only a successful `POST` touches the store.
pub fn handle_request(store: &mut Store, method: Method, path: &Vec<u8>, body: &Vec<u8>) -> (r:
    Response)
    requires
        old(store).wf(),
    ensures
        final(store).wf(),
        path@ != groceries_path() ==> r.status == 404 && *final(store) == *old(store) && r.body@
            == Seq::<u8>::empty(),
        path@ == groceries_path() ==> match method {
            Method::Get => r.status == 200 && r.body@ == json::render(old(store).entries_view())
                && *final(store) == *old(store),
            Method::Post => r.status == post_status(body@) && final(store).entries_view()
                == post_entries(old(store).entries_view(), body@) && r.body@ == post_reply(body@),
            Method::Other => r.status == 405 && *final(store) == *old(store) && r.body@
                == Seq::<u8>::empty(),
        },
{
    if !is_groceries_path(path) {
        return Response { status: 404, body: Vec::new() };
    }
    match method {
        Method::Get => handle_get(store),
        Method::Post => handle_post(store, body),
        Method::Other => Response { status: 405, body: Vec::new() },
    }
}

} // verus!
