//! Laws the store and the request layer obey, proved from the same spec
//! functions the executable contracts use.

use crate::api;
use crate::json;
use crate::store::distinct_keys;
use crate::store::map_of;
use crate::store::upserted;
use vstd::prelude::*;

verus! {

/// Law: an upsert of `(name, q)` followed by a snapshot yields a mapping
/// that contains `name -> q`; a `POST` of an accepted body followed by a
/// `GET` therefore reports the posted quantity under the posted name.
pub proof fn lemma_round_trip(v: Seq<(Seq<u8>, int)>, name: Seq<u8>, q: int)
    requires
        distinct_keys(v),
    ensures
        map_of(upserted(v, name, q)).dom().contains(name),
        map_of(upserted(v, name, q))[name] == q,
{
    crate::store::lemma_upserted_map(v, name, q);
}

/// Law: the same at the request layer.  An accepted `POST` body carrying
/// `(name, q)` leaves the store's mapping at `name` equal to `q`.
pub proof fn lemma_post_round_trip(v: Seq<(Seq<u8>, int)>, body: Seq<u8>)
    requires
        distinct_keys(v),
        body.len() <= api::BODY_LIMIT,
        json::parse_item_spec(body) is Some,
    ensures
        map_of(api::post_entries(v, body)).dom().contains((json::parse_item_spec(body)->0).0),
        map_of(api::post_entries(v, body))[(json::parse_item_spec(body)->0).0] == (
        json::parse_item_spec(body)->0).1,
{
    lemma_round_trip(v, (json::parse_item_spec(body)->0).0, (json::parse_item_spec(body)->0).1);
}

/// Law: overwrite idempotence.  Upserting `name` with `q1` and then with
/// `q2` describes the same mapping as upserting `q2` alone, and the result
/// holds exactly one pair for `name`, carrying `q2`.
pub proof fn lemma_overwrite(v: Seq<(Seq<u8>, int)>, name: Seq<u8>, q1: int, q2: int)
    ensures
        distinct_keys(v) ==> map_of(upserted(upserted(v, name, q1), name, q2)) == map_of(
            upserted(v, name, q2),
        ),
        distinct_keys(v) ==> exists|i: int|
            0 <= i < upserted(upserted(v, name, q1), name, q2).len()
                && #[trigger] upserted(upserted(v, name, q1), name, q2)[i] == (name, q2),
        distinct_keys(v) ==> forall|i: int|
            0 <= i < upserted(upserted(v, name, q1), name, q2).len() && #[trigger] upserted(
                upserted(v, name, q1),
                name,
                q2,
            )[i].0 == name ==> upserted(upserted(v, name, q1), name, q2)[i] == (name, q2),
{
    if distinct_keys(v) {
        let w1 = upserted(v, name, q1);
        let w2 = upserted(w1, name, q2);
        crate::store::lemma_upserted_map(v, name, q1);
        crate::store::lemma_upserted_map(w1, name, q2);
        crate::store::lemma_upserted_map(v, name, q2);
        assert(map_of(v).insert(name, q1).insert(name, q2) =~= map_of(v).insert(name, q2));
        assert forall|i: int| 0 <= i < w2.len() && #[trigger] w2[i].0 == name implies w2[i] == (
        name,
        q2,
        ) by {
            let j = choose|j: int| 0 <= j < w2.len() && #[trigger] w2[j] == (name, q2);
            if i != j {
                assert(w2[i].0 != w2[j].0);
            }
        }
    }
}

/// Law: writers on disjoint keys commute, and each key ends up holding its
/// own submitted quantity.
pub proof fn lemma_disjoint_writers(
    v: Seq<(Seq<u8>, int)>,
    n1: Seq<u8>,
    q1: int,
    n2: Seq<u8>,
    q2: int,
)
    requires
        distinct_keys(v),
        n1 != n2,
    ensures
        map_of(upserted(upserted(v, n1, q1), n2, q2)) == map_of(upserted(upserted(v, n2, q2), n1, q1)),
        map_of(upserted(upserted(v, n1, q1), n2, q2))[n1] == q1,
        map_of(upserted(upserted(v, n1, q1), n2, q2))[n2] == q2,
        map_of(upserted(upserted(v, n1, q1), n2, q2)).dom().contains(n1),
        map_of(upserted(upserted(v, n1, q1), n2, q2)).dom().contains(n2),
{
    crate::store::lemma_upserted_map(v, n1, q1);
    crate::store::lemma_upserted_map(upserted(v, n1, q1), n2, q2);
    crate::store::lemma_upserted_map(v, n2, q2);
    crate::store::lemma_upserted_map(upserted(v, n2, q2), n1, q1);
    assert(map_of(v).insert(n1, q1).insert(n2, q2) =~= map_of(v).insert(n2, q2).insert(n1, q1));
}

/// Law: a rejected `POST` mutates nothing.  Over the size limit the body is
/// not even decoded; under it, a body off the accepted grammar leaves the
/// store's pairs exactly as they were.
pub proof fn lemma_rejected_post_is_pure(v: Seq<(Seq<u8>, int)>, body: Seq<u8>)
    requires
        body.len() > api::BODY_LIMIT || json::parse_item_spec(body) is None,
    ensures
        api::post_entries(v, body) == v,
        api::post_status(body) == 413 || api::post_status(body) == 400,
{
}

/// Law: before any `POST`, a `GET` renders the empty JSON object.
pub proof fn lemma_empty_store_get()
    ensures
        json::render(Seq::<(Seq<u8>, int)>::empty()) == seq![0x7bu8, 0x7du8],
{
    assert(json::render(Seq::<(Seq<u8>, int)>::empty()) =~= seq![0x7bu8, 0x7du8]);
}

} // verus!
