//! Trusted boundary to `dashmap`, the concurrent hash map that backs both
//! the content cache and the rate-limit table. Verus sees the map as an
//! opaque value whose contents are named by an uninterpreted map; every
//! method the library relies on is wrapped with a contract that states, over
//! that map, what the method's source does.

use vstd::prelude::*;

verus! {

#[verifier::external_type_specification]
#[verifier::external_body]
#[verifier::reject_recursive_types(K)]
#[verifier::reject_recursive_types(V)]
#[verifier::reject_recursive_types(S)]
pub struct ExDashMap<K, V, S>(dashmap::DashMap<K, V, S>);

/// What a content store holds: each cached key mapped to its stored text.
pub uninterp spec fn content_map(m: dashmap::DashMap<String, String>) -> Map<Seq<char>, Seq<char>>;

/// What a rate-limit table holds: each client identity mapped to the
/// timestamp of its most recently admitted submission.
pub uninterp spec fn stamp_map(m: dashmap::DashMap<String, u64>) -> Map<Seq<char>, u64>;

/// Relies on dashmap::DashMap::new: a fresh map holds nothing.
#[verifier::external_body]
pub(crate) fn content_map_new() -> (m: dashmap::DashMap<String, String>)
    ensures
        content_map(m) == crate::model::empty_contents(),
{
    dashmap::DashMap::new()
}

/// Relies on dashmap::DashMap::insert: binds the key to the value and
/// returns the value the key was bound to before, if any.
#[verifier::external_body]
pub(crate) fn content_map_insert(
    m: &mut dashmap::DashMap<String, String>,
    k: String,
    v: String,
) -> (r: Option<String>)
    ensures
        content_map(*final(m)) == content_map(*old(m)).insert(k@, v@),
        r is Some <==> content_map(*old(m)).contains_key(k@),
        r is Some ==> r.unwrap()@ == content_map(*old(m))[k@],
{
    m.insert(k, v)
}

/// Relies on dashmap::DashMap::get: returns the value bound to the key, if
/// any. The stored value is handed out as a copy.
#[verifier::external_body]
pub(crate) fn content_map_get(m: &dashmap::DashMap<String, String>, k: &String) -> (r: Option<
    String,
>)
    ensures
        r is Some <==> content_map(*m).contains_key(k@),
        r is Some ==> r.unwrap()@ == content_map(*m)[k@],
{
    m.get(k).map(|x| x.value().clone())
}

/// Relies on dashmap::DashMap::remove: unbinds the key and returns the
/// value it was bound to, if any.
#[verifier::external_body]
pub(crate) fn content_map_remove(m: &mut dashmap::DashMap<String, String>, k: &String) -> (r:
    Option<String>)
    ensures
        content_map(*final(m)) == content_map(*old(m)).remove(k@),
        r is Some <==> content_map(*old(m)).contains_key(k@),
        r is Some ==> r.unwrap()@ == content_map(*old(m))[k@],
{
    m.remove(k).map(|p| p.1)
}

/// Relies on dashmap::DashMap::new: a fresh map holds nothing.
#[verifier::external_body]
pub(crate) fn stamp_map_new() -> (m: dashmap::DashMap<String, u64>)
    ensures
        stamp_map(m) == crate::model::empty_stamps(),
{
    dashmap::DashMap::new()
}

/// Relies on dashmap::DashMap::insert: binds the key to the value.
#[verifier::external_body]
pub(crate) fn stamp_map_insert(m: &mut dashmap::DashMap<String, u64>, k: String, v: u64)
    ensures
        stamp_map(*final(m)) == stamp_map(*old(m)).insert(k@, v),
{
    m.insert(k, v);
}

/// Relies on dashmap::DashMap::get: returns the value bound to the key, if
/// any.
#[verifier::external_body]
pub(crate) fn stamp_map_get(m: &dashmap::DashMap<String, u64>, k: &String) -> (r: Option<u64>)
    ensures
        r is Some <==> stamp_map(*m).contains_key(k@),
        r is Some ==> r.unwrap() == stamp_map(*m)[k@],
{
    m.get(k).map(|x| *x.value())
}

} // verus!
