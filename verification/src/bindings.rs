use indexmap::IndexMap;
use vstd::prelude::*;

verus! {

/// `indexmap::IndexMap`: a hash map that keeps its keys in the order in which
/// they were first inserted. Nothing of its inside is known here.
#[verifier::external_type_specification]
#[verifier::external_body]
#[verifier::reject_recursive_types(K)]
#[verifier::reject_recursive_types(V)]
#[verifier::reject_recursive_types(S)]
pub struct ExIndexMap<K, V, S>(IndexMap<K, V, S>);

/// The value that each key of the map is bound to.
pub uninterp spec fn bound_values(m: IndexMap<&str, i64>) -> Map<Seq<char>, i64>;

/// The keys of the map, in the order in which the map walks them: that in
/// which they were first inserted.
pub uninterp spec fn bound_order(m: IndexMap<&str, i64>) -> Seq<Seq<char>>;

/// `IndexMap::new`: the map that it makes holds no key.
#[verifier::external_body]
pub(crate) fn map_new<'a>() -> (m: IndexMap<&'a str, i64>)
    ensures
        forall|k: Seq<char>| !bound_values(m).contains_key(k),
        bound_order(m).len() == 0,
{
    IndexMap::new()
}

/// `IndexMap::clone`: the copy holds the same keys, bound to the same values,
/// in the same order.
#[verifier::external_body]
pub(crate) fn map_clone<'a>(m: &IndexMap<&'a str, i64>) -> (copy: IndexMap<&'a str, i64>)
    ensures
        bound_values(copy) == bound_values(*m),
        bound_order(copy) == bound_order(*m),
{
    m.clone()
}

/// `IndexMap::get`: the value bound to `key`, or nothing where the map does
/// not hold the key. Keys are compared by their text.
#[verifier::external_body]
pub(crate) fn map_get<'a, 'b>(m: &'b IndexMap<&'a str, i64>, key: &str) -> (value: Option<&'b i64>)
    ensures
        value is Some <==> bound_values(*m).contains_key(key@),
        value is Some ==> *value->0 == bound_values(*m)[key@],
{
    m.get(key)
}

/// `IndexMap::insert`: binds `key` to `value` and returns the value that the
/// key was bound to before. A key that the map did not hold goes to the end
/// of the order; one that it held keeps its place.
#[verifier::external_body]
pub(crate) fn map_insert<'a>(m: &mut IndexMap<&'a str, i64>, key: &'a str, value: i64) -> (before:
    Option<i64>)
    ensures
        bound_values(*final(m)) == bound_values(*old(m)).insert(key@, value),
        bound_values(*old(m)).contains_key(key@) ==> bound_order(*final(m)) == bound_order(
            *old(m),
        ),
        !bound_values(*old(m)).contains_key(key@) ==> bound_order(*final(m)) == bound_order(
            *old(m),
        ).push(key@),
        before is Some <==> bound_values(*old(m)).contains_key(key@),
        before is Some ==> before->0 == bound_values(*old(m))[key@],
{
    m.insert(key, value)
}

/// `IndexMap::iter`: the entries of the map, each key with its value, in the
/// order of the map. Every key of the map is among them.
#[verifier::external_body]
pub(crate) fn map_entries<'a>(m: &IndexMap<&'a str, i64>) -> (entries: Vec<(&'a str, i64)>)
    ensures
        entries@.len() == bound_order(*m).len(),
        forall|i: int|
            0 <= i < entries@.len() ==> (#[trigger] entries@[i]).0@ == bound_order(*m)[i]
                && bound_values(*m).contains_key(entries@[i].0@) && entries@[i].1 == bound_values(
                *m,
            )[entries@[i].0@],
        forall|k: Seq<char>| #[trigger]
            bound_values(*m).contains_key(k) ==> exists|i: int|
                0 <= i < entries@.len() && (#[trigger] entries@[i]).0@ == k,
{
    m.iter().map(|(key, value)| (*key, *value)).collect()
}

} // verus!
