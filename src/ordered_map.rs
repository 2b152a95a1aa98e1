use vstd::prelude::*;
use indexmap::IndexMap;

verus! {

#[verifier::external_type_specification]
#[verifier::external_body]
#[verifier::reject_recursive_types(K)]
#[verifier::reject_recursive_types(V)]
#[verifier::reject_recursive_types(S)]
pub struct ExIndexMap<K, V, S>(IndexMap<K, V, S>);

/// The entries of a map from text to text, in the map's order.
pub uninterp spec fn text_entries(m: IndexMap<String, String>) -> Seq<(Seq<char>, Seq<char>)>;

/// The entries of a map from text to a list of texts, in the map's order.
pub uninterp spec fn list_entries(m: IndexMap<String, Vec<String>>) -> Seq<(Seq<char>, Seq<Seq<char>>)>;

/// The keys of a sequence of entries, in order.
pub open spec fn keys_of<V>(e: Seq<(Seq<char>, V)>) -> Seq<Seq<char>> {
    e.map_values(|p: (Seq<char>, V)| p.0)
}

/// What inserting `k` with `v` does to an ordered map's entries: an entry with an
/// equal key keeps its place and takes the new value; otherwise the pair goes last.
pub open spec fn inserted<V>(e: Seq<(Seq<char>, V)>, k: Seq<char>, v: V) -> Seq<(Seq<char>, V)> {
    if exists|i: int| 0 <= i < e.len() && #[trigger] e[i].0 == k {
        let i = choose|i: int| 0 <= i < e.len() && #[trigger] e[i].0 == k;
        e.update(i, (k, v))
    } else {
        e.push((k, v))
    }
}

/// The texts of a list, as character sequences.
pub open spec fn texts_of(v: Seq<String>) -> Seq<Seq<char>> {
    v.map_values(|s: String| s@)
}

/// Relies on `IndexMap::new`: a new map has no entries.
#[verifier::external_body]
pub(crate) fn new_text_map() -> (r: IndexMap<String, String>)
    ensures
        text_entries(r) == Seq::<(Seq<char>, Seq<char>)>::empty(),
{
    IndexMap::new()
}

/// Relies on `IndexMap::insert`: an existing key keeps its place and takes the new
/// value, a new key is placed last.
#[verifier::external_body]
pub(crate) fn insert_text(m: &mut IndexMap<String, String>, k: String, v: String)
    ensures
        text_entries(*final(m)) == inserted(text_entries(*old(m)), k@, v@),
{
    m.insert(k, v);
}

/// Relies on `IndexMap::new`: a new map has no entries.
#[verifier::external_body]
pub(crate) fn new_list_map() -> (r: IndexMap<String, Vec<String>>)
    ensures
        list_entries(r) == Seq::<(Seq<char>, Seq<Seq<char>>)>::empty(),
{
    IndexMap::new()
}

/// Relies on `IndexMap::insert`: an existing key keeps its place and takes the new
/// value, a new key is placed last.
#[verifier::external_body]
pub(crate) fn insert_list(m: &mut IndexMap<String, Vec<String>>, k: String, v: Vec<String>)
    ensures
        list_entries(*final(m)) == inserted(list_entries(*old(m)), k@, texts_of(v@)),
{
    m.insert(k, v);
}

/// Relies on `IndexMap::is_empty`: true exactly when the map has no entries.
#[verifier::external_body]
pub(crate) fn list_map_is_empty(m: &IndexMap<String, Vec<String>>) -> (r: bool)
    ensures
        r == (list_entries(*m).len() == 0),
{
    m.is_empty()
}

} // verus!

verus! {

/// The entries of a map built by inserting each pair of `e` in turn into an empty map.
pub open spec fn inserted_all<V>(e: Seq<(Seq<char>, V)>) -> Seq<(Seq<char>, V)>
    decreases e.len(),
{
    if e.len() == 0 {
        Seq::empty()
    } else {
        inserted(inserted_all(e.drop_last()), e.last().0, e.last().1)
    }
}

} // verus!
