//! The insertion-ordered maps of the configuration (`indexmap::IndexMap`),
//! seen as sequences of (key, value) entries in their order.
use crate::models::{RunScript, RunScriptView, ServiceConfig, ServiceConfigView};
use indexmap::IndexMap;
use vstd::prelude::*;

verus! {

/// `indexmap::IndexMap`, used opaquely.
#[verifier::external_type_specification]
#[verifier::external_body]
#[verifier::reject_recursive_types(K)]
#[verifier::reject_recursive_types(V)]
#[verifier::reject_recursive_types(S)]
pub struct ExIndexMap<K, V, S>(IndexMap<K, V, S>);

/// The entries of a script map, in order: each key's text and the script.
pub uninterp spec fn script_entries(m: IndexMap<String, RunScript>) -> Seq<(Seq<char>, RunScriptView)>;

/// The entries of a service map, in order: each key's text and the service.
pub uninterp spec fn service_entries(m: IndexMap<String, ServiceConfig>) -> Seq<(Seq<char>, ServiceConfigView)>;

/// The position of the first entry whose key is `k`.
pub open spec fn entry_index<V>(es: Seq<(Seq<char>, V)>, k: Seq<char>) -> Option<int>
    decreases es.len(),
{
    if es.len() == 0 {
        None
    } else if es[0].0 == k {
        Some(0)
    } else {
        match entry_index(es.drop_first(), k) {
            Some(i) => Some(i + 1),
            None => None,
        }
    }
}

/// The value stored under `k`.
pub open spec fn entry_get<V>(es: Seq<(Seq<char>, V)>, k: Seq<char>) -> Option<V> {
    match entry_index(es, k) {
        Some(i) => Some(es[i].1),
        None => None,
    }
}

/// `es` after storing `v` under `k`: an existing entry keeps its place and
/// takes the new value; otherwise the entry goes last.
pub open spec fn entry_insert<V>(es: Seq<(Seq<char>, V)>, k: Seq<char>, v: V) -> Seq<
    (Seq<char>, V),
> {
    match entry_index(es, k) {
        Some(i) => es.update(i, (k, v)),
        None => es.push((k, v)),
    }
}

/// `es` without the entries whose key is `k`, the others keeping their order.
pub open spec fn entry_remove<V>(es: Seq<(Seq<char>, V)>, k: Seq<char>) -> Seq<(Seq<char>, V)>
    decreases es.len(),
{
    if es.len() == 0 {
        es
    } else {
        let rest = entry_remove(es.drop_last(), k);
        if es.last().0 == k {
            rest
        } else {
            rest.push(es.last())
        }
    }
}

/// The keys of `es`, in order.
pub open spec fn entry_keys<V>(es: Seq<(Seq<char>, V)>) -> Seq<Seq<char>> {
    es.map_values(|e: (Seq<char>, V)| e.0)
}

/// Lemma: `entry_index` finds the first entry with the key.
pub proof fn lemma_entry_index<V>(es: Seq<(Seq<char>, V)>, k: Seq<char>)
    ensures
        match entry_index(es, k) {
            Some(i) => 0 <= i < es.len() && es[i].0 == k && forall|j: int|
                0 <= j < i ==> es[j].0 != k,
            None => forall|j: int| 0 <= j < es.len() ==> es[j].0 != k,
        },
    decreases es.len(),
{
    if es.len() > 0 {
        lemma_entry_index(es.drop_first(), k);
        if es[0].0 != k {
            assert forall|j: int| 1 <= j < es.len() implies es[j] == es.drop_first()[j - 1] by {}
        }
    }
}

/// Lemma: after `entry_remove`, no entry has the key.
pub proof fn lemma_entry_remove<V>(es: Seq<(Seq<char>, V)>, k: Seq<char>)
    ensures
        forall|j: int| 0 <= j < entry_remove(es, k).len() ==> entry_remove(es, k)[j].0 != k,
        entry_index(entry_remove(es, k), k) is None,
    decreases es.len(),
{
    if es.len() > 0 {
        lemma_entry_remove(es.drop_last(), k);
    }
    lemma_entry_index(entry_remove(es, k), k);
}

/// Lemma: after `entry_insert`, the key maps to the inserted value.
pub proof fn lemma_entry_insert_get<V>(es: Seq<(Seq<char>, V)>, k: Seq<char>, v: V)
    ensures
        entry_get(entry_insert(es, k, v), k) == Some(v),
{
    lemma_entry_index(es, k);
    let r = entry_insert(es, k, v);
    lemma_entry_index(r, k);
    match entry_index(es, k) {
        Some(i) => {
            match entry_index(r, k) {
                Some(j) => {
                    if j < i {
                        assert(r[j] == es[j]);
                    } else if j > i {
                        assert(r[i].0 == k);
                    }
                },
                None => {
                    assert(r[i].0 == k);
                },
            }
        },
        None => {
            match entry_index(r, k) {
                Some(j) => {
                    if j < es.len() {
                        assert(r[j] == es[j]);
                    }
                },
                None => {
                    assert(r[es.len() as int].0 == k);
                },
            }
        },
    }
}

/// Lemma: `entry_insert` leaves the value of every other key unchanged.
pub proof fn lemma_entry_insert_other<V>(
    es: Seq<(Seq<char>, V)>,
    k: Seq<char>,
    v: V,
    k2: Seq<char>,
)
    requires
        k2 != k,
    ensures
        entry_get(entry_insert(es, k, v), k2) == entry_get(es, k2),
{
    lemma_entry_index(es, k);
    lemma_entry_index(es, k2);
    let r = entry_insert(es, k, v);
    lemma_entry_index(r, k2);
    match entry_index(es, k2) {
        Some(i) => {
            assert(r[i] == es[i]);
            match entry_index(r, k2) {
                Some(j) => {
                    if j < i {
                        if j < es.len() {
                            assert(r[j].0 == es[j].0 || r[j].0 == k);
                        }
                    } else if j > i {
                    }
                },
                None => {},
            }
        },
        None => {
            match entry_index(r, k2) {
                Some(j) => {
                    if j < es.len() {
                        assert(r[j].0 == es[j].0 || r[j].0 == k);
                    }
                },
                None => {},
            }
        },
    }
}

/// A new, empty script map (`IndexMap::new`).
#[verifier::external_body]
pub(crate) fn scripts_new() -> (m: IndexMap<String, RunScript>)
    ensures
        script_entries(m) == Seq::<(Seq<char>, RunScriptView)>::empty(),
{
    IndexMap::new()
}

/// `IndexMap::insert` on a script map: an existing key keeps its place and
/// takes the new value (the old one is returned); a new key goes last.
#[verifier::external_body]
pub(crate) fn scripts_insert(m: &mut IndexMap<String, RunScript>, k: String, v: RunScript) -> (r: Option<RunScript>)
    ensures
        script_entries(*final(m)) == entry_insert(script_entries(*old(m)), k@, v@),
        match entry_get(script_entries(*old(m)), k@) {
            Some(ov) => r matches Some(x) && x@ == ov,
            None => r is None,
        },
{
    m.insert(k, v)
}

/// `IndexMap::get` on a script map.
#[verifier::external_body]
pub(crate) fn scripts_get(m: &IndexMap<String, RunScript>, k: String) -> (r: Option<&RunScript>)
    ensures
        match entry_get(script_entries(*m), k@) {
            Some(v) => r matches Some(x) && x@ == v,
            None => r is None,
        },
{
    m.get(&k)
}

/// `IndexMap::shift_remove` on a script map: the entry with the key goes,
/// the others keep their order; the removed value is returned.
#[verifier::external_body]
pub(crate) fn scripts_shift_remove(m: &mut IndexMap<String, RunScript>, k: &str) -> (r: Option<RunScript>)
    ensures
        script_entries(*final(m)) == entry_remove(script_entries(*old(m)), k@),
        match entry_get(script_entries(*old(m)), k@) {
            Some(ov) => r matches Some(x) && x@ == ov,
            None => r is None,
        },
{
    m.shift_remove(k)
}

/// `IndexMap::len` on a script map.
#[verifier::external_body]
pub(crate) fn scripts_len(m: &IndexMap<String, RunScript>) -> (r: usize)
    ensures
        r == script_entries(*m).len(),
{
    m.len()
}

/// `IndexMap::get_index` on a script map: the entry at position `i`.
#[verifier::external_body]
pub(crate) fn scripts_get_index(m: &IndexMap<String, RunScript>, i: usize) -> (r: Option<(&String, &RunScript)>)
    ensures
        i < script_entries(*m).len() ==> r is Some && r.unwrap().0@ == script_entries(*m)[i as int].0
            && r.unwrap().1@ == script_entries(*m)[i as int].1,
        i >= script_entries(*m).len() ==> r is None,
{
    m.get_index(i)
}

/// A new, empty service map (`IndexMap::new`).
#[verifier::external_body]
pub(crate) fn services_new() -> (m: IndexMap<String, ServiceConfig>)
    ensures
        service_entries(m) == Seq::<(Seq<char>, ServiceConfigView)>::empty(),
{
    IndexMap::new()
}

/// `IndexMap::insert` on a service map: an existing key keeps its place and
/// takes the new value; a new key goes last.
#[verifier::external_body]
pub(crate) fn services_insert(m: &mut IndexMap<String, ServiceConfig>, k: String, v: ServiceConfig) -> (r: Option<ServiceConfig>)
    ensures
        service_entries(*final(m)) == entry_insert(service_entries(*old(m)), k@, v@),
        match entry_get(service_entries(*old(m)), k@) {
            Some(ov) => r matches Some(x) && x@ == ov,
            None => r is None,
        },
{
    m.insert(k, v)
}

/// `IndexMap::len` on a service map.
#[verifier::external_body]
pub(crate) fn services_len(m: &IndexMap<String, ServiceConfig>) -> (r: usize)
    ensures
        r == service_entries(*m).len(),
{
    m.len()
}

/// `IndexMap::get_index` on a service map: the entry at position `i`.
#[verifier::external_body]
pub(crate) fn services_get_index(m: &IndexMap<String, ServiceConfig>, i: usize) -> (r: Option<(&String, &ServiceConfig)>)
    ensures
        i < service_entries(*m).len() ==> r is Some && r.unwrap().0@ == service_entries(*m)[i as int].0
            && r.unwrap().1@ == service_entries(*m)[i as int].1,
        i >= service_entries(*m).len() ==> r is None,
{
    m.get_index(i)
}

} // verus!
