//! Laws of the patcher, proved over the document model: idempotence, the
//! no-match no-op, order preservation, first-match-only, and the partial
//! update rule.

use vstd::prelude::*;

use crate::node::NodeV;
use crate::patch::{
    apply_update, apply_updates, doc_matched, elem_matches, first_match_index, has_key,
    lemma_patch_elems_at_index, lemma_patch_elems_no_match, lemma_set_key_same, map_get,
    patch_doc, patch_elems, patched_elem, seq_has_match, set_key, unique_keys, wf_elems,
    wf_entry_values, wf_nodev, EntriesV, UpdateV,
};

verus! {

/// The entries of a mapping node; empty for other nodes.
pub open spec fn root_entries(n: NodeV) -> EntriesV {
    match n {
        NodeV::Mapping(entries) => entries,
        _ => Seq::empty(),
    }
}

/// The sequence under the given top-level key; empty when the document does
/// not have that shape.
pub open spec fn target_elems(doc: NodeV, top_level_key: Seq<char>) -> Seq<NodeV> {
    match map_get(root_entries(doc), top_level_key) {
        Some(NodeV::Sequence(elems)) => elems,
        _ => Seq::empty(),
    }
}

/// Every mapping element of the sequence has unique keys, as every mapping of
/// a parsed document does.
pub open spec fn elems_have_unique_keys(elems: Seq<NodeV>) -> bool {
    forall|j: int| 0 <= j < elems.len()
        ==> (#[trigger] elems[j] matches NodeV::Mapping(es) ==> unique_keys(es))
}

/// No update rewrites the selector field to anything but the selector value.
pub open spec fn updates_preserve_match(
    updates: Seq<UpdateV>,
    selector_field: Seq<char>,
    selector_value: Seq<char>,
) -> bool {
    forall|j: int| 0 <= j < updates.len()
        ==> ((#[trigger] updates[j]).0 == selector_field
            ==> updates[j].1 == Some(selector_value) || updates[j].1 is None)
}

/// The value the last value-carrying update writes to the key, if any.
pub open spec fn last_set_value(updates: Seq<UpdateV>, key: Seq<char>) -> Option<Seq<char>>
    decreases updates.len(),
{
    if updates.len() == 0 {
        None
    } else {
        let rest = last_set_value(updates.drop_first(), key);
        if rest is Some {
            rest
        } else if updates[0].0 == key && updates[0].1 is Some {
            updates[0].1
        } else {
            None
        }
    }
}

/// The value behind a present key of a well-formed entry list is well formed.
pub proof fn lemma_wf_map_get(entries: EntriesV, key: Seq<char>)
    requires
        wf_entry_values(entries),
        map_get(entries, key) is Some,
    ensures
        wf_nodev(map_get(entries, key)->Some_0),
    decreases entries.len(),
{
    if entries.len() > 0 && entries[0].0 != key {
        lemma_wf_map_get(entries.drop_first(), key);
    }
}

/// Every element of a well-formed element list is well formed.
pub proof fn lemma_wf_elem_at(items: Seq<NodeV>, j: int)
    requires
        wf_elems(items),
        0 <= j < items.len(),
    ensures
        wf_nodev(items[j]),
    decreases j,
{
    if j > 0 {
        lemma_wf_elem_at(items.drop_first(), j - 1);
        assert(items.drop_first()[j - 1] == items[j]);
    }
}

/// A well-formed document gives the idempotence law its shape premise: every
/// mapping in the target sequence has unique keys.
pub proof fn lemma_wf_gives_unique_elems(doc: NodeV, top_level_key: Seq<char>)
    requires
        wf_nodev(doc),
    ensures
        elems_have_unique_keys(target_elems(doc, top_level_key)),
{
    match doc {
        NodeV::Mapping(root) => {
            match map_get(root, top_level_key) {
                Some(NodeV::Sequence(elems)) => {
                    lemma_wf_map_get(root, top_level_key);
                    assert(wf_nodev(NodeV::Sequence(elems)));
                    assert forall|j: int| 0 <= j < elems.len()
                        implies (#[trigger] elems[j] matches NodeV::Mapping(es)
                            ==> unique_keys(es)) by {
                        lemma_wf_elem_at(elems, j);
                    }
                }
                _ => {}
            }
        }
        _ => {}
    }
}

/// Reading after `set_key`: the written key holds the value, others are
/// untouched.
pub proof fn lemma_map_get_set(entries: EntriesV, key: Seq<char>, value: NodeV, key2: Seq<char>)
    ensures
        map_get(set_key(entries, key, value), key2)
            == if key2 == key { Some(value) } else { map_get(entries, key2) },
    decreases entries.len(),
{
    if entries.len() == 0 {
        let s = set_key(entries, key, value);
        assert(s[0] == (key, value));
        assert(s.drop_first() =~= Seq::<(Seq<char>, NodeV)>::empty());
        assert(map_get(s.drop_first(), key2) is None);
    } else if entries[0].0 == key {
        let s = set_key(entries, key, value);
        assert(s[0] == (key, value));
        assert(s.drop_first() =~= entries.drop_first());
    } else {
        let s = set_key(entries, key, value);
        assert(s[0] == entries[0]);
        assert(s.drop_first() =~= set_key(entries.drop_first(), key, value));
        lemma_map_get_set(entries.drop_first(), key, value, key2);
    }
}

/// A key is present exactly when some entry holds it.
pub proof fn lemma_has_key_exists(entries: EntriesV, key: Seq<char>)
    ensures
        has_key(entries, key) <==> exists|j: int| 0 <= j < entries.len() && entries[j].0 == key,
    decreases entries.len(),
{
    if entries.len() > 0 {
        lemma_has_key_exists(entries.drop_first(), key);
        assert(forall|j: int| 0 <= j < entries.len() - 1 ==> entries.drop_first()[j] == entries[j + 1]);
        if exists|j: int| 0 <= j < entries.len() && entries[j].0 == key {
            let w = choose|j: int| 0 <= j < entries.len() && entries[j].0 == key;
            if w > 0 {
                assert(entries.drop_first()[w - 1] == entries[w]);
            }
        }
    }
}

/// What `set_key` does to the keys: every existing key keeps its place; a
/// missing key is appended.
pub proof fn lemma_set_key_keys(entries: EntriesV, key: Seq<char>, value: NodeV)
    ensures
        has_key(entries, key) ==> set_key(entries, key, value).len() == entries.len(),
        !has_key(entries, key) ==> set_key(entries, key, value).len() == entries.len() + 1
            && set_key(entries, key, value)[entries.len() as int].0 == key,
        forall|j: int| 0 <= j < entries.len()
            ==> (#[trigger] set_key(entries, key, value)[j]).0 == entries[j].0,
    decreases entries.len(),
{
    let s = set_key(entries, key, value);
    if entries.len() == 0 {
        assert(s[0] == (key, value));
    } else if entries[0].0 == key {
        assert(s[0] == (key, value));
        assert(forall|j: int| 1 <= j < entries.len() ==> s[j] == entries[j]);
    } else {
        lemma_set_key_keys(entries.drop_first(), key, value);
        assert(s[0] == entries[0]);
        let t = set_key(entries.drop_first(), key, value);
        assert(forall|j: int| 1 <= j < s.len() ==> s[j] == t[j - 1]);
        assert(forall|j: int| 0 <= j < entries.len() - 1 ==> entries.drop_first()[j] == entries[j + 1]);
        assert forall|j: int| 0 <= j < entries.len() implies (#[trigger] s[j]).0 == entries[j].0 by {
            if j > 0 {
                assert(s[j].0 == t[j - 1].0);
                assert(t[j - 1].0 == entries.drop_first()[j - 1].0);
            }
        }
    }
}

/// `set_key` keeps keys unique.
pub proof fn lemma_set_key_unique(entries: EntriesV, key: Seq<char>, value: NodeV)
    requires
        unique_keys(entries),
    ensures
        unique_keys(set_key(entries, key, value)),
{
    let s = set_key(entries, key, value);
    lemma_set_key_keys(entries, key, value);
    lemma_has_key_exists(entries, key);
    if has_key(entries, key) {
        assert forall|p: int, q: int| 0 <= p < q < s.len() implies s[p].0 != s[q].0 by {
            assert(s[p].0 == entries[p].0);
            assert(s[q].0 == entries[q].0);
        }
    } else {
        assert forall|p: int, q: int| 0 <= p < q < s.len() implies s[p].0 != s[q].0 by {
            if q < s.len() - 1 {
                assert(s[p].0 == entries[p].0);
                assert(s[q].0 == entries[q].0);
            } else {
                assert(s[q].0 == key);
                assert(s[p].0 == entries[p].0);
            }
        }
    }
}

/// `apply_updates` keeps keys unique.
pub proof fn lemma_apply_updates_unique(entries: EntriesV, updates: Seq<UpdateV>)
    requires
        unique_keys(entries),
    ensures
        unique_keys(apply_updates(entries, updates)),
    decreases updates.len(),
{
    if updates.len() > 0 {
        match updates[0].1 {
            Some(v) => {
                lemma_set_key_unique(entries, updates[0].0, NodeV::Scalar(v));
            }
            None => {}
        }
        lemma_apply_updates_unique(apply_update(entries, updates[0]), updates.drop_first());
    }
}

/// Reading after a chain of updates: the last written value where one was
/// written, the original value everywhere else.
pub proof fn lemma_map_get_after_updates(entries: EntriesV, updates: Seq<UpdateV>, key: Seq<char>)
    ensures
        map_get(apply_updates(entries, updates), key) == match last_set_value(updates, key) {
            Some(v) => Some(NodeV::Scalar(v)),
            None => map_get(entries, key),
        },
    decreases updates.len(),
{
    if updates.len() > 0 {
        lemma_map_get_after_updates(apply_update(entries, updates[0]), updates.drop_first(), key);
        match updates[0].1 {
            Some(v) => {
                lemma_map_get_set(entries, updates[0].0, NodeV::Scalar(v), key);
            }
            None => {}
        }
    }
}

/// A key that a chain of updates writes is present afterwards.
pub proof fn lemma_updates_key_present(entries: EntriesV, updates: Seq<UpdateV>, j: int)
    requires
        0 <= j < updates.len(),
        updates[j].1 is Some,
    ensures
        has_key(apply_updates(entries, updates), updates[j].0),
    decreases updates.len(),
{
    if j == 0 {
        let v = updates[0].1->Some_0;
        lemma_map_get_set(entries, updates[0].0, NodeV::Scalar(v), updates[0].0);
        lemma_map_get_after_updates(apply_update(entries, updates[0]), updates.drop_first(), updates[0].0);
    } else {
        assert(updates.drop_first()[j - 1] == updates[j]);
        lemma_updates_key_present(apply_update(entries, updates[0]), updates.drop_first(), j - 1);
    }
}

/// Applying updates whose value-carrying keys are all present keeps the key
/// list unchanged.
pub proof fn lemma_apply_updates_keys_when_present(entries: EntriesV, updates: Seq<UpdateV>)
    requires
        forall|j: int| 0 <= j < updates.len()
            ==> ((#[trigger] updates[j]).1 is Some ==> has_key(entries, updates[j].0)),
    ensures
        apply_updates(entries, updates).len() == entries.len(),
        forall|j: int| 0 <= j < entries.len()
            ==> (#[trigger] apply_updates(entries, updates)[j]).0 == entries[j].0,
    decreases updates.len(),
{
    if updates.len() > 0 {
        let e1 = apply_update(entries, updates[0]);
        match updates[0].1 {
            Some(v) => {
                lemma_set_key_keys(entries, updates[0].0, NodeV::Scalar(v));
                assert forall|j: int| 0 <= j < updates.drop_first().len()
                    && (#[trigger] updates.drop_first()[j]).1 is Some
                    implies has_key(e1, updates.drop_first()[j].0) by {
                    assert(updates.drop_first()[j] == updates[j + 1]);
                    lemma_map_get_set(entries, updates[0].0, NodeV::Scalar(v), updates[j + 1].0);
                }
            }
            None => {
                assert(forall|j: int| 0 <= j < updates.drop_first().len()
                    ==> updates.drop_first()[j] == updates[j + 1]);
            }
        }
        lemma_apply_updates_keys_when_present(e1, updates.drop_first());
    }
}

/// Two entry lists with unique keys, the same keys in the same places, and
/// the same value behind every key are the same list.
pub proof fn lemma_entries_ext_equal(e1: EntriesV, e2: EntriesV)
    requires
        unique_keys(e1),
        unique_keys(e2),
        e1.len() == e2.len(),
        forall|j: int| 0 <= j < e1.len() ==> (#[trigger] e1[j]).0 == e2[j].0,
        forall|k: Seq<char>| #[trigger] map_get(e1, k) == map_get(e2, k),
    ensures
        e1 == e2,
    decreases e1.len(),
{
    if e1.len() > 0 {
        let k0 = e1[0].0;
        assert(e2[0].0 == k0);
        assert(map_get(e1, k0) == Some(e1[0].1));
        assert(map_get(e2, k0) == Some(e2[0].1));
        assert(e1[0] == e2[0]);
        let t1 = e1.drop_first();
        let t2 = e2.drop_first();
        assert(forall|j: int| 0 <= j < t1.len() ==> t1[j] == e1[j + 1]);
        assert(forall|j: int| 0 <= j < t2.len() ==> t2[j] == e2[j + 1]);
        lemma_has_key_exists(t1, k0);
        lemma_has_key_exists(t2, k0);
        assert forall|k: Seq<char>| #[trigger] map_get(t1, k) == map_get(t2, k) by {
            if k == k0 {
                assert(!has_key(t1, k0));
                assert(!has_key(t2, k0));
            } else {
                assert(map_get(e1, k) == map_get(t1, k));
                assert(map_get(e2, k) == map_get(t2, k));
            }
        }
        lemma_entries_ext_equal(t1, t2);
        assert forall|j: int| 0 <= j < e1.len() implies e1[j] == e2[j] by {
            if j > 0 {
                assert(t1[j - 1] == e1[j]);
                assert(t2[j - 1] == e2[j]);
                assert(t1[j - 1] == t2[j - 1]);
            }
        }
        assert(e1 =~= e2);
    } else {
        assert(e1 =~= e2);
    }
}

/// Applying the same chain of updates a second time changes nothing more.
pub proof fn lemma_apply_updates_idempotent(entries: EntriesV, updates: Seq<UpdateV>)
    requires
        unique_keys(entries),
    ensures
        apply_updates(apply_updates(entries, updates), updates)
            == apply_updates(entries, updates),
{
    let x = apply_updates(entries, updates);
    lemma_apply_updates_unique(entries, updates);
    lemma_apply_updates_unique(x, updates);
    assert forall|j: int| 0 <= j < updates.len() && (#[trigger] updates[j]).1 is Some
        implies has_key(x, updates[j].0) by {
        lemma_updates_key_present(entries, updates, j);
    }
    lemma_apply_updates_keys_when_present(x, updates);
    assert forall|k: Seq<char>| #[trigger] map_get(apply_updates(x, updates), k) == map_get(x, k) by {
        lemma_map_get_after_updates(entries, updates, k);
        lemma_map_get_after_updates(x, updates, k);
    }
    lemma_entries_ext_equal(apply_updates(x, updates), x);
}

/// The first matching index really is the first: it is in range, it matches,
/// and nothing before it does.
pub proof fn lemma_first_match_index_props(elems: Seq<NodeV>, selector_field: Seq<char>, selector_value: Seq<char>)
    requires
        seq_has_match(elems, selector_field, selector_value),
    ensures
        0 <= first_match_index(elems, selector_field, selector_value) < elems.len(),
        elem_matches(elems[first_match_index(elems, selector_field, selector_value)], selector_field, selector_value),
        forall|j: int| 0 <= j < first_match_index(elems, selector_field, selector_value)
            ==> !elem_matches(elems[j], selector_field, selector_value),
    decreases elems.len(),
{
    if !elem_matches(elems[0], selector_field, selector_value) {
        let w = choose|w: int| 0 <= w < elems.len() && elem_matches(elems[w], selector_field, selector_value);
        assert(w > 0);
        assert(forall|j: int| 0 <= j < elems.len() - 1 ==> elems.drop_first()[j] == elems[j + 1]);
        assert(elems.drop_first()[w - 1] == elems[w]);
        assert(seq_has_match(elems.drop_first(), selector_field, selector_value));
        lemma_first_match_index_props(elems.drop_first(), selector_field, selector_value);
        let i = first_match_index(elems, selector_field, selector_value);
        assert(i == 1 + first_match_index(elems.drop_first(), selector_field, selector_value));
        assert forall|j: int| 0 <= j < i
            implies !elem_matches(elems[j], selector_field, selector_value) by {
            if j > 0 {
                assert(elems.drop_first()[j - 1] == elems[j]);
            }
        }
    }
}

/// FIRST MATCH ONLY. When two or more elements match the selector, only the
/// first of them, in document order, is changed: every element at another
/// index keeps its exact value.
pub proof fn lemma_first_match_only(
    elems: Seq<NodeV>,
    selector_field: Seq<char>,
    selector_value: Seq<char>,
    updates: Seq<UpdateV>,
)
    requires
        seq_has_match(elems, selector_field, selector_value),
    ensures
        ({
            let i = first_match_index(elems, selector_field, selector_value);
            let patched = patch_elems(elems, selector_field, selector_value, updates);
            &&& 0 <= i < elems.len()
            &&& elem_matches(elems[i], selector_field, selector_value)
            &&& forall|j: int| 0 <= j < i ==> !elem_matches(elems[j], selector_field, selector_value)
            &&& patched.len() == elems.len()
            &&& patched[i] == patched_elem(elems[i], updates)
            &&& forall|j: int| 0 <= j < elems.len() && j != i ==> patched[j] == elems[j]
        }),
{
    let i = first_match_index(elems, selector_field, selector_value);
    lemma_first_match_index_props(elems, selector_field, selector_value);
    lemma_patch_elems_at_index(elems, selector_field, selector_value, updates, i);
}

/// NO MATCH, NO CHANGE. When no element matches the selector, the patched
/// document is the input document: the caller re-serializes exactly what was
/// parsed.
pub proof fn lemma_no_match_no_op(
    doc: NodeV,
    top_level_key: Seq<char>,
    selector_field: Seq<char>,
    selector_value: Seq<char>,
    updates: Seq<UpdateV>,
)
    requires
        !doc_matched(doc, top_level_key, selector_field, selector_value),
    ensures
        patch_doc(doc, top_level_key, selector_field, selector_value, updates) == doc,
{
    match doc {
        NodeV::Mapping(root) => {
            match map_get(root, top_level_key) {
                Some(NodeV::Sequence(elems)) => {
                    assert(!seq_has_match(elems, selector_field, selector_value));
                    lemma_patch_elems_no_match(elems, selector_field, selector_value, updates);
                    lemma_set_key_same(root, top_level_key, NodeV::Sequence(elems));
                }
                _ => {}
            }
        }
        _ => {}
    }
}

/// ORDER PRESERVATION. A patch changes no mapping's key order: the root
/// mapping keeps its key list, every element of the target sequence other
/// than the first match keeps its exact value, and the patched element keeps
/// its existing keys in place, any new field standing after them.
pub proof fn lemma_order_preservation(
    doc: NodeV,
    top_level_key: Seq<char>,
    selector_field: Seq<char>,
    selector_value: Seq<char>,
    updates: Seq<UpdateV>,
)
    requires
        doc_matched(doc, top_level_key, selector_field, selector_value),
    ensures
        ({
            let root = root_entries(doc);
            let elems = target_elems(doc, top_level_key);
            let i = first_match_index(elems, selector_field, selector_value);
            let pdoc = patch_doc(doc, top_level_key, selector_field, selector_value, updates);
            let pelems = target_elems(pdoc, top_level_key);
            let es = root_entries(elems[i]);
            let pes = root_entries(pelems[i]);
            &&& pdoc is Mapping
            &&& root_entries(pdoc).len() == root.len()
            &&& forall|j: int| 0 <= j < root.len()
                ==> (#[trigger] root_entries(pdoc)[j]).0 == root[j].0
            &&& pelems.len() == elems.len()
            &&& forall|j: int| 0 <= j < elems.len() && j != i ==> pelems[j] == elems[j]
            &&& pes.len() >= es.len()
            &&& forall|j: int| 0 <= j < es.len() ==> (#[trigger] pes[j]).0 == es[j].0
        }),
{
    let root = root_entries(doc);
    let elems = target_elems(doc, top_level_key);
    let i = first_match_index(elems, selector_field, selector_value);
    let patched = patch_elems(elems, selector_field, selector_value, updates);
    lemma_first_match_only(elems, selector_field, selector_value, updates);
    lemma_set_key_keys(root, top_level_key, NodeV::Sequence(patched));
    lemma_map_get_set(root, top_level_key, NodeV::Sequence(patched), top_level_key);
    let es = root_entries(elems[i]);
    assert(elems[i] == NodeV::Mapping(es));
    lemma_apply_updates_keys_prefix(es, updates);
}

/// A chain of updates keeps every existing key in its place; new keys go to
/// the end.
pub proof fn lemma_apply_updates_keys_prefix(entries: EntriesV, updates: Seq<UpdateV>)
    ensures
        apply_updates(entries, updates).len() >= entries.len(),
        forall|j: int| 0 <= j < entries.len()
            ==> (#[trigger] apply_updates(entries, updates)[j]).0 == entries[j].0,
    decreases updates.len(),
{
    if updates.len() > 0 {
        let e1 = apply_update(entries, updates[0]);
        match updates[0].1 {
            Some(v) => {
                lemma_set_key_keys(entries, updates[0].0, NodeV::Scalar(v));
            }
            None => {}
        }
        lemma_apply_updates_keys_prefix(e1, updates.drop_first());
    }
}

/// The selector field still matches after updates that preserve it.
pub proof fn lemma_match_preserved(
    entries: EntriesV,
    updates: Seq<UpdateV>,
    selector_field: Seq<char>,
    selector_value: Seq<char>,
)
    requires
        map_get(entries, selector_field) == Some(NodeV::Scalar(selector_value)),
        updates_preserve_match(updates, selector_field, selector_value),
    ensures
        map_get(apply_updates(entries, updates), selector_field)
            == Some(NodeV::Scalar(selector_value)),
    decreases updates.len(),
{
    if updates.len() > 0 {
        let e1 = apply_update(entries, updates[0]);
        match updates[0].1 {
            Some(v) => {
                lemma_map_get_set(entries, updates[0].0, NodeV::Scalar(v), selector_field);
            }
            None => {}
        }
        assert(forall|j: int| 0 <= j < updates.drop_first().len()
            ==> updates.drop_first()[j] == updates[j + 1]);
        lemma_match_preserved(e1, updates.drop_first(), selector_field, selector_value);
    }
}

/// PARTIAL UPDATE. A field that no value-carrying update names keeps its
/// value: updating only the tag leaves an existing name untouched, and the
/// other way round.
pub proof fn lemma_untouched_field(entries: EntriesV, updates: Seq<UpdateV>, key: Seq<char>)
    requires
        forall|j: int| 0 <= j < updates.len()
            ==> ((#[trigger] updates[j]).0 != key || updates[j].1 is None),
    ensures
        map_get(apply_updates(entries, updates), key) == map_get(entries, key),
    decreases updates.len(),
{
    if updates.len() > 0 {
        let e1 = apply_update(entries, updates[0]);
        match updates[0].1 {
            Some(v) => {
                lemma_map_get_set(entries, updates[0].0, NodeV::Scalar(v), key);
            }
            None => {}
        }
        assert(forall|j: int| 0 <= j < updates.drop_first().len()
            ==> updates.drop_first()[j] == updates[j + 1]);
        lemma_untouched_field(e1, updates.drop_first(), key);
    }
}

/// IDEMPOTENCE. Applying the same patch twice yields what applying it once
/// yields. It asks that mappings in the target sequence have unique keys, as
/// every mapping of a parsed document does, and that no update rewrites the
/// selector field to a different value — rewriting it would make the patched
/// element stop matching, and a second patch would move on to another one.
pub proof fn lemma_patch_idempotent(
    doc: NodeV,
    top_level_key: Seq<char>,
    selector_field: Seq<char>,
    selector_value: Seq<char>,
    updates: Seq<UpdateV>,
)
    requires
        elems_have_unique_keys(target_elems(doc, top_level_key)),
        updates_preserve_match(updates, selector_field, selector_value),
    ensures
        patch_doc(
            patch_doc(doc, top_level_key, selector_field, selector_value, updates),
            top_level_key,
            selector_field,
            selector_value,
            updates,
        ) == patch_doc(doc, top_level_key, selector_field, selector_value, updates),
{
    if !doc_matched(doc, top_level_key, selector_field, selector_value) {
        lemma_no_match_no_op(doc, top_level_key, selector_field, selector_value, updates);
    } else {
        let root = root_entries(doc);
        let elems = target_elems(doc, top_level_key);
        let i = first_match_index(elems, selector_field, selector_value);
        lemma_first_match_only(elems, selector_field, selector_value, updates);
        let es = root_entries(elems[i]);
        assert(elems[i] == NodeV::Mapping(es));
        assert(unique_keys(es));
        let pelems = patch_elems(elems, selector_field, selector_value, updates);
        let proot = set_key(root, top_level_key, NodeV::Sequence(pelems));
        let pdoc = patch_doc(doc, top_level_key, selector_field, selector_value, updates);
        assert(pdoc == NodeV::Mapping(proot));
        lemma_map_get_set(root, top_level_key, NodeV::Sequence(pelems), top_level_key);
        // the patched element still matches, and nothing before it matches
        lemma_match_preserved(es, updates, selector_field, selector_value);
        assert(pelems[i] == NodeV::Mapping(apply_updates(es, updates)));
        assert(elem_matches(pelems[i], selector_field, selector_value));
        assert(forall|j: int| 0 <= j < i ==> pelems[j] == elems[j]);
        lemma_patch_elems_at_index(pelems, selector_field, selector_value, updates, i);
        lemma_apply_updates_idempotent(es, updates);
        assert(patched_elem(pelems[i], updates) == pelems[i]);
        assert(patch_elems(pelems, selector_field, selector_value, updates) =~= pelems);
        lemma_set_key_same(proot, top_level_key, NodeV::Sequence(pelems));
        assert(patch_doc(pdoc, top_level_key, selector_field, selector_value, updates)
            == NodeV::Mapping(set_key(proot, top_level_key, NodeV::Sequence(pelems))));
    }
}

} // verus!
