//! The patcher: find the target sequence under a top-level key, find the
//! first element whose selector field equals the selector value, and set the
//! requested fields on that element, leaving everything else untouched.

use vstd::prelude::*;

use crate::node::{entries_view, items_view, lemma_entries_view, lemma_items_view, node_view, Node, NodeV};

verus! {

/// The model of a mapping's entry list: keys in insertion order.
pub type EntriesV = Seq<(Seq<char>, NodeV)>;

/// The model of one field update: a field name and, when present, the new
/// scalar value. An update without a value is a no-op for that field.
pub type UpdateV = (Seq<char>, Option<Seq<char>>);

/// One field update of a patch request.
#[derive(Debug, PartialEq, Eq)]
pub struct FieldUpdate {
    pub field_name: String,
    pub new_value: Option<String>,
}

impl View for FieldUpdate {
    type V = UpdateV;

    open spec fn view(&self) -> UpdateV {
        (
            self.field_name@,
            match self.new_value {
                Some(s) => Some(s@),
                None => None,
            },
        )
    }
}

pub open spec fn updates_view(updates: Seq<FieldUpdate>) -> Seq<UpdateV> {
    updates.map_values(|u: FieldUpdate| u@)
}

/// The value of the first entry with the given key, if any.
pub open spec fn map_get(entries: EntriesV, key: Seq<char>) -> Option<NodeV>
    decreases entries.len(),
{
    if entries.len() == 0 {
        None
    } else if entries[0].0 == key {
        Some(entries[0].1)
    } else {
        map_get(entries.drop_first(), key)
    }
}

pub open spec fn has_key(entries: EntriesV, key: Seq<char>) -> bool {
    map_get(entries, key) is Some
}

/// Replace the value of the first entry with the given key, keeping its
/// position; append a new entry when the key is absent.
pub open spec fn set_key(entries: EntriesV, key: Seq<char>, value: NodeV) -> EntriesV
    decreases entries.len(),
{
    if entries.len() == 0 {
        seq![(key, value)]
    } else if entries[0].0 == key {
        seq![(key, value)] + entries.drop_first()
    } else {
        seq![entries[0]] + set_key(entries.drop_first(), key, value)
    }
}

/// One update applied to an entry list.
pub open spec fn apply_update(entries: EntriesV, update: UpdateV) -> EntriesV {
    match update.1 {
        Some(v) => set_key(entries, update.0, NodeV::Scalar(v)),
        None => entries,
    }
}

/// All updates applied in order.
pub open spec fn apply_updates(entries: EntriesV, updates: Seq<UpdateV>) -> EntriesV
    decreases updates.len(),
{
    if updates.len() == 0 {
        entries
    } else {
        apply_updates(apply_update(entries, updates[0]), updates.drop_first())
    }
}

/// No two entries of the list share a key.
pub open spec fn unique_keys(entries: EntriesV) -> bool {
    forall|p: int, q: int| 0 <= p < q < entries.len() ==> entries[p].0 != entries[q].0
}

/// A well-formed tree: every mapping, at every depth, has unique keys —
/// the shape every parsed document has.
pub open spec fn wf_nodev(n: NodeV) -> bool
    decreases n,
{
    match n {
        NodeV::Scalar(_) => true,
        NodeV::Sequence(items) => wf_elems(items),
        NodeV::Mapping(entries) => unique_keys(entries) && wf_entry_values(entries),
    }
}

/// Every element of the sequence is well formed.
pub open spec fn wf_elems(items: Seq<NodeV>) -> bool
    decreases items,
{
    if items.len() == 0 {
        true
    } else {
        wf_nodev(items[0]) && wf_elems(items.drop_first())
    }
}

/// Every value of the entry list is well formed.
pub open spec fn wf_entry_values(entries: EntriesV) -> bool
    decreases entries,
{
    if entries.len() == 0 {
        true
    } else {
        wf_nodev(entries[0].1) && wf_entry_values(entries.drop_first())
    }
}

/// Whether an element is a mapping whose selector field is the given scalar.
pub open spec fn elem_matches(elem: NodeV, selector_field: Seq<char>, selector_value: Seq<char>) -> bool {
    elem matches NodeV::Mapping(entries)
        && map_get(entries, selector_field) == Some(NodeV::Scalar(selector_value))
}

/// The element with its updates applied (elements that are not mappings are
/// never patched, so they pass through unchanged).
pub open spec fn patched_elem(elem: NodeV, updates: Seq<UpdateV>) -> NodeV {
    match elem {
        NodeV::Mapping(entries) => NodeV::Mapping(apply_updates(entries, updates)),
        _ => elem,
    }
}

pub open spec fn seq_has_match(elems: Seq<NodeV>, selector_field: Seq<char>, selector_value: Seq<char>) -> bool {
    exists|i: int| 0 <= i < elems.len() && elem_matches(elems[i], selector_field, selector_value)
}

/// The index of the first matching element; meaningful only when
/// `seq_has_match` holds.
pub open spec fn first_match_index(elems: Seq<NodeV>, selector_field: Seq<char>, selector_value: Seq<char>) -> int
    decreases elems.len(),
{
    if elems.len() == 0 {
        0
    } else if elem_matches(elems[0], selector_field, selector_value) {
        0
    } else {
        1 + first_match_index(elems.drop_first(), selector_field, selector_value)
    }
}

/// The sequence with only its first matching element patched.
pub open spec fn patch_elems(
    elems: Seq<NodeV>,
    selector_field: Seq<char>,
    selector_value: Seq<char>,
    updates: Seq<UpdateV>,
) -> Seq<NodeV>
    decreases elems.len(),
{
    if elems.len() == 0 {
        elems
    } else if elem_matches(elems[0], selector_field, selector_value) {
        seq![patched_elem(elems[0], updates)] + elems.drop_first()
    } else {
        seq![elems[0]] + patch_elems(elems.drop_first(), selector_field, selector_value, updates)
    }
}

/// Whether a patch of the document would find an element to mutate: the root
/// is a mapping, the top-level key holds a sequence, and some element of it
/// matches the selector.
pub open spec fn doc_matched(
    doc: NodeV,
    top_level_key: Seq<char>,
    selector_field: Seq<char>,
    selector_value: Seq<char>,
) -> bool {
    doc matches NodeV::Mapping(root)
        && map_get(root, top_level_key) matches Some(NodeV::Sequence(elems))
        && seq_has_match(elems, selector_field, selector_value)
}

/// The patched document. When the root is not a mapping, or the top-level key
/// is absent or does not hold a sequence, the document is unchanged.
pub open spec fn patch_doc(
    doc: NodeV,
    top_level_key: Seq<char>,
    selector_field: Seq<char>,
    selector_value: Seq<char>,
    updates: Seq<UpdateV>,
) -> NodeV {
    match doc {
        NodeV::Mapping(root) => match map_get(root, top_level_key) {
            Some(NodeV::Sequence(elems)) => NodeV::Mapping(
                set_key(
                    root,
                    top_level_key,
                    NodeV::Sequence(patch_elems(elems, selector_field, selector_value, updates)),
                ),
            ),
            _ => doc,
        },
        _ => doc,
    }
}

/// `map_get` returns the entry at the first index holding the key.
pub proof fn lemma_map_get_at_index(entries: EntriesV, key: Seq<char>, i: int)
    requires
        0 <= i < entries.len(),
        entries[i].0 == key,
        forall|j: int| 0 <= j < i ==> entries[j].0 != key,
    ensures
        map_get(entries, key) == Some(entries[i].1),
    decreases i,
{
    if i > 0 {
        assert(entries[0].0 != key);
        assert(forall|j: int| 0 <= j < i - 1 ==> entries.drop_first()[j] == entries[j + 1]);
        lemma_map_get_at_index(entries.drop_first(), key, i - 1);
    }
}

/// `map_get` returns nothing when no entry holds the key.
pub proof fn lemma_map_get_none(entries: EntriesV, key: Seq<char>)
    requires
        forall|j: int| 0 <= j < entries.len() ==> entries[j].0 != key,
    ensures
        map_get(entries, key) is None,
    decreases entries.len(),
{
    if entries.len() > 0 {
        assert(forall|j: int| 0 <= j < entries.len() - 1 ==> entries.drop_first()[j] == entries[j + 1]);
        lemma_map_get_none(entries.drop_first(), key);
    }
}

/// `set_key` on a present key is an in-place update at its first index.
pub proof fn lemma_set_key_at_index(entries: EntriesV, key: Seq<char>, value: NodeV, i: int)
    requires
        0 <= i < entries.len(),
        entries[i].0 == key,
        forall|j: int| 0 <= j < i ==> entries[j].0 != key,
    ensures
        set_key(entries, key, value) == entries.update(i, (key, value)),
    decreases i,
{
    if i == 0 {
        assert(set_key(entries, key, value) =~= entries.update(0, (key, value)));
    } else {
        assert(entries[0].0 != key);
        assert(forall|j: int| 0 <= j < i - 1 ==> entries.drop_first()[j] == entries[j + 1]);
        lemma_set_key_at_index(entries.drop_first(), key, value, i - 1);
        assert(set_key(entries, key, value) =~= entries.update(i, (key, value)));
    }
}

/// `set_key` on an absent key appends the entry.
pub proof fn lemma_set_key_push(entries: EntriesV, key: Seq<char>, value: NodeV)
    requires
        forall|j: int| 0 <= j < entries.len() ==> entries[j].0 != key,
    ensures
        set_key(entries, key, value) == entries.push((key, value)),
    decreases entries.len(),
{
    if entries.len() == 0 {
        assert(set_key(entries, key, value) =~= entries.push((key, value)));
    } else {
        assert(forall|j: int| 0 <= j < entries.len() - 1 ==> entries.drop_first()[j] == entries[j + 1]);
        lemma_set_key_push(entries.drop_first(), key, value);
        assert(set_key(entries, key, value) =~= entries.push((key, value)));
    }
}

/// `set_key` that writes the value a key already has changes nothing.
pub proof fn lemma_set_key_same(entries: EntriesV, key: Seq<char>, value: NodeV)
    requires
        map_get(entries, key) == Some(value),
    ensures
        set_key(entries, key, value) == entries,
    decreases entries.len(),
{
    if entries.len() > 0 {
        if entries[0].0 == key {
            assert((key, value) == entries[0]);
            assert(set_key(entries, key, value) =~= entries);
        } else {
            lemma_set_key_same(entries.drop_first(), key, value);
            assert(set_key(entries, key, value) =~= entries);
        }
    }
}

/// Appending one update to a chain applies it after the chain.
pub proof fn lemma_apply_updates_push(entries: EntriesV, updates: Seq<UpdateV>, update: UpdateV)
    ensures
        apply_updates(entries, updates.push(update))
            == apply_update(apply_updates(entries, updates), update),
    decreases updates.len(),
{
    if updates.len() == 0 {
        assert(updates.push(update)[0] == update);
        assert(updates.push(update).drop_first() =~= Seq::<UpdateV>::empty());
        assert(apply_updates(apply_update(entries, update), Seq::<UpdateV>::empty())
            == apply_update(entries, update));
        assert(apply_updates(entries, Seq::<UpdateV>::empty()) == entries);
    } else {
        assert(updates.push(update)[0] == updates[0]);
        assert(updates.push(update).drop_first() =~= updates.drop_first().push(update));
        lemma_apply_updates_push(apply_update(entries, updates[0]), updates.drop_first(), update);
    }
}

/// `patch_elems` updates exactly the first matching element.
pub proof fn lemma_patch_elems_at_index(
    elems: Seq<NodeV>,
    selector_field: Seq<char>,
    selector_value: Seq<char>,
    updates: Seq<UpdateV>,
    i: int,
)
    requires
        0 <= i < elems.len(),
        elem_matches(elems[i], selector_field, selector_value),
        forall|j: int| 0 <= j < i ==> !elem_matches(elems[j], selector_field, selector_value),
    ensures
        patch_elems(elems, selector_field, selector_value, updates)
            == elems.update(i, patched_elem(elems[i], updates)),
        seq_has_match(elems, selector_field, selector_value),
        first_match_index(elems, selector_field, selector_value) == i,
    decreases i,
{
    if i == 0 {
        assert(patch_elems(elems, selector_field, selector_value, updates)
            =~= elems.update(0, patched_elem(elems[0], updates)));
    } else {
        assert(!elem_matches(elems[0], selector_field, selector_value));
        assert(forall|j: int| 0 <= j < i - 1 ==> elems.drop_first()[j] == elems[j + 1]);
        lemma_patch_elems_at_index(elems.drop_first(), selector_field, selector_value, updates, i - 1);
        assert(patch_elems(elems, selector_field, selector_value, updates)
            =~= elems.update(i, patched_elem(elems[i], updates)));
    }
}

/// `patch_elems` without a matching element changes nothing.
pub proof fn lemma_patch_elems_no_match(
    elems: Seq<NodeV>,
    selector_field: Seq<char>,
    selector_value: Seq<char>,
    updates: Seq<UpdateV>,
)
    requires
        forall|j: int| 0 <= j < elems.len()
            ==> !elem_matches(elems[j], selector_field, selector_value),
    ensures
        patch_elems(elems, selector_field, selector_value, updates) == elems,
        !seq_has_match(elems, selector_field, selector_value),
    decreases elems.len(),
{
    if elems.len() > 0 {
        assert(forall|j: int| 0 <= j < elems.len() - 1 ==> elems.drop_first()[j] == elems[j + 1]);
        lemma_patch_elems_no_match(elems.drop_first(), selector_field, selector_value, updates);
        assert(patch_elems(elems, selector_field, selector_value, updates) =~= elems);
    }
}

/// The index of the first entry whose key equals `key`, scanning in order.
fn find_key(entries: &Vec<(String, Node)>, key: &String) -> (r: Option<usize>)
    ensures
        match r {
            Some(i) => i < entries@.len() && entries@[i as int].0@ == key@
                && forall|j: int| 0 <= j < i ==> entries@[j].0@ != key@,
            None => forall|j: int| 0 <= j < entries@.len() ==> entries@[j].0@ != key@,
        },
{
    let mut i: usize = 0;
    while i < entries.len()
        invariant
            i <= entries@.len(),
            forall|j: int| 0 <= j < i ==> entries@[j].0@ != key@,
        decreases entries@.len() - i,
    {
        if entries[i].0 == *key {
            return Some(i);
        }
        i = i + 1;
    }
    None
}

/// Replace the value of the first entry with the given key, keeping its key
/// and its position; append a new entry when the key is absent.
pub fn set_key_inplace(entries: &mut Vec<(String, Node)>, key: &String, value: &String)
    ensures
        entries_view(final(entries)@)
            == set_key(entries_view(old(entries)@), key@, NodeV::Scalar(value@)),
{
    match find_key(entries, key) {
        Some(i) => {
            let (k, _replaced) = entries.remove(i);
            entries.insert(i, (k, Node::Scalar(value.clone())));
            proof {
                lemma_entries_view(old(entries)@);
                lemma_entries_view(entries@);
                lemma_set_key_at_index(
                    entries_view(old(entries)@),
                    key@,
                    NodeV::Scalar(value@),
                    i as int,
                );
                assert(entries@ =~= old(entries)@.update(i as int, entries@[i as int]));
                assert(entries_view(entries@)
                    =~= entries_view(old(entries)@).update(i as int, (key@, NodeV::Scalar(value@))));
            }
        }
        None => {
            entries.push((key.clone(), Node::Scalar(value.clone())));
            proof {
                lemma_entries_view(old(entries)@);
                lemma_entries_view(entries@);
                lemma_set_key_push(entries_view(old(entries)@), key@, NodeV::Scalar(value@));
                assert(entries_view(entries@)
                    =~= entries_view(old(entries)@).push((key@, NodeV::Scalar(value@))));
            }
        }
    }
}

/// Apply every update that carries a value, in order.
pub fn apply_field_updates(entries: &mut Vec<(String, Node)>, updates: &Vec<FieldUpdate>)
    ensures
        entries_view(final(entries)@)
            == apply_updates(entries_view(old(entries)@), updates_view(updates@)),
{
    let ghost all = updates_view(updates@);
    let mut u: usize = 0;
    while u < updates.len()
        invariant
            u <= updates@.len(),
            all == updates_view(updates@),
            entries_view(entries@)
                == apply_updates(entries_view(old(entries)@), all.take(u as int)),
        decreases updates@.len() - u,
    {
        let ghost before = entries_view(entries@);
        match &updates[u].new_value {
            Some(value) => {
                set_key_inplace(entries, &updates[u].field_name, value);
            }
            None => {}
        }
        proof {
            assert(entries_view(entries@) == apply_update(before, all[u as int]));
            assert(all.take(u as int + 1) =~= all.take(u as int).push(all[u as int]));
            lemma_apply_updates_push(entries_view(old(entries)@), all.take(u as int), all[u as int]);
        }
        u = u + 1;
    }
    proof {
        assert(all.take(updates@.len() as int) =~= all);
    }
}

/// Whether this element is a mapping whose selector field holds the given
/// scalar value.
pub fn node_matches(elem: &Node, selector_field: &String, selector_value: &String) -> (r: bool)
    ensures
        r == elem_matches(node_view(*elem), selector_field@, selector_value@),
{
    match elem {
        Node::Mapping(entries) => {
            match find_key(entries, selector_field) {
                Some(i) => {
                    proof {
                        lemma_entries_view(entries@);
                        lemma_map_get_at_index(entries_view(entries@), selector_field@, i as int);
                    }
                    match &entries[i].1 {
                        Node::Scalar(s) => *s == *selector_value,
                        _ => false,
                    }
                }
                None => {
                    proof {
                        lemma_entries_view(entries@);
                        lemma_map_get_none(entries_view(entries@), selector_field@);
                    }
                    false
                }
            }
        }
        _ => false,
    }
}

/// The index of the first matching element, scanning in document order.
fn find_match(elems: &Vec<Node>, selector_field: &String, selector_value: &String) -> (r: Option<usize>)
    ensures
        match r {
            Some(i) => i < elems@.len()
                && elem_matches(node_view(elems@[i as int]), selector_field@, selector_value@)
                && forall|j: int| 0 <= j < i
                    ==> !elem_matches(node_view(elems@[j]), selector_field@, selector_value@),
            None => forall|j: int| 0 <= j < elems@.len()
                ==> !elem_matches(node_view(elems@[j]), selector_field@, selector_value@),
        },
{
    let mut i: usize = 0;
    while i < elems.len()
        invariant
            i <= elems@.len(),
            forall|j: int| 0 <= j < i
                ==> !elem_matches(node_view(elems@[j]), selector_field@, selector_value@),
        decreases elems@.len() - i,
    {
        if node_matches(&elems[i], selector_field, selector_value) {
            return Some(i);
        }
        i = i + 1;
    }
    None
}

/// Patch the first matching element of a sequence; report whether one was
/// found. Elements other than the first match are returned untouched.
fn patch_elements(
    elems: Vec<Node>,
    selector_field: &String,
    selector_value: &String,
    updates: &Vec<FieldUpdate>,
) -> (r: (Vec<Node>, bool))
    ensures
        items_view(r.0@) == patch_elems(
            items_view(elems@),
            selector_field@,
            selector_value@,
            updates_view(updates@),
        ),
        r.1 == seq_has_match(items_view(elems@), selector_field@, selector_value@),
{
    let ghost orig_items = elems@;
    proof {
        lemma_items_view(orig_items);
    }
    match find_match(&elems, selector_field, selector_value) {
        Some(i) => {
            let mut elems = elems;
            let e = elems.remove(i);
            match e {
                Node::Mapping(mut element_entries) => {
                    let ghost entries_before = entries_view(element_entries@);
                    apply_field_updates(&mut element_entries, updates);
                    elems.insert(i, Node::Mapping(element_entries));
                    proof {
                        assert(node_view(orig_items[i as int])
                            == NodeV::Mapping(entries_before));
                        assert(node_view(elems@[i as int])
                            == patched_elem(node_view(orig_items[i as int]), updates_view(updates@)));
                        assert(elems@ =~= orig_items.update(i as int, elems@[i as int]));
                        lemma_items_view(elems@);
                        lemma_patch_elems_at_index(
                            items_view(orig_items),
                            selector_field@,
                            selector_value@,
                            updates_view(updates@),
                            i as int,
                        );
                        assert(items_view(elems@) =~= items_view(orig_items).update(
                            i as int,
                            patched_elem(node_view(orig_items[i as int]), updates_view(updates@)),
                        ));
                    }
                    (elems, true)
                }
                _ => {
                    proof {
                        assert(elem_matches(node_view(e), selector_field@, selector_value@));
                        assert(false);
                    }
                    (elems, true)
                }
            }
        }
        None => {
            proof {
                lemma_patch_elems_no_match(
                    items_view(orig_items),
                    selector_field@,
                    selector_value@,
                    updates_view(updates@),
                );
            }
            (elems, false)
        }
    }
}

/// Patch a document tree taken by value: the same transformation as
/// `apply_patch`, returning the new tree and whether an element matched.
fn patch_node(
    doc: Node,
    top_level_key: &String,
    selector_field: &String,
    selector_value: &String,
    updates: &Vec<FieldUpdate>,
) -> (r: (Node, bool))
    ensures
        node_view(r.0) == patch_doc(
            node_view(doc),
            top_level_key@,
            selector_field@,
            selector_value@,
            updates_view(updates@),
        ),
        r.1 == doc_matched(node_view(doc), top_level_key@, selector_field@, selector_value@),
{
    match doc {
        Node::Mapping(mut root) => {
            let ghost orig_root = root@;
            proof {
                lemma_entries_view(orig_root);
            }
            match find_key(&root, top_level_key) {
                Some(i) => {
                    proof {
                        lemma_map_get_at_index(entries_view(orig_root), top_level_key@, i as int);
                    }
                    let (k, val) = root.remove(i);
                    match val {
                        Node::Sequence(elems) => {
                            let ghost orig_elems = elems@;
                            let (new_elems, changed) = patch_elements(
                                elems,
                                selector_field,
                                selector_value,
                                updates,
                            );
                            root.insert(i, (k, Node::Sequence(new_elems)));
                            proof {
                                lemma_entries_view(root@);
                                lemma_set_key_at_index(
                                    entries_view(orig_root),
                                    top_level_key@,
                                    NodeV::Sequence(patch_elems(
                                        items_view(orig_elems),
                                        selector_field@,
                                        selector_value@,
                                        updates_view(updates@),
                                    )),
                                    i as int,
                                );
                                assert(root@ =~= orig_root.update(i as int, root@[i as int]));
                                assert(entries_view(root@) =~= entries_view(orig_root).update(
                                    i as int,
                                    (
                                        top_level_key@,
                                        NodeV::Sequence(patch_elems(
                                            items_view(orig_elems),
                                            selector_field@,
                                            selector_value@,
                                            updates_view(updates@),
                                        )),
                                    ),
                                ));
                            }
                            (Node::Mapping(root), changed)
                        }
                        other => {
                            root.insert(i, (k, other));
                            proof {
                                assert(root@ =~= orig_root);
                            }
                            (Node::Mapping(root), false)
                        }
                    }
                }
                None => {
                    proof {
                        lemma_map_get_none(entries_view(orig_root), top_level_key@);
                    }
                    (Node::Mapping(root), false)
                }
            }
        }
        other => (other, false),
    }
}

/// Patch the document in place. Under `top_level_key` of the root mapping
/// there must be a sequence for anything to happen; its first element whose
/// `selector_field` equals `selector_value` gets every update that carries a
/// value. The result reports whether such an element was found; when it is
/// `false` the document is unchanged.
pub fn apply_patch(
    doc: &mut Node,
    top_level_key: &str,
    selector_field: &str,
    selector_value: &str,
    updates: &Vec<FieldUpdate>,
) -> (changed: bool)
    ensures
        final(doc)@ == patch_doc(
            old(doc)@,
            top_level_key@,
            selector_field@,
            selector_value@,
            updates_view(updates@),
        ),
        changed == doc_matched(old(doc)@, top_level_key@, selector_field@, selector_value@),
{
    let mut work = Node::Scalar(String::new());
    core::mem::swap(doc, &mut work);
    let top = top_level_key.to_owned();
    let field = selector_field.to_owned();
    let value = selector_value.to_owned();
    let (result, changed) = patch_node(work, &top, &field, &value, updates);
    *doc = result;
    changed
}

} // verus!
