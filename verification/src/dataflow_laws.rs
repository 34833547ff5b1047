//! What lowering guarantees: it leaves alone what it does not manage, it
//! fails as a whole on an unsupported package, and it changes nothing when
//! applied a second time.

use vstd::prelude::*;
use crate::dataflow::{
    custom_block, env_block, lowered, lowered_items, lowered_list, lowered_node, reference_of,
    rewritten, rewritten_entries, with_entry, without_key, ErrorView,
};
use crate::document::{entry_index, field, lemma_entry_index, untagged, Doc};
use crate::package::{find_record, invocation_of, InvocationView, RecordView};

verus! {

/// The nodes of a list: the items of the sequence that the value, under its tags, is.
pub open spec fn list_items(value: Doc) -> Seq<Doc>
    decreases value,
{
    match value {
        Doc::Tagged(_, inner) => list_items(*inner),
        Doc::Sequence(items) => items,
        _ => Seq::empty(),
    }
}

/// The nodes of a document: the items of the sequence under its `nodes` key.
pub open spec fn nodes_of(document: Doc) -> Seq<Doc>
    decreases document,
{
    match document {
        Doc::Tagged(_, inner) => nodes_of(*inner),
        Doc::Mapping(entries) => match entry_index(entries, "nodes"@) {
            Some(i) => list_items(entries[i].1),
            None => Seq::empty(),
        },
        _ => Seq::empty(),
    }
}

/// Whether a node refers to no package of the store.
pub open spec fn unmanaged(node: Doc, store: Seq<RecordView>) -> bool {
    match reference_of(node) {
        Some(reference) => find_record(store, reference).is_none(),
        None => true,
    }
}

/// Whether a node refers to a package that cannot be run: one whose build
/// kind is unsupported, or one whose record cannot be read.
pub open spec fn unsupported(node: Doc, store: Seq<RecordView>) -> bool {
    match reference_of(node) {
        Some(reference) => match find_record(store, reference) {
            Some(RecordView::Installed(package)) => package.kind is Unsupported,
            Some(RecordView::Unreadable { id, cause }) => true,
            None => false,
        },
        None => false,
    }
}

/// Whether an error tells of a package that cannot be run.
pub open spec fn names_package(e: ErrorView) -> bool {
    e is UnsupportedBuild || e is UnreadablePackage
}

/// Nodes that refer to no package of the store are lowered to themselves.
proof fn lemma_unmanaged_items(items: Seq<Doc>, store: Seq<RecordView>)
    requires
        forall|i: int| 0 <= i < items.len() ==> unmanaged(#[trigger] items[i], store),
    ensures
        lowered_items(items, store) == Ok::<Seq<Doc>, ErrorView>(items),
    decreases items.len(),
{
    if items.len() > 0 {
        assert forall|i: int| 0 <= i < items.drop_last().len() implies unmanaged(
            #[trigger] items.drop_last()[i],
            store,
        ) by {
            assert(unmanaged(items[i], store));
        }
        lemma_unmanaged_items(items.drop_last(), store);
        assert(unmanaged(items[items.len() - 1], store));
        assert(items.drop_last().push(items.last()) =~= items);
    } else {
        assert(items =~= Seq::<Doc>::empty());
    }
}

/// A list of nodes that refer to no package of the store is lowered to itself.
proof fn lemma_unmanaged_list(value: Doc, store: Seq<RecordView>)
    requires
        forall|i: int|
            0 <= i < list_items(value).len() ==> unmanaged(#[trigger] list_items(value)[i], store),
    ensures
        lowered_list(value, store) == Ok::<Doc, ErrorView>(value),
    decreases value,
{
    match value {
        Doc::Tagged(tag, inner) => {
            assert(list_items(value) == list_items(*inner));
            lemma_unmanaged_list(*inner, store);
        },
        Doc::Sequence(items) => {
            assert(list_items(value) == items);
            lemma_unmanaged_items(items, store);
        },
        _ => {},
    }
}

/// A document none of whose nodes refers to an installed package is
/// lowered to itself.
pub proof fn law_unmanaged_document_unchanged(document: Doc, store: Seq<RecordView>)
    requires
        forall|i: int|
            0 <= i < nodes_of(document).len() ==> unmanaged(#[trigger] nodes_of(document)[i], store),
    ensures
        lowered(document, store) == Ok::<Doc, ErrorView>(document),
    decreases document,
{
    match document {
        Doc::Tagged(tag, inner) => {
            assert(nodes_of(document) == nodes_of(*inner));
            law_unmanaged_document_unchanged(*inner, store);
        },
        Doc::Mapping(entries) => {
            lemma_entry_index(entries, "nodes"@);
            match entry_index(entries, "nodes"@) {
                Some(i) => {
                    assert(nodes_of(document) == list_items(entries[i].1));
                    lemma_unmanaged_list(entries[i].1, store);
                    assert(entries.update(i, (entries[i].0, entries[i].1)) =~= entries);
                },
                None => {},
            }
        },
        _ => {},
    }
}

/// Lowering fails only on a package that cannot be run.
proof fn lemma_node_error_kind(node: Doc, store: Seq<RecordView>)
    ensures
        lowered_node(node, store) is Err ==> names_package(lowered_node(node, store)->Err_0)
            && unsupported(node, store),
        unsupported(node, store) ==> lowered_node(node, store) is Err,
{
}

/// Lowering a list of nodes fails exactly on a package that cannot be run.
proof fn lemma_items_error_kind(items: Seq<Doc>, store: Seq<RecordView>)
    ensures
        lowered_items(items, store) is Err ==> names_package(lowered_items(items, store)->Err_0),
        (exists|i: int| 0 <= i < items.len() && unsupported(#[trigger] items[i], store))
            ==> lowered_items(items, store) is Err,
    decreases items.len(),
{
    if items.len() > 0 {
        lemma_items_error_kind(items.drop_last(), store);
        lemma_node_error_kind(items.last(), store);
        if exists|i: int| 0 <= i < items.len() && unsupported(#[trigger] items[i], store) {
            let i = choose|i: int| 0 <= i < items.len() && unsupported(#[trigger] items[i], store);
            if i < items.len() - 1 {
                assert(unsupported(items.drop_last()[i], store));
            }
        }
    }
}

/// Lowering the value under `nodes` fails exactly on a package that cannot be run.
proof fn lemma_list_error_kind(value: Doc, store: Seq<RecordView>)
    ensures
        lowered_list(value, store) is Err ==> names_package(lowered_list(value, store)->Err_0),
        (exists|i: int|
            0 <= i < list_items(value).len() && unsupported(#[trigger] list_items(value)[i], store))
            ==> lowered_list(value, store) is Err,
    decreases value,
{
    match value {
        Doc::Tagged(tag, inner) => {
            assert(list_items(value) == list_items(*inner));
            lemma_list_error_kind(*inner, store);
        },
        Doc::Sequence(items) => {
            assert(list_items(value) == items);
            lemma_items_error_kind(items, store);
        },
        _ => {},
    }
}

/// Where a node of a document refers to a package whose build kind is
/// unsupported or whose record cannot be read, lowering returns no
/// document at all, but an error that names a node and the build
/// descriptor or the cause.
pub proof fn law_unsupported_package_fails(document: Doc, store: Seq<RecordView>, i: int)
    requires
        0 <= i < nodes_of(document).len(),
        unsupported(nodes_of(document)[i], store),
    ensures
        lowered(document, store) is Err,
        names_package(lowered(document, store)->Err_0),
    decreases document,
{
    match document {
        Doc::Tagged(tag, inner) => {
            assert(nodes_of(document) == nodes_of(*inner));
            law_unsupported_package_fails(*inner, store, i);
        },
        Doc::Mapping(entries) => {
            match entry_index(entries, "nodes"@) {
                Some(k) => {
                    assert(nodes_of(document) == list_items(entries[k].1));
                    lemma_list_error_kind(entries[k].1, store);
                },
                None => {},
            }
        },
        _ => {},
    }
}

/// No entry that `without_key` leaves has the key.
proof fn lemma_without_key(entries: Seq<(Doc, Doc)>, key: Seq<char>)
    ensures
        forall|j: int|
            0 <= j < without_key(entries, key).len() ==> (#[trigger] without_key(entries, key)[j]).0
                != Doc::Text(key),
    decreases entries.len(),
{
    if entries.len() > 0 {
        lemma_without_key(entries.drop_last(), key);
    }
}

/// Putting a value under one key brings no entry with another key.
proof fn lemma_with_entry_keys(entries: Seq<(Doc, Doc)>, key: Seq<char>, value: Doc, other: Seq<char>)
    requires
        key != other,
        forall|j: int| 0 <= j < entries.len() ==> (#[trigger] entries[j]).0 != Doc::Text(other),
    ensures
        forall|j: int|
            0 <= j < with_entry(entries, key, value).len() ==> (#[trigger] with_entry(
                entries,
                key,
                value,
            )[j]).0 != Doc::Text(other),
{
    lemma_entry_index(entries, key);
    let out = with_entry(entries, key, value);
    assert forall|j: int| 0 <= j < out.len() implies (#[trigger] out[j]).0 != Doc::Text(other) by {
        if j < entries.len() && out[j] == entries[j] {
            assert(entries[j].0 != Doc::Text(other));
        }
    }
}

/// The first entry with the key is the one that `entry_index` reports.
proof fn lemma_entry_index_is(entries: Seq<(Doc, Doc)>, key: Seq<char>, i: int)
    requires
        0 <= i < entries.len(),
        entries[i].0 == Doc::Text(key),
        forall|j: int| 0 <= j < i ==> (#[trigger] entries[j]).0 != Doc::Text(key),
    ensures
        entry_index(entries, key) == Some(i),
{
    lemma_entry_index(entries, key);
}

/// A node that has a field is, under its tags, a mapping, and so is what lowering makes of it.
proof fn lemma_rewritten_mapping(node: Doc, inv: InvocationView)
    requires
        untagged(node) is Mapping,
    ensures
        untagged(rewritten(node, inv)) == Doc::Mapping(
            rewritten_entries(untagged(node)->Mapping_0, inv),
        ),
    decreases node,
{
    match node {
        Doc::Tagged(tag, inner) => {
            lemma_rewritten_mapping(*inner, inv);
        },
        _ => {},
    }
}

/// A lowered node bears no package reference.
proof fn lemma_rewritten_has_no_reference(node: Doc, inv: InvocationView)
    requires
        reference_of(node) is Some,
    ensures
        reference_of(rewritten(node, inv)) is None,
{
    reveal_strlit("path");
    reveal_strlit("custom");
    reveal_strlit("env");
    assert("path"@.len() != "custom"@.len());
    assert("path"@.len() != "env"@.len());
    let entries = untagged(node)->Mapping_0;
    lemma_rewritten_mapping(node, inv);
    let first = without_key(entries, "path"@);
    let second = with_entry(first, "custom"@, custom_block(inv));
    let third = with_entry(second, "env"@, env_block(inv));
    lemma_without_key(entries, "path"@);
    lemma_with_entry_keys(first, "custom"@, custom_block(inv), "path"@);
    lemma_with_entry_keys(second, "env"@, env_block(inv), "path"@);
    lemma_entry_index(third, "path"@);
}

/// A node that lowering returned is lowered to itself.
proof fn lemma_node_idempotent(node: Doc, store: Seq<RecordView>)
    requires
        lowered_node(node, store) is Ok,
    ensures
        lowered_node(lowered_node(node, store)->Ok_0, store) == lowered_node(node, store),
{
    match reference_of(node) {
        Some(reference) => match find_record(store, reference) {
            Some(RecordView::Installed(package)) => {
                lemma_rewritten_has_no_reference(node, invocation_of(package)->Ok_0);
            },
            _ => {},
        },
        None => {},
    }
}

/// Nodes that lowering returned are lowered to themselves.
proof fn lemma_items_idempotent(items: Seq<Doc>, store: Seq<RecordView>)
    requires
        lowered_items(items, store) is Ok,
    ensures
        lowered_items(lowered_items(items, store)->Ok_0, store) == lowered_items(items, store),
    decreases items.len(),
{
    if items.len() > 0 {
        lemma_items_idempotent(items.drop_last(), store);
        lemma_node_idempotent(items.last(), store);
        let front = lowered_items(items.drop_last(), store)->Ok_0;
        let node = lowered_node(items.last(), store)->Ok_0;
        let out = front.push(node);
        assert(out.drop_last() =~= front);
        assert(out.last() == node);
    }
}

/// A list that lowering returned is lowered to itself.
proof fn lemma_list_idempotent(value: Doc, store: Seq<RecordView>)
    requires
        lowered_list(value, store) is Ok,
    ensures
        lowered_list(lowered_list(value, store)->Ok_0, store) == lowered_list(value, store),
    decreases value,
{
    match value {
        Doc::Tagged(tag, inner) => {
            lemma_list_idempotent(*inner, store);
        },
        Doc::Sequence(items) => {
            lemma_items_idempotent(items, store);
        },
        _ => {},
    }
}

/// Lowering what lowering returned changes nothing: a lowered node no
/// longer bears a reference, so a second pass leaves it alone.
pub proof fn law_lowering_is_idempotent(document: Doc, store: Seq<RecordView>)
    requires
        lowered(document, store) is Ok,
    ensures
        lowered(lowered(document, store)->Ok_0, store) == lowered(document, store),
    decreases document,
{
    match document {
        Doc::Tagged(tag, inner) => {
            law_lowering_is_idempotent(*inner, store);
        },
        Doc::Mapping(entries) => {
            lemma_entry_index(entries, "nodes"@);
            match entry_index(entries, "nodes"@) {
                Some(i) => {
                    let list = lowered_list(entries[i].1, store)->Ok_0;
                    let out = entries.update(i, (entries[i].0, list));
                    lemma_list_idempotent(entries[i].1, store);
                    assert forall|j: int| 0 <= j < i implies (#[trigger] out[j]).0 != Doc::Text(
                        "nodes"@,
                    ) by {
                        assert(entries[j].0 != Doc::Text("nodes"@));
                    }
                    lemma_entry_index_is(out, "nodes"@, i);
                    assert(out.update(i, (out[i].0, list)) =~= out);
                },
                None => {},
            }
        },
        _ => {},
    }
}

/// Whether a key is one that lowering writes or removes.
pub open spec fn managed_key(key: Doc) -> bool {
    key == Doc::Text("path"@) || key == Doc::Text("custom"@) || key == Doc::Text("env"@)
}

/// The entries whose keys lowering neither writes nor removes, in order.
pub open spec fn other_entries(entries: Seq<(Doc, Doc)>) -> Seq<(Doc, Doc)>
    decreases entries.len(),
{
    if entries.len() == 0 {
        Seq::empty()
    } else if managed_key(entries.last().0) {
        other_entries(entries.drop_last())
    } else {
        other_entries(entries.drop_last()).push(entries.last())
    }
}

/// Removing `path` leaves the other entries as they were.
proof fn lemma_others_without_path(entries: Seq<(Doc, Doc)>)
    ensures
        other_entries(without_key(entries, "path"@)) == other_entries(entries),
    decreases entries.len(),
{
    if entries.len() > 0 {
        lemma_others_without_path(entries.drop_last());
        if entries.last().0 != Doc::Text("path"@) {
            let out = without_key(entries.drop_last(), "path"@).push(entries.last());
            assert(out.drop_last() =~= without_key(entries.drop_last(), "path"@));
        }
    }
}

/// Replacing one managed entry by another leaves the other entries as they were.
proof fn lemma_others_update(entries: Seq<(Doc, Doc)>, i: int, entry: (Doc, Doc))
    requires
        0 <= i < entries.len(),
        managed_key(entries[i].0),
        managed_key(entry.0),
    ensures
        other_entries(entries.update(i, entry)) == other_entries(entries),
    decreases entries.len(),
{
    let out = entries.update(i, entry);
    if i == entries.len() - 1 {
        assert(out.drop_last() =~= entries.drop_last());
    } else {
        assert(out.drop_last() =~= entries.drop_last().update(i, entry));
        lemma_others_update(entries.drop_last(), i, entry);
    }
}

/// Putting a value under a managed key leaves the other entries as they were.
proof fn lemma_others_with_entry(entries: Seq<(Doc, Doc)>, key: Seq<char>, value: Doc)
    requires
        managed_key(Doc::Text(key)),
    ensures
        other_entries(with_entry(entries, key, value)) == other_entries(entries),
{
    lemma_entry_index(entries, key);
    match entry_index(entries, key) {
        Some(i) => {
            lemma_others_update(entries, i, (Doc::Text(key), value));
        },
        None => {
            let out = entries.push((Doc::Text(key), value));
            assert(out.drop_last() =~= entries);
        },
    }
}

/// Lowering the entries of a node leaves every entry under another key
/// than `path`, `custom` and `env` where it was: none is added, none is
/// removed, none is changed, and their order stays.
pub proof fn law_other_fields_kept(entries: Seq<(Doc, Doc)>, inv: InvocationView)
    ensures
        other_entries(rewritten_entries(entries, inv)) == other_entries(entries),
{
    let first = without_key(entries, "path"@);
    let second = with_entry(first, "custom"@, custom_block(inv));
    lemma_others_without_path(entries);
    lemma_others_with_entry(first, "custom"@, custom_block(inv));
    lemma_others_with_entry(second, "env"@, env_block(inv));
}

/// A list is lowered node by node: as many nodes come out as went in, and
/// each is what lowering makes of the node in its place.
pub proof fn law_nodes_lowered_in_place(items: Seq<Doc>, store: Seq<RecordView>)
    requires
        lowered_items(items, store) is Ok,
    ensures
        lowered_items(items, store)->Ok_0.len() == items.len(),
        forall|k: int|
            0 <= k < items.len() ==> lowered_node(#[trigger] items[k], store) == Ok::<
                Doc,
                ErrorView,
            >(lowered_items(items, store)->Ok_0[k]),
    decreases items.len(),
{
    if items.len() > 0 {
        law_nodes_lowered_in_place(items.drop_last(), store);
        let out = lowered_items(items, store)->Ok_0;
        let front = lowered_items(items.drop_last(), store)->Ok_0;
        assert forall|k: int| 0 <= k < items.len() implies lowered_node(
            #[trigger] items[k],
            store,
        ) == Ok::<Doc, ErrorView>(out[k]) by {
            if k < items.len() - 1 {
                assert(items.drop_last()[k] == items[k]);
                assert(out[k] == front[k]);
            }
        }
    }
}

/// Lowering a document that is a mapping touches nothing but the value
/// under `nodes`: every entry keeps its key and its place, and every other
/// entry keeps its value.
pub proof fn law_only_nodes_touched(entries: Seq<(Doc, Doc)>, store: Seq<RecordView>, j: int)
    requires
        lowered(Doc::Mapping(entries), store) is Ok,
        0 <= j < entries.len(),
    ensures
        lowered(Doc::Mapping(entries), store)->Ok_0 is Mapping,
        lowered(Doc::Mapping(entries), store)->Ok_0->Mapping_0.len() == entries.len(),
        lowered(Doc::Mapping(entries), store)->Ok_0->Mapping_0[j].0 == entries[j].0,
        entry_index(entries, "nodes"@) != Some(j) ==> lowered(
            Doc::Mapping(entries),
            store,
        )->Ok_0->Mapping_0[j] == entries[j],
{
    lemma_entry_index(entries, "nodes"@);
}

} // verus!
