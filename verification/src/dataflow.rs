//! Lowering of execution documents: a node that refers to an installed
//! package gets, in place of the reference, the invocation that runs it.
//! Nothing else in the document changes.

use vstd::prelude::*;
use vstd::string::StringExecFns;
use crate::document::{
    docs_of, duplicate_entries, entry_index, field, find_entry, lemma_doc_of_children, pairs_of,
    text_of, Doc, Yaml,
};
use crate::package::{
    find_record, invocation_of, lookup_record, records_of, resolve_invocation, InstalledPackage,
    Invocation, InvocationView, PackageRecord, RecordView,
};
use crate::paths::{join_path, joined_path};
use crate::text::{join, joined, pieces, split, str_eq, texts};

verus! {

broadcast use vstd::std_specs::vec::axiom_vec_index_decreases;

/// A saved dataflow, as listings show it.
#[derive(Debug, Clone)]
pub struct DataflowMeta {
    pub name: String,
    pub filename: String,
    pub modified_at: String,
    pub size: u64,
}

/// The directory of the saved dataflows.
pub fn dataflows_dir(home: &str) -> (dir: String)
    ensures
        dir@ == joined_path(home@, "dataflows"@),
{
    join_path(home, "dataflows")
}

/// The file of the saved dataflow `name`.
pub fn dataflow_file(home: &str, name: &str) -> (path: String)
    ensures
        path@ == joined_path(joined_path(home@, "dataflows"@), name@ + ".yml"@),
{
    let mut filename = String::from_str(name);
    filename.append(".yml");
    join_path(dataflows_dir(home).as_str(), filename.as_str())
}

/// Whether the pieces of a file name between dots end in an extension: there is more than
/// one piece, and the name is not a single dot followed by the rest.
pub open spec fn has_extension(parts: Seq<Seq<char>>) -> bool {
    parts.len() > 2 || (parts.len() == 2 && parts[0].len() > 0)
}

/// Whether a file of this name holds a dataflow: its extension is `yml` or `yaml`.
pub open spec fn names_dataflow(filename: Seq<char>) -> bool {
    let parts = pieces(filename, '.');
    has_extension(parts) && (parts.last() == "yml"@ || parts.last() == "yaml"@)
}

/// The name of the dataflow that a file holds: the file's name up to its last dot.
pub open spec fn dataflow_name(filename: Seq<char>) -> Seq<char> {
    joined(pieces(filename, '.').drop_last(), "."@)
}

/// The listing entry of a file of the dataflows directory; none for a file
/// that holds no dataflow.
pub fn dataflow_entry(filename: &str, modified_at: String, size: u64) -> (entry: Option<
    DataflowMeta,
>)
    ensures
        match entry {
            Some(meta) => names_dataflow(filename@) && meta.name@ == dataflow_name(filename@)
                && meta.filename@ == filename@ && meta.modified_at == modified_at && meta.size
                == size,
            None => !names_dataflow(filename@),
        },
{
    let mut parts = split(filename, '.');
    let n = parts.len();
    assert(texts(parts@).len() == n);
    if n < 2 {
        return None;
    }
    assert(texts(parts@)[0] == parts@[0]@);
    assert(texts(parts@).last() == parts@[n - 1]@);
    if n == 2 && parts[0].as_str().is_empty() {
        return None;
    }
    if !(str_eq(parts[n - 1].as_str(), "yml") || str_eq(parts[n - 1].as_str(), "yaml")) {
        return None;
    }
    let ghost all = texts(parts@);
    parts.pop();
    assert(texts(parts@) =~= all.drop_last());
    let name = join(&parts, ".");
    Some(DataflowMeta { name, filename: String::from_str(filename), modified_at, size })
}

/// Why a document could not be lowered.
#[derive(Debug, Clone)]
pub enum TranspileError {
    /// The text is no document; the parser's words say why.
    Parse(String),
    /// A node refers to a package whose build kind is unsupported.
    UnsupportedBuild { node_id: String, descriptor: String },
    /// A node refers to a package whose record cannot be read.
    UnreadablePackage { node_id: String, cause: String },
    /// The lowered document could not be written as text.
    Render(String),
}

/// An error as contracts speak of it.
pub enum ErrorView {
    Parse(Seq<char>),
    UnsupportedBuild { node_id: Seq<char>, descriptor: Seq<char> },
    UnreadablePackage { node_id: Seq<char>, cause: Seq<char> },
    Render(Seq<char>),
}

impl View for TranspileError {
    type V = ErrorView;

    open spec fn view(&self) -> ErrorView {
        match self {
            TranspileError::Parse(why) => ErrorView::Parse(why@),
            TranspileError::UnsupportedBuild { node_id, descriptor } => ErrorView::UnsupportedBuild {
                node_id: node_id@,
                descriptor: descriptor@,
            },
            TranspileError::UnreadablePackage { node_id, cause } => ErrorView::UnreadablePackage {
                node_id: node_id@,
                cause: cause@,
            },
            TranspileError::Render(why) => ErrorView::Render(why@),
        }
    }
}

/// The message of an error, for a user to read.
pub open spec fn error_message(e: ErrorView) -> Seq<char> {
    match e {
        ErrorView::Parse(why) => "Failed to parse yaml: "@ + why,
        ErrorView::UnsupportedBuild { node_id, descriptor } => "Cannot transpile node '"@ + node_id
            + "': unknown build type: "@ + descriptor,
        ErrorView::UnreadablePackage { node_id, cause } => "Cannot transpile node '"@ + node_id
            + "': unreadable package metadata: "@ + cause,
        ErrorView::Render(why) => "Failed to write yaml: "@ + why,
    }
}

impl TranspileError {
    /// The message of this error, for a user to read.
    pub fn message(&self) -> (msg: String)
        ensures
            msg@ == error_message(self@),
    {
        match self {
            TranspileError::Parse(why) => {
                let mut msg = String::from_str("Failed to parse yaml: ");
                msg.append(why.as_str());
                msg
            },
            TranspileError::UnsupportedBuild { node_id, descriptor } => {
                let mut msg = String::from_str("Cannot transpile node '");
                msg.append(node_id.as_str());
                msg.append("': unknown build type: ");
                msg.append(descriptor.as_str());
                msg
            },
            TranspileError::UnreadablePackage { node_id, cause } => {
                let mut msg = String::from_str("Cannot transpile node '");
                msg.append(node_id.as_str());
                msg.append("': unreadable package metadata: ");
                msg.append(cause.as_str());
                msg
            },
            TranspileError::Render(why) => {
                let mut msg = String::from_str("Failed to write yaml: ");
                msg.append(why.as_str());
                msg
            },
        }
    }
}

/// A mapping entry from one text to another.
pub open spec fn text_entry(key: Seq<char>, value: Seq<char>) -> (Doc, Doc) {
    (Doc::Text(key), Doc::Text(value))
}

/// The block that tells the engine what to run: a local source, the path of
/// the executable, and, where there are arguments, the arguments with a
/// blank between neighbours.
pub open spec fn custom_block(inv: InvocationView) -> Doc {
    let base = seq![text_entry("source"@, "Local"@), text_entry("path"@, inv.path)];
    if inv.args.len() > 0 {
        Doc::Mapping(base.push(text_entry("args"@, joined(inv.args, " "@))))
    } else {
        Doc::Mapping(base)
    }
}

/// The block of environment variables of an invocation, in order.
pub open spec fn env_block(inv: InvocationView) -> Doc {
    Doc::Mapping(inv.env.map_values(|e: (Seq<char>, Seq<char>)| text_entry(e.0, e.1)))
}

/// `entries` without those whose key is the text `key`.
pub open spec fn without_key(entries: Seq<(Doc, Doc)>, key: Seq<char>) -> Seq<(Doc, Doc)>
    decreases entries.len(),
{
    if entries.len() == 0 {
        Seq::empty()
    } else if entries.last().0 == Doc::Text(key) {
        without_key(entries.drop_last(), key)
    } else {
        without_key(entries.drop_last(), key).push(entries.last())
    }
}

/// `entries` with `value` under the text key `key`: in the place of the
/// first entry that has that key, or at the end where none has.
pub open spec fn with_entry(entries: Seq<(Doc, Doc)>, key: Seq<char>, value: Doc) -> Seq<(Doc, Doc)> {
    match entry_index(entries, key) {
        Some(i) => entries.update(i, (Doc::Text(key), value)),
        None => entries.push((Doc::Text(key), value)),
    }
}

/// The entries of a node after lowering: no `path`, and the two blocks of
/// the invocation under `custom` and `env`.
pub open spec fn rewritten_entries(entries: Seq<(Doc, Doc)>, inv: InvocationView) -> Seq<(Doc, Doc)> {
    with_entry(
        with_entry(without_key(entries, "path"@), "custom"@, custom_block(inv)),
        "env"@,
        env_block(inv),
    )
}

/// A node after lowering, its tags kept.
pub open spec fn rewritten(node: Doc, inv: InvocationView) -> Doc
    decreases node,
{
    match node {
        Doc::Tagged(tag, inner) => Doc::Tagged(tag, Box::new(rewritten(*inner, inv))),
        Doc::Mapping(entries) => Doc::Mapping(rewritten_entries(entries, inv)),
        _ => node,
    }
}

/// The package reference of a node: the text under its `path` key.
pub open spec fn reference_of(node: Doc) -> Option<Seq<char>> {
    match field(node, "path"@) {
        Some(value) => text_of(value),
        None => None,
    }
}

/// The name by which an error speaks of a node: the text under its `id`
/// key, or its package reference where it has no such text.
pub open spec fn label_of(node: Doc, reference: Seq<char>) -> Seq<char> {
    match field(node, "id"@) {
        Some(value) => match text_of(value) {
            Some(id) => id,
            None => reference,
        },
        None => reference,
    }
}

/// One node, lowered: unchanged unless it refers to a package of the
/// store; an error where that package's record cannot be read or its build
/// kind is unsupported.
pub open spec fn lowered_node(node: Doc, store: Seq<RecordView>) -> Result<Doc, ErrorView> {
    match reference_of(node) {
        None => Ok(node),
        Some(reference) => match find_record(store, reference) {
            None => Ok(node),
            Some(RecordView::Unreadable { id, cause }) => Err(
                ErrorView::UnreadablePackage { node_id: label_of(node, reference), cause },
            ),
            Some(RecordView::Installed(package)) => match invocation_of(package) {
                Ok(inv) => Ok(rewritten(node, inv)),
                Err(raw) => Err(
                    ErrorView::UnsupportedBuild {
                        node_id: label_of(node, reference),
                        descriptor: raw,
                    },
                ),
            },
        },
    }
}

/// The nodes of a list, each lowered; the error of the first node that has one.
pub open spec fn lowered_items(items: Seq<Doc>, store: Seq<RecordView>) -> Result<
    Seq<Doc>,
    ErrorView,
>
    decreases items.len(),
{
    if items.len() == 0 {
        Ok(Seq::empty())
    } else {
        match lowered_items(items.drop_last(), store) {
            Err(e) => Err(e),
            Ok(front) => match lowered_node(items.last(), store) {
                Err(e) => Err(e),
                Ok(node) => Ok(front.push(node)),
            },
        }
    }
}

/// The value under `nodes`, lowered: a sequence, under its tags, has each of
/// its nodes lowered; anything else stays as it is.
pub open spec fn lowered_list(value: Doc, store: Seq<RecordView>) -> Result<Doc, ErrorView>
    decreases value,
{
    match value {
        Doc::Tagged(tag, inner) => match lowered_list(*inner, store) {
            Ok(list) => Ok(Doc::Tagged(tag, Box::new(list))),
            Err(e) => Err(e),
        },
        Doc::Sequence(items) => match lowered_items(items, store) {
            Ok(nodes) => Ok(Doc::Sequence(nodes)),
            Err(e) => Err(e),
        },
        _ => Ok(value),
    }
}

/// A document, lowered: where, under its tags, it is a mapping with a
/// `nodes` key, the value under that key is lowered; everything else stays
/// as it is. An error leaves nothing lowered.
pub open spec fn lowered(document: Doc, store: Seq<RecordView>) -> Result<Doc, ErrorView>
    decreases document,
{
    match document {
        Doc::Tagged(tag, inner) => match lowered(*inner, store) {
            Ok(doc) => Ok(Doc::Tagged(tag, Box::new(doc))),
            Err(e) => Err(e),
        },
        Doc::Mapping(entries) => match entry_index(entries, "nodes"@) {
            Some(i) => match lowered_list(entries[i].1, store) {
                Ok(list) => Ok(Doc::Mapping(entries.update(i, (entries[i].0, list)))),
                Err(e) => Err(e),
            },
            None => Ok(document),
        },
        _ => Ok(document),
    }
}

/// Whether `y` is the text `key`.
fn is_text(y: &Yaml, key: &str) -> (yes: bool)
    ensures
        yes == (y@ == Doc::Text(key@)),
{
    proof {
        lemma_doc_of_children(*y);
    }
    match y {
        Yaml::Text(s) => str_eq(s.as_str(), key),
        _ => false,
    }
}

/// A mapping entry from one text to another.
fn text_pair(key: &str, value: &str) -> (pair: (Yaml, Yaml))
    ensures
        (pair.0@, pair.1@) == text_entry(key@, value@),
{
    (Yaml::Text(String::from_str(key)), Yaml::Text(String::from_str(value)))
}

/// The block that tells the engine what to run.
pub fn invocation_custom_block(inv: &Invocation) -> (block: Yaml)
    ensures
        block@ == custom_block(inv@),
{
    let mut entries: Vec<(Yaml, Yaml)> = Vec::new();
    entries.push(text_pair("source", "Local"));
    entries.push(text_pair("path", inv.path.as_str()));
    if inv.args.len() > 0 {
        let line = join(&inv.args, " ");
        entries.push(text_pair("args", line.as_str()));
    }
    let block = Yaml::Mapping(entries);
    proof {
        lemma_doc_of_children(block);
        assert(inv@.args == texts(inv.args@));
        assert(block@->Mapping_0 =~= custom_block(inv@)->Mapping_0);
    }
    block
}

/// The block of environment variables of an invocation.
pub fn invocation_env_block(inv: &Invocation) -> (block: Yaml)
    ensures
        block@ == env_block(inv@),
{
    let ghost want = inv@.env.map_values(|e: (Seq<char>, Seq<char>)| text_entry(e.0, e.1));
    let mut entries: Vec<(Yaml, Yaml)> = Vec::new();
    let mut i: usize = 0;
    while i < inv.env.len()
        invariant
            i <= inv.env@.len(),
            entries@.len() == i,
            want == inv@.env.map_values(|e: (Seq<char>, Seq<char>)| text_entry(e.0, e.1)),
            forall|k: int| 0 <= k < i ==> #[trigger] pairs_of(entries@)[k] == want[k],
        decreases inv.env@.len() - i,
    {
        let ghost before = entries@;
        let pair = text_pair(inv.env[i].0.as_str(), inv.env[i].1.as_str());
        entries.push(pair);
        proof {
            assert forall|k: int| 0 <= k < i + 1 implies #[trigger] pairs_of(entries@)[k]
                == want[k] by {
                if k < i {
                    assert(pairs_of(before)[k] == want[k]);
                }
            }
        }
        i = i + 1;
    }
    let block = Yaml::Mapping(entries);
    proof {
        lemma_doc_of_children(block);
        assert(block@->Mapping_0 =~= want);
    }
    block
}

/// The `custom` block for a package, or its build descriptor where its kind
/// is unsupported.
pub fn build_custom_block(package: &InstalledPackage) -> (block: Result<Yaml, String>)
    ensures
        match block {
            Ok(b) => invocation_of(package@).is_ok() && b@ == custom_block(
                invocation_of(package@)->Ok_0,
            ),
            Err(raw) => invocation_of(package@) == Err::<InvocationView, Seq<char>>(raw@),
        },
{
    match resolve_invocation(package) {
        Ok(inv) => Ok(invocation_custom_block(&inv)),
        Err(raw) => Err(raw),
    }
}

/// The `env` block for a package; empty where its kind is unsupported.
pub fn build_env_block(package: &InstalledPackage) -> (block: Yaml)
    ensures
        block@ == match invocation_of(package@) {
            Ok(inv) => env_block(inv),
            Err(_) => Doc::Mapping(Seq::empty()),
        },
{
    match resolve_invocation(package) {
        Ok(inv) => invocation_env_block(&inv),
        Err(_) => {
            let block = Yaml::Mapping(Vec::new());
            proof {
                lemma_doc_of_children(block);
                assert(block@->Mapping_0 =~= Seq::<(Doc, Doc)>::empty());
            }
            block
        },
    }
}

/// Puts `value` under the text key `key`: in the place of the first entry
/// that has that key, or at the end where none has.
fn set_entry(entries: &mut Vec<(Yaml, Yaml)>, key: &str, value: Yaml)
    ensures
        pairs_of(final(entries)@) == with_entry(pairs_of(old(entries)@), key@, value@),
{
    let ghost before = entries@;
    let entry = (Yaml::Text(String::from_str(key)), value);
    match find_entry(entries, key) {
        Some(i) => {
            entries[i] = entry;
            assert(pairs_of(entries@) =~= pairs_of(before).update(
                i as int,
                (Doc::Text(key@), value@),
            ));
        },
        None => {
            entries.push(entry);
            assert(pairs_of(entries@) =~= pairs_of(before).push((Doc::Text(key@), value@)));
        },
    }
}

/// The entries of a node, lowered.
fn rewrite_entries(entries: &Vec<(Yaml, Yaml)>, inv: &Invocation) -> (out: Vec<(Yaml, Yaml)>)
    ensures
        pairs_of(out@) == rewritten_entries(pairs_of(entries@), inv@),
{
    let ghost all = pairs_of(entries@);
    let mut out: Vec<(Yaml, Yaml)> = Vec::new();
    let mut i: usize = 0;
    assert(pairs_of(out@) =~= without_key(all.take(0), "path"@));
    while i < entries.len()
        invariant
            i <= entries@.len(),
            all == pairs_of(entries@),
            pairs_of(out@) == without_key(all.take(i as int), "path"@),
        decreases entries@.len() - i,
    {
        let ghost before = out@;
        proof {
            assert(all.take(i + 1).drop_last() == all.take(i as int));
            assert(all.take(i + 1).last() == all[i as int]);
        }
        if !is_text(&entries[i].0, "path") {
            let key = entries[i].0.duplicate();
            let value = entries[i].1.duplicate();
            out.push((key, value));
            assert(pairs_of(out@) =~= pairs_of(before).push(all[i as int]));
        }
        i = i + 1;
    }
    assert(all.take(i as int) == all);
    set_entry(&mut out, "custom", invocation_custom_block(inv));
    set_entry(&mut out, "env", invocation_env_block(inv));
    out
}

/// A node, lowered, its tags kept.
fn rewrite_node(node: &Yaml, inv: &Invocation) -> (out: Yaml)
    ensures
        out@ == rewritten(node@, inv@),
    decreases node,
{
    proof {
        lemma_doc_of_children(*node);
    }
    match node {
        Yaml::Tagged(tag, inner) => {
            let out = Yaml::Tagged(tag.clone(), Box::new(rewrite_node(inner, inv)));
            proof {
                lemma_doc_of_children(out);
            }
            out
        },
        Yaml::Mapping(entries) => {
            let out = Yaml::Mapping(rewrite_entries(entries, inv));
            proof {
                lemma_doc_of_children(out);
            }
            out
        },
        _ => node.duplicate(),
    }
}

/// The package reference of a node.
pub fn node_reference(node: &Yaml) -> (reference: Option<&String>)
    ensures
        match reference {
            Some(r) => reference_of(node@) == Some(r@),
            None => reference_of(node@).is_none(),
        },
{
    match node.get("path") {
        Some(value) => value.as_text(),
        None => None,
    }
}

/// The name by which an error speaks of a node.
fn node_label(node: &Yaml, reference: &str) -> (label: String)
    ensures
        label@ == label_of(node@, reference@),
{
    let id = match node.get("id") {
        Some(value) => value.as_text(),
        None => None,
    };
    match id {
        Some(id) => id.clone(),
        None => String::from_str(reference),
    }
}

/// Lowers one node.
pub fn lower_node(node: &Yaml, store: &[PackageRecord]) -> (out: Result<Yaml, TranspileError>)
    ensures
        match out {
            Ok(n) => lowered_node(node@, records_of(store@)) == Ok::<Doc, ErrorView>(n@),
            Err(e) => lowered_node(node@, records_of(store@)) == Err::<Doc, ErrorView>(e@),
        },
{
    match node_reference(node) {
        None => Ok(node.duplicate()),
        Some(reference) => match lookup_record(store, reference.as_str()) {
            None => Ok(node.duplicate()),
            Some(PackageRecord::Unreadable { id: _, cause }) => Err(
                TranspileError::UnreadablePackage {
                    node_id: node_label(node, reference.as_str()),
                    cause: cause.clone(),
                },
            ),
            Some(PackageRecord::Installed(package)) => match resolve_invocation(package) {
                Ok(inv) => Ok(rewrite_node(node, &inv)),
                Err(raw) => Err(
                    TranspileError::UnsupportedBuild {
                        node_id: node_label(node, reference.as_str()),
                        descriptor: raw,
                    },
                ),
            },
        },
    }
}

/// An error among the first nodes of a list is the error of the whole list.
proof fn lemma_first_error_wins(items: Seq<Doc>, store: Seq<RecordView>, n: int)
    requires
        0 <= n <= items.len(),
        lowered_items(items.take(n), store).is_err(),
    ensures
        lowered_items(items, store) == lowered_items(items.take(n), store),
    decreases items.len(),
{
    if n < items.len() {
        assert(items.drop_last().take(n) == items.take(n));
        lemma_first_error_wins(items.drop_last(), store, n);
    } else {
        assert(items.take(n) == items);
    }
}

/// Lowers the nodes of a list, or fails with the error of the first that has one.
fn lower_items(items: &Vec<Yaml>, store: &[PackageRecord]) -> (out: Result<
    Vec<Yaml>,
    TranspileError,
>)
    ensures
        match out {
            Ok(nodes) => lowered_items(docs_of(items@), records_of(store@)) == Ok::<
                Seq<Doc>,
                ErrorView,
            >(docs_of(nodes@)),
            Err(e) => lowered_items(docs_of(items@), records_of(store@)) == Err::<
                Seq<Doc>,
                ErrorView,
            >(e@),
        },
{
    let ghost all = docs_of(items@);
    let ghost packages = records_of(store@);
    let mut out: Vec<Yaml> = Vec::new();
    let mut i: usize = 0;
    assert(docs_of(out@) =~= Seq::<Doc>::empty());
    assert(all.take(0) =~= Seq::<Doc>::empty());
    while i < items.len()
        invariant
            i <= items@.len(),
            all == docs_of(items@),
            packages == records_of(store@),
            out@.len() == i,
            lowered_items(all.take(i as int), packages) == Ok::<Seq<Doc>, ErrorView>(docs_of(out@)),
        decreases items@.len() - i,
    {
        let ghost before = out@;
        proof {
            assert(all.take(i + 1).drop_last() == all.take(i as int));
            assert(all.take(i + 1).last() == items@[i as int]@);
        }
        match lower_node(&items[i], store) {
            Ok(node) => {
                out.push(node);
                assert(docs_of(out@) =~= docs_of(before).push(out@[i as int]@));
            },
            Err(e) => {
                proof {
                    lemma_first_error_wins(all, packages, i + 1);
                }
                return Err(e);
            },
        }
        i = i + 1;
    }
    assert(all.take(i as int) == all);
    Ok(out)
}

/// Lowers the value under `nodes`.
fn lower_list(value: &Yaml, store: &[PackageRecord]) -> (out: Result<Yaml, TranspileError>)
    ensures
        match out {
            Ok(v) => lowered_list(value@, records_of(store@)) == Ok::<Doc, ErrorView>(v@),
            Err(e) => lowered_list(value@, records_of(store@)) == Err::<Doc, ErrorView>(e@),
        },
    decreases value,
{
    proof {
        lemma_doc_of_children(*value);
    }
    match value {
        Yaml::Tagged(tag, inner) => match lower_list(inner, store) {
            Ok(list) => {
                let out = Yaml::Tagged(tag.clone(), Box::new(list));
                proof {
                    lemma_doc_of_children(out);
                }
                Ok(out)
            },
            Err(e) => Err(e),
        },
        Yaml::Sequence(items) => match lower_items(items, store) {
            Ok(nodes) => {
                let out = Yaml::Sequence(nodes);
                proof {
                    lemma_doc_of_children(out);
                }
                Ok(out)
            },
            Err(e) => Err(e),
        },
        _ => Ok(value.duplicate()),
    }
}

/// Lowers a document: each node under `nodes` whose `path` names an
/// installed package gets, in place of that reference, a `custom` block and
/// an `env` block that say how to run the package. Everything else is
/// returned as it was given. Where a node names a package whose build kind
/// is unsupported or whose record cannot be read, nothing is returned but
/// the error, which names that node and the build descriptor or the cause.
pub fn transpile_graph(document: &Yaml, store: &[PackageRecord]) -> (out: Result<
    Yaml,
    TranspileError,
>)
    ensures
        match out {
            Ok(doc) => lowered(document@, records_of(store@)) == Ok::<Doc, ErrorView>(doc@),
            Err(e) => lowered(document@, records_of(store@)) == Err::<Doc, ErrorView>(e@),
        },
    decreases document,
{
    proof {
        lemma_doc_of_children(*document);
    }
    match document {
        Yaml::Tagged(tag, inner) => match transpile_graph(inner, store) {
            Ok(doc) => {
                let out = Yaml::Tagged(tag.clone(), Box::new(doc));
                proof {
                    lemma_doc_of_children(out);
                }
                Ok(out)
            },
            Err(e) => Err(e),
        },
        Yaml::Mapping(entries) => match find_entry(entries, "nodes") {
            Some(i) => match lower_list(&entries[i].1, store) {
                Ok(list) => {
                    let mut copies = duplicate_entries(entries);
                    let ghost before = copies@;
                    let key = entries[i].0.duplicate();
                    assert(pairs_of(copies@).len() == pairs_of(entries@).len());
                    copies[i] = (key, list);
                    assert(pairs_of(copies@) =~= pairs_of(entries@).update(
                        i as int,
                        (pairs_of(entries@)[i as int].0, list@),
                    )) by {
                        assert forall|k: int| 0 <= k < copies@.len() && k != i implies pairs_of(
                            copies@,
                        )[k] == pairs_of(entries@)[k] by {
                            assert(pairs_of(before)[k] == pairs_of(entries@)[k]);
                        }
                    }
                    let out = Yaml::Mapping(copies);
                    proof {
                        lemma_doc_of_children(out);
                    }
                    Ok(out)
                },
                Err(e) => Err(e),
            },
            None => Ok(document.duplicate()),
        },
        _ => Ok(document.duplicate()),
    }
}

} // verus!
