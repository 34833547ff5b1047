//! Reading documents from YAML text.

use serde_yaml::Value;
use vstd::prelude::*;
use crate::dataflow::{lowered, transpile_graph, ErrorView, TranspileError};
use crate::document::{docs_of, lemma_doc_of_children, pairs_of, Doc, Yaml};
use crate::package::{records_of, PackageRecord, RecordView};

verus! {

/// `serde_yaml::Value`, as the parser hands it out.
#[verifier::external_type_specification]
#[verifier::external_body]
pub struct ExYamlValue(Value);

/// What a parsed value holds, as a document.
pub uninterp spec fn yaml_doc(v: Value) -> Doc;

/// The height of a parsed value as a tree.
pub uninterp spec fn yaml_depth(v: Value) -> nat;

/// What `serde_yaml::from_str` makes of a text: the document it holds, or
/// the parser's words on why it holds none.
pub uninterp spec fn yaml_parsed(text: Seq<char>) -> Result<Doc, Seq<char>>;

/// One level of a parsed value: its variant, with its scalars copied and
/// its children borrowed.
pub enum Shape<'a> {
    Null,
    Bool(bool),
    Number(serde_yaml::Number),
    Text(String),
    Sequence(&'a Vec<Value>),
    Mapping(Vec<(&'a Value, &'a Value)>),
    Tagged(String, &'a Value),
}

/// The document that a level stands for, given what its children hold.
pub open spec fn shape_doc(shape: Shape) -> Doc {
    match shape {
        Shape::Null => Doc::Null,
        Shape::Bool(b) => Doc::Bool(b),
        Shape::Number(n) => Doc::Number(n),
        Shape::Text(s) => Doc::Text(s@),
        Shape::Sequence(items) => Doc::Sequence(items@.map_values(|v: Value| yaml_doc(v))),
        Shape::Mapping(entries) => Doc::Mapping(
            entries@.map_values(|e: (&Value, &Value)| (yaml_doc(*e.0), yaml_doc(*e.1))),
        ),
        Shape::Tagged(tag, inner) => Doc::Tagged(tag@, Box::new(yaml_doc(*inner))),
    }
}

/// Whether every child of a level is a tree of height below `depth`.
pub open spec fn shape_below(shape: Shape, depth: nat) -> bool {
    match shape {
        Shape::Sequence(items) => forall|i: int|
            0 <= i < items@.len() ==> yaml_depth(#[trigger] items@[i]) < depth,
        Shape::Mapping(entries) => forall|i: int|
            0 <= i < entries@.len() ==> yaml_depth(*(#[trigger] entries@[i]).0) < depth
                && yaml_depth(*entries@[i].1) < depth,
        Shape::Tagged(_, inner) => yaml_depth(*inner) < depth,
        _ => true,
    }
}

/// Takes one level off a `serde_yaml::Value`: tells its variants apart and
/// hands out its children. The level stands for what the value holds, and
/// each child is a lower tree than the value.
#[verifier::external_body]
fn unfold<'a>(v: &'a Value) -> (shape: Shape<'a>)
    ensures
        shape_doc(shape) == yaml_doc(*v),
        shape_below(shape, yaml_depth(*v)),
{
    match v {
        Value::Null => Shape::Null,
        Value::Bool(b) => Shape::Bool(*b),
        Value::Number(n) => Shape::Number(n.clone()),
        Value::String(s) => Shape::Text(s.clone()),
        Value::Sequence(items) => Shape::Sequence(items),
        Value::Mapping(m) => Shape::Mapping(m.iter().collect()),
        Value::Tagged(t) => Shape::Tagged(t.tag.to_string(), &t.value),
    }
}

/// `serde_yaml::from_str` into a `serde_yaml::Value`: the value that the
/// text holds, or the parser's error as text.
#[verifier::external_body]
fn parse_value(text: &str) -> (parsed: Result<Value, String>)
    ensures
        match parsed {
            Ok(v) => yaml_parsed(text@) == Ok::<Doc, Seq<char>>(yaml_doc(v)),
            Err(why) => yaml_parsed(text@) == Err::<Doc, Seq<char>>(why@),
        },
{
    serde_yaml::from_str::<Value>(text).map_err(|e| e.to_string())
}

/// Copies a parsed value into a document tree, level by level.
pub fn tree_of(v: &Value) -> (doc: Yaml)
    ensures
        doc@ == yaml_doc(*v),
    decreases yaml_depth(*v),
{
    let shape = unfold(v);
    match shape {
        Shape::Null => Yaml::Null,
        Shape::Bool(b) => Yaml::Bool(b),
        Shape::Number(n) => Yaml::Number(n),
        Shape::Text(s) => Yaml::Text(s),
        Shape::Sequence(items) => {
            let ghost want = items@.map_values(|v: Value| yaml_doc(v));
            let mut out: Vec<Yaml> = Vec::new();
            let mut i: usize = 0;
            while i < items.len()
                invariant
                    i <= items@.len(),
                    out@.len() == i,
                    want == items@.map_values(|v: Value| yaml_doc(v)),
                    forall|k: int| 0 <= k < items@.len() ==> yaml_depth(#[trigger] items@[k])
                        < yaml_depth(*v),
                    forall|k: int| 0 <= k < i ==> #[trigger] docs_of(out@)[k] == want[k],
                decreases items@.len() - i,
            {
                let ghost before = out@;
                let child = tree_of(&items[i]);
                out.push(child);
                proof {
                    assert forall|k: int| 0 <= k < i + 1 implies #[trigger] docs_of(out@)[k]
                        == want[k] by {
                        if k < i {
                            assert(docs_of(before)[k] == want[k]);
                        }
                    }
                }
                i = i + 1;
            }
            let doc = Yaml::Sequence(out);
            proof {
                lemma_doc_of_children(doc);
                assert(docs_of(out@) =~= want);
            }
            doc
        },
        Shape::Mapping(entries) => {
            let ghost want = entries@.map_values(
                |e: (&Value, &Value)| (yaml_doc(*e.0), yaml_doc(*e.1)),
            );
            let mut out: Vec<(Yaml, Yaml)> = Vec::new();
            let mut i: usize = 0;
            while i < entries.len()
                invariant
                    i <= entries@.len(),
                    out@.len() == i,
                    want == entries@.map_values(
                        |e: (&Value, &Value)| (yaml_doc(*e.0), yaml_doc(*e.1)),
                    ),
                    forall|k: int|
                        0 <= k < entries@.len() ==> yaml_depth(*(#[trigger] entries@[k]).0)
                            < yaml_depth(*v) && yaml_depth(*entries@[k].1) < yaml_depth(*v),
                    forall|k: int| 0 <= k < i ==> #[trigger] pairs_of(out@)[k] == want[k],
                decreases entries@.len() - i,
            {
                let ghost before = out@;
                let key = tree_of(entries[i].0);
                let value = tree_of(entries[i].1);
                out.push((key, value));
                proof {
                    assert forall|k: int| 0 <= k < i + 1 implies #[trigger] pairs_of(out@)[k]
                        == want[k] by {
                        if k < i {
                            assert(pairs_of(before)[k] == want[k]);
                        }
                    }
                }
                i = i + 1;
            }
            let doc = Yaml::Mapping(out);
            proof {
                lemma_doc_of_children(doc);
                assert(pairs_of(out@) =~= want);
            }
            doc
        },
        Shape::Tagged(tag, inner) => {
            let doc = Yaml::Tagged(tag, Box::new(tree_of(inner)));
            proof {
                lemma_doc_of_children(doc);
            }
            doc
        },
    }
}

/// What reading a text gives: the document it holds, or a parse error with
/// the parser's words.
pub open spec fn document_of(text: Seq<char>) -> Result<Doc, ErrorView> {
    match yaml_parsed(text) {
        Ok(doc) => Ok(doc),
        Err(why) => Err(ErrorView::Parse(why)),
    }
}

/// Reads a document from YAML text. A text that is no document gives a
/// parse error that carries the parser's words.
pub fn parse_document(text: &str) -> (out: Result<Yaml, TranspileError>)
    ensures
        match out {
            Ok(doc) => document_of(text@) == Ok::<Doc, ErrorView>(doc@),
            Err(e) => document_of(text@) == Err::<Doc, ErrorView>(e@),
        },
{
    match parse_value(text) {
        Ok(v) => Ok(tree_of(&v)),
        Err(why) => Err(TranspileError::Parse(why)),
    }
}

/// What lowering a text gives: a parse error where it is no document, and
/// otherwise what lowering the document it holds gives.
pub open spec fn lowered_text(text: Seq<char>, store: Seq<RecordView>) -> Result<
    Doc,
    ErrorView,
> {
    match document_of(text) {
        Ok(doc) => lowered(doc, store),
        Err(e) => Err(e),
    }
}

/// Reads a document from YAML text and lowers it.
pub fn transpile_text(text: &str, store: &[PackageRecord]) -> (out: Result<Yaml, TranspileError>)
    ensures
        match out {
            Ok(doc) => lowered_text(text@, records_of(store@)) == Ok::<Doc, ErrorView>(doc@),
            Err(e) => lowered_text(text@, records_of(store@)) == Err::<Doc, ErrorView>(e@),
        },
{
    match parse_document(text) {
        Ok(doc) => transpile_graph(&doc, store),
        Err(e) => Err(e),
    }
}

} // verus!
