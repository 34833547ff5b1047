//! The catalog of known node types.

use std::collections::HashMap;
use vstd::prelude::*;
use crate::text::{contains, lowercase_of, occurs_in, str_eq, texts, to_lowercase, trim, trimmed_of};

verus! {

/// What the catalog knows of one node type.
#[derive(Debug, Clone)]
pub struct NodeMeta {
    pub id: String,
    pub name: String,
    pub description: String,
    pub build: String,
    pub system_deps: Option<HashMap<String, String>>,
    pub inputs: Vec<String>,
    pub outputs: Vec<String>,
    pub tags: Vec<String>,
    pub category: String,
    pub github: Option<String>,
    pub source: Option<String>,
}

/// A node type as the validator sees it: its id and its declared ports.
pub struct CatalogEntry {
    pub id: Seq<char>,
    pub inputs: Seq<Seq<char>>,
    pub outputs: Seq<Seq<char>>,
}

impl NodeMeta {
    /// The part of this record that validation reads.
    pub open spec fn entry(&self) -> CatalogEntry {
        CatalogEntry { id: self.id@, inputs: texts(self.inputs@), outputs: texts(self.outputs@) }
    }
}

/// The validator's view of a list of catalog records.
pub open spec fn catalog_entries(records: Seq<NodeMeta>) -> Seq<CatalogEntry> {
    records.map_values(|m: NodeMeta| m.entry())
}

/// A node as the remote registry lists it.
#[derive(Debug, Clone)]
pub struct RegistryNode {
    pub title: String,
    pub description: String,
    /// The install configuration of the node, as YAML text.
    pub install: String,
    pub tags: Vec<String>,
    pub category: String,
    pub preview: Option<String>,
    pub website: Option<String>,
    pub github: Option<String>,
    pub author: Option<String>,
    pub downloads: Option<String>,
    pub source: Option<String>,
    pub last_commit: Option<String>,
    pub last_release: Option<String>,
    pub license: Option<String>,
    pub support: Option<String>,
}

/// The install configuration of a registry node.
#[derive(Debug, Clone)]
pub struct InstallConfig {
    pub id: String,
    pub build: String,
    pub path: String,
    /// The inputs of the node: each name with where it is fed from.
    pub inputs: Vec<(String, String)>,
    pub outputs: Vec<String>,
}

/// The names of a list of inputs, in order.
pub open spec fn input_names(inputs: Seq<(String, String)>) -> Seq<Seq<char>> {
    inputs.map_values(|i: (String, String)| i.0@)
}

/// The catalog record of a registry node, given its install configuration:
/// id, build command and ports come from the configuration, the rest from
/// the registry's listing.
pub fn parse_registry_node(node: RegistryNode, config: InstallConfig) -> (record: NodeMeta)
    ensures
        record.id == config.id,
        record.name == node.title,
        record.description == node.description,
        record.build == config.build,
        record.system_deps.is_none(),
        texts(record.inputs@) == input_names(config.inputs@),
        record.outputs == config.outputs,
        record.tags == node.tags,
        record.category == node.category,
        record.github == node.github,
        record.source == node.source,
{
    let mut inputs: Vec<String> = Vec::new();
    let mut i: usize = 0;
    while i < config.inputs.len()
        invariant
            i <= config.inputs@.len(),
            texts(inputs@) == input_names(config.inputs@).take(i as int),
        decreases config.inputs@.len() - i,
    {
        let ghost before = inputs@;
        inputs.push(config.inputs[i].0.clone());
        proof {
            before.lemma_push_map_commute(|s: String| s@, inputs@.last());
            let all = input_names(config.inputs@);
            assert(all.take(i + 1) == all.take(i as int).push(all[i as int]));
        }
        i = i + 1;
    }
    assert(input_names(config.inputs@).take(i as int) == input_names(config.inputs@));
    NodeMeta {
        id: config.id,
        name: node.title,
        description: node.description,
        build: config.build,
        system_deps: None,
        inputs,
        outputs: config.outputs,
        tags: node.tags,
        category: node.category,
        github: node.github,
        source: node.source,
    }
}

/// Whether one of `tags`, in lower case, holds `needle`.
pub open spec fn some_tag_holds(tags: Seq<Seq<char>>, needle: Seq<char>) -> bool {
    exists|i: int| 0 <= i < tags.len() && occurs_in(needle, lowercase_of(#[trigger] tags[i]))
}

/// Whether a catalog record answers a search: its name, its description or
/// one of its tags, in lower case, holds `needle`.
pub open spec fn answers(record: NodeMeta, needle: Seq<char>) -> bool {
    ||| occurs_in(needle, lowercase_of(record.name@))
    ||| occurs_in(needle, lowercase_of(record.description@))
    ||| some_tag_holds(texts(record.tags@), needle)
}

/// The records among `records` that answer a search, in order.
pub open spec fn answering(records: Seq<NodeMeta>, needle: Seq<char>) -> Seq<NodeMeta>
    decreases records.len(),
{
    if records.len() == 0 {
        Seq::empty()
    } else if answers(records.last(), needle) {
        answering(records.drop_last(), needle).push(records.last())
    } else {
        answering(records.drop_last(), needle)
    }
}

/// What a search returns: every record where the query, trimmed and in
/// lower case, is empty; else the records that answer it.
pub open spec fn search_result(records: Seq<NodeMeta>, query: Seq<char>) -> Seq<NodeMeta> {
    let needle = lowercase_of(trimmed_of(query));
    if needle.len() == 0 {
        records
    } else {
        answering(records, needle)
    }
}

/// The records that a list of references refers to.
pub open spec fn referred(found: Seq<&NodeMeta>) -> Seq<NodeMeta> {
    found.map_values(|r: &NodeMeta| *r)
}

/// Whether one of `tags`, in lower case, holds `needle`.
fn tag_holds(tags: &Vec<String>, needle: &str) -> (yes: bool)
    ensures
        yes == some_tag_holds(texts(tags@), needle@),
{
    let mut i: usize = 0;
    while i < tags.len()
        invariant
            i <= tags@.len(),
            forall|k: int| 0 <= k < i ==> !occurs_in(needle@, lowercase_of(#[trigger] texts(tags@)[k])),
        decreases tags@.len() - i,
    {
        let lower = to_lowercase(tags[i].as_str());
        if contains(lower.as_str(), needle) {
            assert(occurs_in(needle@, lowercase_of(texts(tags@)[i as int])));
            return true;
        }
        i = i + 1;
    }
    false
}

/// Whether a catalog record answers the search for `needle`.
pub fn record_answers(record: &NodeMeta, needle: &str) -> (yes: bool)
    ensures
        yes == answers(*record, needle@),
{
    let name = to_lowercase(record.name.as_str());
    if contains(name.as_str(), needle) {
        return true;
    }
    let description = to_lowercase(record.description.as_str());
    if contains(description.as_str(), needle) {
        return true;
    }
    tag_holds(&record.tags, needle)
}

/// The records that answer the search for `needle`, which is taken as it is.
pub fn filter_by_needle<'a>(nodes: &'a [NodeMeta], needle: &str) -> (found: Vec<&'a NodeMeta>)
    ensures
        referred(found@) == answering(nodes@, needle@),
{
    let mut found: Vec<&'a NodeMeta> = Vec::new();
    let mut i: usize = 0;
    assert(nodes@.take(0) =~= Seq::<NodeMeta>::empty());
    assert(referred(found@) =~= Seq::<NodeMeta>::empty());
    while i < nodes.len()
        invariant
            i <= nodes@.len(),
            referred(found@) == answering(nodes@.take(i as int), needle@),
        decreases nodes@.len() - i,
    {
        proof {
            assert(nodes@.take(i + 1).drop_last() == nodes@.take(i as int));
            assert(nodes@.take(i + 1).last() == nodes@[i as int]);
        }
        if record_answers(&nodes[i], needle) {
            let ghost before = found@;
            found.push(&nodes[i]);
            proof {
                before.lemma_push_map_commute(|r: &NodeMeta| *r, found@.last());
            }
        }
        i = i + 1;
    }
    assert(nodes@.take(i as int) == nodes@);
    found
}

/// Searches the catalog by name, description and tags, without regard to
/// case. An empty query finds every record.
pub fn filter_nodes<'a>(nodes: &'a [NodeMeta], query: &str) -> (found: Vec<&'a NodeMeta>)
    ensures
        referred(found@) == search_result(nodes@, query@),
{
    let needle = to_lowercase(trim(query));
    if needle.as_str().is_empty() {
        let mut found: Vec<&'a NodeMeta> = Vec::new();
        let mut i: usize = 0;
        assert(referred(found@) =~= nodes@.take(0));
        while i < nodes.len()
            invariant
                i <= nodes@.len(),
                referred(found@) == nodes@.take(i as int),
            decreases nodes@.len() - i,
        {
            let ghost before = found@;
            found.push(&nodes[i]);
            proof {
                before.lemma_push_map_commute(|r: &NodeMeta| *r, found@.last());
                assert(nodes@.take(i + 1) == nodes@.take(i as int).push(nodes@[i as int]));
            }
            i = i + 1;
        }
        assert(nodes@.take(i as int) == nodes@);
        found
    } else {
        filter_by_needle(nodes, needle.as_str())
    }
}

/// The first record that bears `id`.
pub open spec fn first_with_id(records: Seq<NodeMeta>, id: Seq<char>) -> Option<NodeMeta>
    decreases records.len(),
{
    if records.len() == 0 {
        None
    } else if records[0].id@ == id {
        Some(records[0])
    } else {
        first_with_id(records.drop_first(), id)
    }
}

/// Finds a catalog record by its id.
pub fn find_node<'a>(nodes: &'a [NodeMeta], id: &str) -> (found: Option<&'a NodeMeta>)
    ensures
        match found {
            Some(record) => first_with_id(nodes@, id@) == Some(*record),
            None => first_with_id(nodes@, id@).is_none(),
        },
{
    let mut i: usize = 0;
    assert(nodes@.skip(0) == nodes@);
    while i < nodes.len()
        invariant
            i <= nodes@.len(),
            first_with_id(nodes@, id@) == first_with_id(nodes@.skip(i as int), id@),
        decreases nodes@.len() - i,
    {
        proof {
            assert(nodes@.skip(i as int).drop_first() == nodes@.skip(i + 1));
            assert(nodes@.skip(i as int)[0] == nodes@[i as int]);
        }
        if str_eq(nodes[i].id.as_str(), id) {
            return Some(&nodes[i]);
        }
        i = i + 1;
    }
    None
}

} // verus!
