//! A loosely typed document tree.

use vstd::prelude::*;
use crate::text::str_eq;

verus! {

broadcast use vstd::std_specs::vec::axiom_vec_index_decreases;

/// `serde_yaml::Number`, carried through a document untouched.
#[verifier::external_type_specification]
#[verifier::external_body]
pub struct ExYamlNumber(serde_yaml::Number);

/// A document: a tree of scalars, sequences and mappings. A mapping keeps
/// its entries in order; a tagged value carries its tag as written, with
/// its `!`.
#[derive(Debug)]
pub enum Yaml {
    Null,
    Bool(bool),
    Number(serde_yaml::Number),
    Text(String),
    Sequence(Vec<Yaml>),
    Mapping(Vec<(Yaml, Yaml)>),
    Tagged(String, Box<Yaml>),
}

/// What a document holds.
pub enum Doc {
    Null,
    Bool(bool),
    Number(serde_yaml::Number),
    Text(Seq<char>),
    Sequence(Seq<Doc>),
    Mapping(Seq<(Doc, Doc)>),
    Tagged(Seq<char>, Box<Doc>),
}

/// What the document `y` holds.
pub open spec fn doc_of(y: Yaml) -> Doc
    decreases y,
{
    match y {
        Yaml::Null => Doc::Null,
        Yaml::Bool(b) => Doc::Bool(b),
        Yaml::Number(n) => Doc::Number(n),
        Yaml::Text(s) => Doc::Text(s@),
        Yaml::Sequence(items) => Doc::Sequence(
            Seq::new(
                items.len() as nat,
                |i: int|
                    if 0 <= i < items.len() {
                        doc_of(items[i])
                    } else {
                        Doc::Null
                    },
            ),
        ),
        Yaml::Mapping(entries) => Doc::Mapping(
            Seq::new(
                entries.len() as nat,
                |i: int|
                    if 0 <= i < entries.len() {
                        (doc_of(entries[i].0), doc_of(entries[i].1))
                    } else {
                        (Doc::Null, Doc::Null)
                    },
            ),
        ),
        Yaml::Tagged(tag, inner) => Doc::Tagged(tag@, Box::new(doc_of(*inner))),
    }
}

/// What a list of documents holds, item by item.
pub open spec fn docs_of(items: Seq<Yaml>) -> Seq<Doc> {
    Seq::new(items.len(), |i: int| doc_of(items[i]))
}

/// What a list of pairs of documents holds, pair by pair.
pub open spec fn pairs_of(entries: Seq<(Yaml, Yaml)>) -> Seq<(Doc, Doc)> {
    Seq::new(entries.len(), |i: int| (doc_of(entries[i].0), doc_of(entries[i].1)))
}

/// A sequence holds what its items hold, and a mapping what its entries hold.
pub proof fn lemma_doc_of_children(y: Yaml)
    ensures
        y matches Yaml::Sequence(items) ==> doc_of(y) == Doc::Sequence(docs_of(items@)),
        y matches Yaml::Mapping(entries) ==> doc_of(y) == Doc::Mapping(pairs_of(entries@)),
        y matches Yaml::Tagged(tag, inner) ==> doc_of(y) == Doc::Tagged(tag@, Box::new(doc_of(*inner))),
{
    match y {
        Yaml::Sequence(items) => {
            assert(doc_of(y)->Sequence_0 =~= docs_of(items@));
        },
        Yaml::Mapping(entries) => {
            assert(doc_of(y)->Mapping_0 =~= pairs_of(entries@));
        },
        _ => {},
    }
}

impl View for Yaml {
    type V = Doc;

    open spec fn view(&self) -> Doc {
        doc_of(*self)
    }
}

/// The document under any tags that wrap it.
pub open spec fn untagged(d: Doc) -> Doc
    decreases d,
{
    match d {
        Doc::Tagged(_, inner) => untagged(*inner),
        _ => d,
    }
}

/// The position of the first entry whose key is the text `key`.
pub open spec fn entry_index(entries: Seq<(Doc, Doc)>, key: Seq<char>) -> Option<int>
    decreases entries.len(),
{
    if entries.len() == 0 {
        None
    } else if entries[0].0 == Doc::Text(key) {
        Some(0)
    } else {
        match entry_index(entries.drop_first(), key) {
            Some(i) => Some(i + 1),
            None => None,
        }
    }
}

/// The value under the text key `key`, where `d`, under its tags, is a mapping that has it.
pub open spec fn field(d: Doc, key: Seq<char>) -> Option<Doc> {
    match untagged(d) {
        Doc::Mapping(entries) => match entry_index(entries, key) {
            Some(i) => Some(entries[i].1),
            None => None,
        },
        _ => None,
    }
}

/// The text of `d`, where `d`, under its tags, is a text.
pub open spec fn text_of(d: Doc) -> Option<Seq<char>> {
    match untagged(d) {
        Doc::Text(s) => Some(s),
        _ => None,
    }
}

/// A position that `entry_index` reports is the first whose key is the text `key`.
pub proof fn lemma_entry_index(entries: Seq<(Doc, Doc)>, key: Seq<char>)
    ensures
        match entry_index(entries, key) {
            Some(i) => 0 <= i < entries.len() && entries[i].0 == Doc::Text(key) && forall|j: int|
                0 <= j < i ==> (#[trigger] entries[j]).0 != Doc::Text(key),
            None => forall|j: int| 0 <= j < entries.len() ==> (#[trigger] entries[j]).0 != Doc::Text(key),
        },
    decreases entries.len(),
{
    if entries.len() > 0 && entries[0].0 != Doc::Text(key) {
        let rest = entries.drop_first();
        lemma_entry_index(rest, key);
        match entry_index(rest, key) {
            Some(i) => {
                assert forall|j: int| 0 <= j < i + 1 implies (#[trigger] entries[j]).0 != Doc::Text(
                    key,
                ) by {
                    if j > 0 {
                        assert(rest[j - 1] == entries[j]);
                    }
                }
            },
            None => {
                assert forall|j: int| 0 <= j < entries.len() implies (#[trigger] entries[j]).0
                    != Doc::Text(key) by {
                    if j > 0 {
                        assert(rest[j - 1] == entries[j]);
                    }
                }
            },
        }
    }
}

/// `Clone::clone` of `serde_yaml::Number`: a copy of a number, equal to it.
pub assume_specification[ <serde_yaml::Number as Clone>::clone ](
    n: &serde_yaml::Number,
) -> (copy: serde_yaml::Number)
    ensures
        copy == *n,
;

impl Yaml {
    /// A copy of this document.
    pub fn duplicate(&self) -> (copy: Yaml)
        ensures
            copy@ == self@,
        decreases self,
    {
        proof {
            lemma_doc_of_children(*self);
        }
        match self {
            Yaml::Null => Yaml::Null,
            Yaml::Bool(b) => Yaml::Bool(*b),
            Yaml::Number(n) => Yaml::Number(n.clone()),
            Yaml::Text(s) => Yaml::Text(s.clone()),
            Yaml::Sequence(items) => {
                let copy = Yaml::Sequence(duplicate_items(items));
                proof {
                    lemma_doc_of_children(copy);
                }
                copy
            },
            Yaml::Mapping(entries) => {
                let copy = Yaml::Mapping(duplicate_entries(entries));
                proof {
                    lemma_doc_of_children(copy);
                }
                copy
            },
            Yaml::Tagged(tag, inner) => {
                let copy = Yaml::Tagged(tag.clone(), Box::new(inner.duplicate()));
                proof {
                    lemma_doc_of_children(copy);
                }
                copy
            },
        }
    }

    /// This document under any tags that wrap it.
    pub fn untag(&self) -> (inner: &Yaml)
        ensures
            inner@ == untagged(self@),
            !(inner@ is Tagged),
        decreases self,
    {
        proof {
            lemma_doc_of_children(*self);
        }
        match self {
            Yaml::Tagged(_, inner) => inner.untag(),
            _ => self,
        }
    }

    /// The text of this document, where, under its tags, it is a text.
    pub fn as_text(&self) -> (text: Option<&String>)
        ensures
            match text {
                Some(s) => text_of(self@) == Some(s@),
                None => text_of(self@).is_none(),
            },
    {
        match self.untag() {
            Yaml::Text(s) => Some(s),
            _ => None,
        }
    }

    /// The value under the text key `key`, where this document, under its
    /// tags, is a mapping that has such a key.
    pub fn get(&self, key: &str) -> (value: Option<&Yaml>)
        ensures
            match value {
                Some(v) => field(self@, key@) == Some(v@),
                None => field(self@, key@).is_none(),
            },
    {
        let inner = self.untag();
        proof {
            lemma_doc_of_children(*inner);
        }
        match inner {
            Yaml::Mapping(entries) => {
                match find_entry(entries, key) {
                    Some(i) => Some(&entries[i].1),
                    None => None,
                }
            },
            _ => None,
        }
    }
}

/// Copies of the documents of a list, in order.
pub fn duplicate_items(items: &Vec<Yaml>) -> (copies: Vec<Yaml>)
    ensures
        docs_of(copies@) == docs_of(items@),
    decreases items,
{
    let mut copies: Vec<Yaml> = Vec::new();
    let mut i: usize = 0;
    while i < items.len()
        invariant
            i <= items@.len(),
            copies@.len() == i,
            docs_of(copies@) == docs_of(items@).take(i as int),
        decreases items@.len() - i,
    {
        let ghost before = copies@;
        let copy = items[i].duplicate();
        copies.push(copy);
        proof {
            assert(copies@[i as int]@ == items@[i as int]@);
            assert forall|k: int| 0 <= k < i + 1 implies docs_of(copies@)[k] == docs_of(
                items@,
            ).take(i + 1)[k] by {
                if k < i {
                    assert(docs_of(before)[k] == docs_of(items@).take(i as int)[k]);
                }
            }
        }
        i = i + 1;
        assert(docs_of(copies@) =~= docs_of(items@).take(i as int));
    }
    assert(docs_of(items@).take(i as int) == docs_of(items@));
    copies
}

/// Copies of the entries of a list, in order.
pub fn duplicate_entries(entries: &Vec<(Yaml, Yaml)>) -> (copies: Vec<(Yaml, Yaml)>)
    ensures
        pairs_of(copies@) == pairs_of(entries@),
    decreases entries,
{
    let mut copies: Vec<(Yaml, Yaml)> = Vec::new();
    let mut i: usize = 0;
    while i < entries.len()
        invariant
            i <= entries@.len(),
            copies@.len() == i,
            pairs_of(copies@) == pairs_of(entries@).take(i as int),
        decreases entries@.len() - i,
    {
        let ghost before = copies@;
        assert(decreases_to!(entries => entries[i as int]));
        let key = entries[i].0.duplicate();
        let value = entries[i].1.duplicate();
        copies.push((key, value));
        proof {
            assert(copies@[i as int].0@ == entries@[i as int].0@);
            assert(copies@[i as int].1@ == entries@[i as int].1@);
            assert forall|k: int| 0 <= k < i + 1 implies pairs_of(copies@)[k] == pairs_of(
                entries@,
            ).take(i + 1)[k] by {
                if k < i {
                    assert(pairs_of(before)[k] == pairs_of(entries@).take(i as int)[k]);
                }
            }
        }
        i = i + 1;
        assert(pairs_of(copies@) =~= pairs_of(entries@).take(i as int));
    }
    assert(pairs_of(entries@).take(i as int) == pairs_of(entries@));
    copies
}

/// Finds the first entry whose key is the text `key`.
pub fn find_entry(entries: &Vec<(Yaml, Yaml)>, key: &str) -> (found: Option<usize>)
    ensures
        match found {
            Some(i) => entry_index(pairs_of(entries@), key@) == Some(i as int) && i < entries@.len(),
            None => entry_index(pairs_of(entries@), key@).is_none(),
        },
{
    let ghost all = pairs_of(entries@);
    let mut i: usize = 0;
    assert(all.skip(0) == all);
    while i < entries.len()
        invariant
            i <= entries@.len(),
            all == pairs_of(entries@),
            match entry_index(all.skip(i as int), key@) {
                Some(k) => entry_index(all, key@) == Some(k + i),
                None => entry_index(all, key@).is_none(),
            },
        decreases entries@.len() - i,
    {
        proof {
            assert(all.skip(i as int).drop_first() == all.skip(i + 1));
            assert(all.skip(i as int)[0] == all[i as int]);
        }
        let hit = match &entries[i].0 {
            Yaml::Text(s) => str_eq(s.as_str(), key),
            _ => false,
        };
        if hit {
            return Some(i);
        }
        i = i + 1;
    }
    None
}

} // verus!
