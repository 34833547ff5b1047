//! Installed nodes: their records, where they lie, and how they are set up.

use vstd::prelude::*;
use vstd::string::StringExecFns;
use crate::package::{
    binary_name, classify_build, kind_of, module_name, BuildKind, InstalledPackage, KindView,
    PackageView,
};
use crate::paths::{join_path, joined_path};
use crate::registry::NodeMeta;
use crate::text::{
    clone_option, clone_texts, join, joined, lowercase_of, option_text, pieces, replace, split,
    split_whitespace, starts_with, str_eq, texts, trimmed_of, words_of,
};

verus! {

/// An installed node, as listings show it.
#[derive(Debug, Clone)]
pub struct NodeEntry {
    pub id: String,
    pub name: String,
    pub version: String,
    /// The directory that holds the node.
    pub path: String,
    pub installed_at: String,
    pub description: String,
    pub author: Option<String>,
    pub category: String,
    pub inputs: Vec<String>,
    pub outputs: Vec<String>,
    pub avatar: Option<String>,
}

/// Where an installed node came from.
#[derive(Debug, Clone)]
pub struct NodeSource {
    pub build: String,
    pub github: Option<String>,
}

/// The record that is kept in the directory of each node.
#[derive(Debug, Clone)]
pub struct NodeMetaFile {
    pub id: String,
    pub name: String,
    pub version: String,
    pub installed_at: String,
    pub source: NodeSource,
    pub description: String,
    /// The path of the executable below the node's directory; empty until the node is installed.
    pub executable: String,
    pub author: Option<String>,
    pub category: String,
    pub inputs: Vec<String>,
    pub outputs: Vec<String>,
    pub avatar: Option<String>,
    pub config_schema: Option<serde_json::Value>,
}

/// The directory of all nodes.
pub fn nodes_dir(home: &str) -> (dir: String)
    ensures
        dir@ == joined_path(home@, "nodes"@),
{
    join_path(home, "nodes")
}

/// The directory of one node.
pub fn node_dir(home: &str, id: &str) -> (dir: String)
    ensures
        dir@ == joined_path(joined_path(home@, "nodes"@), id@),
{
    join_path(nodes_dir(home).as_str(), id)
}

/// The file that holds the record of one node.
pub fn dm_json_path(home: &str, id: &str) -> (path: String)
    ensures
        path@ == joined_path(joined_path(joined_path(home@, "nodes"@), id@), "dm.json"@),
{
    join_path(node_dir(home, id).as_str(), "dm.json")
}

impl NodeMetaFile {
    /// The listing entry of the node that this record describes, lying at `path`.
    pub fn into_entry(self, path: String) -> (entry: NodeEntry)
        ensures
            entry.id == self.id,
            entry.name == self.name,
            entry.version == self.version,
            entry.path == path,
            entry.installed_at == self.installed_at,
            entry.description == self.description,
            entry.author == self.author,
            entry.category == self.category,
            entry.inputs == self.inputs,
            entry.outputs == self.outputs,
            entry.avatar == self.avatar,
    {
        NodeEntry {
            id: self.id,
            name: self.name,
            version: self.version,
            path,
            installed_at: self.installed_at,
            description: self.description,
            author: self.author,
            category: self.category,
            inputs: self.inputs,
            outputs: self.outputs,
            avatar: self.avatar,
        }
    }
}

/// The listing entry of a node whose record cannot be read: only its id
/// and its directory are known.
pub fn fallback_entry(id: String, path: String) -> (entry: NodeEntry)
    ensures
        entry.id == id,
        entry.path == path,
        entry.name@.len() == 0,
        entry.version@ == "unknown"@,
        entry.installed_at@ == "unknown"@,
        entry.description@.len() == 0,
        entry.author.is_none(),
        entry.category@.len() == 0,
        entry.inputs@.len() == 0,
        entry.outputs@.len() == 0,
        entry.avatar.is_none(),
{
    NodeEntry {
        id,
        name: String::new(),
        version: String::from_str("unknown"),
        path,
        installed_at: String::from_str("unknown"),
        description: String::new(),
        author: None,
        category: String::new(),
        inputs: Vec::new(),
        outputs: Vec::new(),
        avatar: None,
    }
}

/// The catalog record that stands for an installed node.
pub fn build_meta_from_file(meta: &NodeMetaFile) -> (record: NodeMeta)
    ensures
        record.id@ == meta.id@,
        record.name@ == meta.name@,
        record.build@ == meta.source.build@,
        record.description@ == meta.description@,
        record.category@ == meta.category@,
        texts(record.inputs@) == texts(meta.inputs@),
        texts(record.outputs@) == texts(meta.outputs@),
        record.system_deps.is_none(),
        record.tags@.len() == 0,
        option_text(record.github) == option_text(meta.source.github),
        option_text(record.source) == option_text(meta.source.github),
{
    NodeMeta {
        id: meta.id.clone(),
        name: meta.name.clone(),
        build: meta.source.build.clone(),
        description: meta.description.clone(),
        category: meta.category.clone(),
        inputs: clone_texts(&meta.inputs),
        outputs: clone_texts(&meta.outputs),
        system_deps: None,
        tags: Vec::new(),
        github: clone_option(&meta.source.github),
        source: clone_option(&meta.source.github),
    }
}

/// Whether the words of a build command say `pip install` or `uv pip install`.
pub open spec fn installs_package(words: Seq<Seq<char>>) -> bool {
    ||| (words.len() >= 2 && words[0] == "pip"@ && words[1] == "install"@)
    ||| (words.len() >= 3 && words[0] == "uv"@ && words[1] == "pip"@ && words[2] == "install"@)
}

/// The package to install for a node: the last word of its build command
/// where that command installs a package, and else the name of the node's binary.
pub open spec fn package_spec(words: Seq<Seq<char>>, id: Seq<char>) -> Seq<char> {
    if installs_package(words) {
        words.last()
    } else {
        binary_name(id)
    }
}

/// The package to install, given the words of the build command.
pub fn package_spec_from_words(words: &Vec<String>, id: &str) -> (spec: String)
    ensures
        spec@ == package_spec(texts(words@), id@),
{
    let n = words.len();
    let pip = n >= 2 && str_eq(words[0].as_str(), "pip") && str_eq(words[1].as_str(), "install");
    let uv = n >= 3 && str_eq(words[0].as_str(), "uv") && str_eq(words[1].as_str(), "pip")
        && str_eq(words[2].as_str(), "install");
    if pip || uv {
        words[n - 1].clone()
    } else if starts_with(id, "dora-") {
        String::from_str(id)
    } else {
        let mut name = String::from_str("dora-");
        name.append(id);
        name
    }
}

/// The package to install for a node of the catalog.
pub fn package_spec_from_build(meta: &NodeMeta) -> (spec: String)
    ensures
        spec@ == package_spec(words_of(meta.build@), meta.id@),
{
    let words = split_whitespace(meta.build.as_str());
    package_spec_from_words(&words, meta.id.as_str())
}

/// Where the executable of an installed node lies below its directory:
/// in the directory of executables of its environment for a Python
/// package, under `bin` for a compiled binary; nowhere for another kind.
pub open spec fn entry_point_of(kind: KindView, id: Seq<char>, windows: bool) -> Option<Seq<char>> {
    match kind {
        KindView::PythonPackage => Some(
            if windows {
                ".venv/Scripts/"@ + id + ".exe"@
            } else {
                ".venv/bin/"@ + id
            },
        ),
        KindView::CompiledBinary => Some(
            if windows {
                "bin/"@ + binary_name(id) + ".exe"@
            } else {
                "bin/"@ + binary_name(id)
            },
        ),
        KindView::Unsupported(_) => None,
    }
}

/// Works out where the executable of an installed node lies below its directory.
pub fn entry_point_for(kind: &BuildKind, id: &str, windows: bool) -> (path: Option<String>)
    ensures
        option_text(path) == entry_point_of(kind@, id@, windows),
{
    match kind {
        BuildKind::PythonPackage => {
            if windows {
                let mut path = String::from_str(".venv/Scripts/");
                path.append(id);
                path.append(".exe");
                Some(path)
            } else {
                let mut path = String::from_str(".venv/bin/");
                path.append(id);
                Some(path)
            }
        },
        BuildKind::CompiledBinary => {
            let mut path = String::from_str("bin/");
            if !starts_with(id, "dora-") {
                path.append("dora-");
            }
            path.append(id);
            if windows {
                path.append(".exe");
            }
            proof {
                assert("bin/"@ + ("dora-"@ + id@) =~= "bin/"@ + "dora-"@ + id@);
            }
            Some(path)
        },
        BuildKind::Unsupported(_) => None,
    }
}

/// The package record of an installed node, as lowering needs it.
pub fn installed_package(meta: &NodeMetaFile, install_root: &str, library_dir: Option<String>) -> (
    package: InstalledPackage
)
    ensures
        package@ == (PackageView {
            id: meta.id@,
            kind: kind_of(lowercase_of(trimmed_of(meta.source.build@)), meta.source.build@),
            root: install_root@,
            entry_point: meta.executable@,
            library_dir: option_text(library_dir),
        }),
{
    InstalledPackage {
        id: meta.id.clone(),
        build_kind: classify_build(meta.source.build.as_str()),
        install_root: String::from_str(install_root),
        entry_point: meta.executable.clone(),
        library_dir,
    }
}

/// The files of a new Python node, and its record.
#[derive(Debug, Clone)]
pub struct Scaffold {
    /// The name of the Python module: the directory of `main.py` and `__init__.py`.
    pub module_name: String,
    pub pyproject: String,
    pub main_py: String,
    pub readme: String,
    pub meta: NodeMetaFile,
}

/// The project file of a new Python node.
pub open spec fn pyproject_text(id: Seq<char>, description: Seq<char>) -> Seq<char> {
    "[project]\nname = \""@ + id + "\"\nversion = \"0.1.0\"\ndescription = \""@ + description
        + "\"\nrequires-python = \">=3.10\"\ndependencies = [\"dora-rs >= 0.3.9\", \"pyarrow\"]\n\n[project.scripts]\n"@
        + id + " = \""@ + module_name(id) + ".main:main\"\n"@
}

/// The readme of a new Python node.
pub open spec fn readme_text(id: Seq<char>, description: Seq<char>) -> Seq<char> {
    "# "@ + id + "\n\n"@ + description + "\n\n## Usage\n\n```yaml\n- id: "@ + id + "\n  path: "@ + id
        + "\n  inputs:\n    input: source/output\n  outputs:\n    - output\n```\n"@
}

/// The program of a new Python node: it answers every input with one output.
pub open spec fn main_py_text() -> Seq<char> {
    "import pyarrow as pa\nfrom dora import Node\n\n\ndef main():\n    node = Node()\n    for event in node:\n        if event[\"type\"] == \"INPUT\":\n            input_id = event[\"id\"]\n            value = event[\"value\"]\n            # Process the input here, then send the output\n            node.send_output(\"output\", pa.array([\"processed\"]))\n\n\nif __name__ == \"__main__\":\n    main()\n"@
}

/// Lays out a new Python node: its module is named after its id with `_`
/// for each `-`; its record says that it is built by an editable `pip`
/// install, has one output named `output`, and is not installed yet.
pub fn scaffold_node(id: &str, description: &str, created_at: String) -> (files: Scaffold)
    ensures
        files.module_name@ == module_name(id@),
        files.pyproject@ == pyproject_text(id@, description@),
        files.main_py@ == main_py_text(),
        files.readme@ == readme_text(id@, description@),
        files.meta.id@ == id@,
        files.meta.name@ == id@,
        files.meta.version@ == "0.1.0"@,
        files.meta.installed_at == created_at,
        files.meta.source.build@ == "pip install -e ."@,
        files.meta.source.github.is_none(),
        files.meta.description@ == description@,
        files.meta.executable@.len() == 0,
        files.meta.author.is_none(),
        files.meta.category@.len() == 0,
        files.meta.inputs@.len() == 0,
        texts(files.meta.outputs@) == seq!["output"@],
        files.meta.avatar.is_none(),
        files.meta.config_schema.is_none(),
{
    let module = replace(id, '-', "_");
    let mut pyproject = String::from_str("[project]\nname = \"");
    pyproject.append(id);
    pyproject.append("\"\nversion = \"0.1.0\"\ndescription = \"");
    pyproject.append(description);
    pyproject.append(
        "\"\nrequires-python = \">=3.10\"\ndependencies = [\"dora-rs >= 0.3.9\", \"pyarrow\"]\n\n[project.scripts]\n",
    );
    pyproject.append(id);
    pyproject.append(" = \"");
    pyproject.append(module.as_str());
    pyproject.append(".main:main\"\n");
    let main_py = String::from_str(
        "import pyarrow as pa\nfrom dora import Node\n\n\ndef main():\n    node = Node()\n    for event in node:\n        if event[\"type\"] == \"INPUT\":\n            input_id = event[\"id\"]\n            value = event[\"value\"]\n            # Process the input here, then send the output\n            node.send_output(\"output\", pa.array([\"processed\"]))\n\n\nif __name__ == \"__main__\":\n    main()\n",
    );
    let mut readme = String::from_str("# ");
    readme.append(id);
    readme.append("\n\n");
    readme.append(description);
    readme.append("\n\n## Usage\n\n```yaml\n- id: ");
    readme.append(id);
    readme.append("\n  path: ");
    readme.append(id);
    readme.append("\n  inputs:\n    input: source/output\n  outputs:\n    - output\n```\n");
    let mut outputs: Vec<String> = Vec::new();
    outputs.push(String::from_str("output"));
    assert(texts(outputs@) =~= seq!["output"@]);
    let meta = NodeMetaFile {
        id: String::from_str(id),
        name: String::from_str(id),
        version: String::from_str("0.1.0"),
        installed_at: created_at,
        source: NodeSource { build: String::from_str("pip install -e ."), github: None },
        description: String::from_str(description),
        executable: String::new(),
        author: None,
        category: String::new(),
        inputs: Vec::new(),
        outputs,
        avatar: None,
        config_schema: None,
    };
    Scaffold { module_name: module, pyproject, main_py, readme, meta }
}

/// The record of a node that was fetched from the catalog and is not installed yet.
pub fn downloaded_meta(id: &str, meta: &NodeMeta, fetched_at: String) -> (record: NodeMetaFile)
    ensures
        record.id@ == id@,
        record.name@ == meta.name@,
        record.version@.len() == 0,
        record.installed_at == fetched_at,
        record.source.build@ == meta.build@,
        option_text(record.source.github) == option_text(meta.github),
        record.description@ == meta.description@,
        record.executable@.len() == 0,
        record.author.is_none(),
        record.category@ == meta.category@,
        texts(record.inputs@) == texts(meta.inputs@),
        texts(record.outputs@) == texts(meta.outputs@),
        record.avatar.is_none(),
        record.config_schema.is_none(),
{
    NodeMetaFile {
        id: String::from_str(id),
        name: meta.name.clone(),
        version: String::new(),
        installed_at: fetched_at,
        source: NodeSource { build: meta.build.clone(), github: clone_option(&meta.github) },
        description: meta.description.clone(),
        executable: String::new(),
        author: None,
        category: meta.category.clone(),
        inputs: clone_texts(&meta.inputs),
        outputs: clone_texts(&meta.outputs),
        avatar: None,
        config_schema: None,
    }
}

/// Where the source of a node lies: a repository to clone and, within it,
/// the folder of the node; an empty folder stands for the whole repository.
#[derive(Debug, Clone)]
pub struct GithubSource {
    pub repo_url: String,
    pub folder_path: String,
}

/// Why a URL names no source.
#[derive(Debug, Clone)]
pub enum SourceError {
    /// The URL does not begin with `https://github.com/`; the URL is kept.
    Format(String),
    /// The URL names no owner and repository.
    Structure,
}

/// A source as contracts speak of it.
pub struct SourceView {
    pub repo_url: Seq<char>,
    pub folder_path: Seq<char>,
}

/// The source that a URL names, given the pieces of the URL between
/// slashes: the repository of the fourth and fifth piece and, where the
/// sixth is `tree` or `blob`, the folder that the pieces after the seventh
/// spell out.
pub open spec fn source_of(parts: Seq<Seq<char>>) -> SourceView {
    SourceView {
        repo_url: "https://github.com/"@ + parts[3] + "/"@ + parts[4] + ".git"@,
        folder_path: if parts.len() > 7 && (parts[5] == "tree"@ || parts[5] == "blob"@) {
            joined(parts.skip(7), "/"@)
        } else {
            Seq::empty()
        },
    }
}

/// Reads the source of a node off a URL of its repository or of a folder in it.
pub fn parse_github_url(url: &str) -> (source: Result<GithubSource, SourceError>)
    ensures
        match source {
            Ok(s) => "https://github.com/"@.is_prefix_of(url@) && pieces(url@, '/').len() >= 5
                && s.repo_url@ == source_of(pieces(url@, '/')).repo_url && s.folder_path@
                == source_of(pieces(url@, '/')).folder_path,
            Err(SourceError::Format(kept)) => !"https://github.com/"@.is_prefix_of(url@) && kept@
                == url@,
            Err(SourceError::Structure) => "https://github.com/"@.is_prefix_of(url@) && pieces(
                url@,
                '/',
            ).len() < 5,
        },
{
    if !starts_with(url, "https://github.com/") {
        return Err(SourceError::Format(String::from_str(url)));
    }
    let parts = split(url, '/');
    assert(texts(parts@).len() == parts@.len());
    if parts.len() < 5 {
        return Err(SourceError::Structure);
    }
    let mut repo_url = String::from_str("https://github.com/");
    repo_url.append(parts[3].as_str());
    repo_url.append("/");
    repo_url.append(parts[4].as_str());
    repo_url.append(".git");
    let mut folder_path = String::new();
    if parts.len() > 7 && (str_eq(parts[5].as_str(), "tree") || str_eq(parts[5].as_str(), "blob")) {
        let mut rest: Vec<String> = Vec::new();
        let mut i: usize = 7;
        assert(texts(parts@).skip(7).take(0) =~= texts(rest@));
        while i < parts.len()
            invariant
                7 <= i <= parts@.len(),
                texts(rest@) == texts(parts@).skip(7).take(i - 7),
            decreases parts@.len() - i,
        {
            let ghost before = rest@;
            rest.push(parts[i].clone());
            proof {
                before.lemma_push_map_commute(|s: String| s@, rest@.last());
                let tail = texts(parts@).skip(7);
                assert(tail.take(i - 7 + 1) =~= tail.take(i - 7).push(tail[i - 7]));
            }
            i = i + 1;
        }
        assert(texts(parts@).skip(7).take(i - 7) =~= texts(parts@).skip(7));
        folder_path = join(&rest, "/");
    }
    Ok(GithubSource { repo_url, folder_path })
}

} // verus!
