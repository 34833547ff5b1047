//! Installed packages and the invocations that run them.

use vstd::prelude::*;
use vstd::string::StringExecFns;
use crate::paths::{join_path, joined_path};
use crate::text::{
    lowercase_of, replace, replaced, starts_with, str_eq, to_lowercase, trim, trimmed_of,
};

verus! {

/// How an installed package has to be invoked.
#[derive(Debug, Clone)]
pub enum BuildKind {
    /// A Python package in an environment of its own.
    PythonPackage,
    /// A compiled binary.
    CompiledBinary,
    /// Anything else, with the build descriptor as it was recorded.
    Unsupported(String),
}

/// The record of one installed package.
#[derive(Debug, Clone)]
pub struct InstalledPackage {
    /// The id by which documents refer to the package.
    pub id: String,
    pub build_kind: BuildKind,
    /// The directory that holds the installation.
    pub install_root: String,
    /// The path of the entry point below `install_root`; empty until installation completes.
    pub entry_point: String,
    /// The library directory of the package's environment, where it exists on disk.
    pub library_dir: Option<String>,
}

/// A build kind as lowering reads it.
pub enum KindView {
    PythonPackage,
    CompiledBinary,
    Unsupported(Seq<char>),
}

/// A package record as lowering reads it.
pub struct PackageView {
    pub id: Seq<char>,
    pub kind: KindView,
    pub root: Seq<char>,
    pub entry_point: Seq<char>,
    pub library_dir: Option<Seq<char>>,
}

impl View for BuildKind {
    type V = KindView;

    open spec fn view(&self) -> KindView {
        match self {
            BuildKind::PythonPackage => KindView::PythonPackage,
            BuildKind::CompiledBinary => KindView::CompiledBinary,
            BuildKind::Unsupported(raw) => KindView::Unsupported(raw@),
        }
    }
}

impl View for InstalledPackage {
    type V = PackageView;

    open spec fn view(&self) -> PackageView {
        PackageView {
            id: self.id@,
            kind: self.build_kind@,
            root: self.install_root@,
            entry_point: self.entry_point@,
            library_dir: match self.library_dir {
                Some(dir) => Some(dir@),
                None => None,
            },
        }
    }
}

/// What a package store holds of one package: its record, or, where the
/// record cannot be read, why not.
#[derive(Debug, Clone)]
pub enum PackageRecord {
    Installed(InstalledPackage),
    Unreadable { id: String, cause: String },
}

/// An entry of a package store as lowering reads it.
pub enum RecordView {
    Installed(PackageView),
    Unreadable { id: Seq<char>, cause: Seq<char> },
}

impl View for PackageRecord {
    type V = RecordView;

    open spec fn view(&self) -> RecordView {
        match self {
            PackageRecord::Installed(package) => RecordView::Installed(package@),
            PackageRecord::Unreadable { id, cause } => RecordView::Unreadable {
                id: id@,
                cause: cause@,
            },
        }
    }
}

/// The id of the package that an entry is about.
pub open spec fn record_id(record: RecordView) -> Seq<char> {
    match record {
        RecordView::Installed(package) => package.id,
        RecordView::Unreadable { id, cause } => id,
    }
}

/// The entries of a package store.
pub open spec fn records_of(store: Seq<PackageRecord>) -> Seq<RecordView> {
    store.map_values(|r: PackageRecord| r@)
}

/// The kind that a normalized build descriptor stands for: Python where it
/// begins with `pip` or `uv`, a compiled binary where it begins with
/// `cargo`, and otherwise unsupported, with the descriptor as recorded.
pub open spec fn kind_of(normalized: Seq<char>, raw: Seq<char>) -> KindView {
    if "pip"@.is_prefix_of(normalized) || "uv"@.is_prefix_of(normalized) {
        KindView::PythonPackage
    } else if "cargo"@.is_prefix_of(normalized) {
        KindView::CompiledBinary
    } else {
        KindView::Unsupported(raw)
    }
}

/// Classifies a build descriptor that is already trimmed and in lower case.
pub fn classify_normalized(normalized: &str, raw: &str) -> (kind: BuildKind)
    ensures
        kind@ == kind_of(normalized@, raw@),
{
    if starts_with(normalized, "pip") || starts_with(normalized, "uv") {
        BuildKind::PythonPackage
    } else if starts_with(normalized, "cargo") {
        BuildKind::CompiledBinary
    } else {
        BuildKind::Unsupported(String::from_str(raw))
    }
}

/// Classifies a build descriptor by the prefix of its trimmed, lower-case form.
pub fn classify_build(descriptor: &str) -> (kind: BuildKind)
    ensures
        kind@ == kind_of(lowercase_of(trimmed_of(descriptor@)), descriptor@),
{
    let normalized = to_lowercase(trim(descriptor));
    classify_normalized(normalized.as_str(), descriptor)
}

/// The first entry of `store` that is about the package `id`.
pub open spec fn find_record(store: Seq<RecordView>, id: Seq<char>) -> Option<RecordView>
    decreases store.len(),
{
    if store.len() == 0 {
        None
    } else if record_id(store[0]) == id {
        Some(store[0])
    } else {
        find_record(store.drop_first(), id)
    }
}

/// Looks up what the store holds of a package.
pub fn lookup_record<'a>(store: &'a [PackageRecord], id: &str) -> (found: Option<&'a PackageRecord>)
    ensures
        match found {
            Some(r) => find_record(records_of(store@), id@) == Some(r@),
            None => find_record(records_of(store@), id@).is_none(),
        },
{
    let ghost all = records_of(store@);
    let mut i: usize = 0;
    assert(all.skip(0) == all);
    while i < store.len()
        invariant
            i <= store@.len(),
            all == records_of(store@),
            find_record(all, id@) == find_record(all.skip(i as int), id@),
        decreases store@.len() - i,
    {
        proof {
            assert(all.skip(i as int).drop_first() == all.skip(i + 1));
            assert(all.skip(i as int)[0] == store@[i as int]@);
        }
        let hit = match &store[i] {
            PackageRecord::Installed(package) => str_eq(package.id.as_str(), id),
            PackageRecord::Unreadable { id: about, cause: _ } => str_eq(about.as_str(), id),
        };
        if hit {
            return Some(&store[i]);
        }
        i = i + 1;
    }
    None
}

/// What it takes to run a package: the executable, its arguments, and the
/// environment variables to set, in order.
#[derive(Debug, Clone)]
pub struct Invocation {
    pub path: String,
    pub args: Vec<String>,
    pub env: Vec<(String, String)>,
}

/// An invocation as lowering writes it.
pub struct InvocationView {
    pub path: Seq<char>,
    pub args: Seq<Seq<char>>,
    pub env: Seq<(Seq<char>, Seq<char>)>,
}

impl View for Invocation {
    type V = InvocationView;

    open spec fn view(&self) -> InvocationView {
        InvocationView {
            path: self.path@,
            args: self.args@.map_values(|s: String| s@),
            env: self.env@.map_values(|e: (String, String)| (e.0@, e.1@)),
        }
    }
}

/// The directory of executables of a package's Python environment.
pub open spec fn environment_bin(root: Seq<char>) -> Seq<char> {
    joined_path(joined_path(root, ".venv"@), "bin"@)
}

/// The library directory of a package's Python environment.
pub open spec fn environment_library(root: Seq<char>) -> Seq<char> {
    joined_path(
        joined_path(joined_path(joined_path(root, ".venv"@), "lib"@), "python3.12"@),
        "site-packages"@,
    )
}

/// The name of the module that runs a Python package: its id with `_` for each `-`.
pub open spec fn module_name(id: Seq<char>) -> Seq<char> {
    replaced(id, '-', "_"@)
}

/// The name of the binary of a compiled package: its id, with `dora-` before
/// it unless it begins so.
pub open spec fn binary_name(id: Seq<char>) -> Seq<char> {
    if "dora-"@.is_prefix_of(id) {
        id
    } else {
        "dora-"@ + id
    }
}

/// The environment of a Python package: its executables first on `PATH`,
/// and its library directory, where it exists, as `PYTHONPATH`.
pub open spec fn python_environment(p: PackageView) -> Seq<(Seq<char>, Seq<char>)> {
    let first = seq![("PATH"@, environment_bin(p.root) + ":$PATH"@)];
    match p.library_dir {
        Some(dir) => first.push(("PYTHONPATH"@, dir)),
        None => first,
    }
}

/// The invocation of a package, or its build descriptor where its kind is unsupported.
pub open spec fn invocation_of(p: PackageView) -> Result<InvocationView, Seq<char>> {
    match p.kind {
        KindView::PythonPackage => Ok(
            InvocationView {
                path: joined_path(environment_bin(p.root), "python"@),
                args: seq!["-m"@, module_name(p.id) + ".main"@],
                env: python_environment(p),
            },
        ),
        KindView::CompiledBinary => Ok(
            InvocationView {
                path: joined_path(joined_path(p.root, "bin"@), binary_name(p.id)),
                args: Seq::empty(),
                env: Seq::empty(),
            },
        ),
        KindView::Unsupported(raw) => Err(raw),
    }
}

/// The directory of executables of the Python environment below `root`.
pub fn environment_bin_dir(root: &str) -> (dir: String)
    ensures
        dir@ == environment_bin(root@),
{
    let venv = join_path(root, ".venv");
    join_path(venv.as_str(), "bin")
}

/// The library directory of the Python environment below `root`.
pub fn environment_library_dir(root: &str) -> (dir: String)
    ensures
        dir@ == environment_library(root@),
{
    let venv = join_path(root, ".venv");
    let lib = join_path(venv.as_str(), "lib");
    let python = join_path(lib.as_str(), "python3.12");
    join_path(python.as_str(), "site-packages")
}

/// Works out how to run a package. Fails with the build descriptor where
/// the package's kind is unsupported.
pub fn resolve_invocation(package: &InstalledPackage) -> (resolved: Result<Invocation, String>)
    ensures
        match resolved {
            Ok(inv) => invocation_of(package@) == Ok::<InvocationView, Seq<char>>(inv@),
            Err(raw) => invocation_of(package@) == Err::<InvocationView, Seq<char>>(raw@),
        },
{
    match &package.build_kind {
        BuildKind::PythonPackage => {
            let bin = environment_bin_dir(package.install_root.as_str());
            let path = join_path(bin.as_str(), "python");
            let mut module = replace(package.id.as_str(), '-', "_");
            module.append(".main");
            let mut args: Vec<String> = Vec::new();
            args.push(String::from_str("-m"));
            args.push(module);
            let mut search = bin;
            search.append(":$PATH");
            let mut env: Vec<(String, String)> = Vec::new();
            env.push((String::from_str("PATH"), search));
            if let Some(dir) = &package.library_dir {
                env.push((String::from_str("PYTHONPATH"), dir.clone()));
            }
            let inv = Invocation { path, args, env };
            proof {
                let want = invocation_of(package@)->Ok_0;
                assert(inv@.args =~= want.args);
                assert(inv@.env =~= want.env);
            }
            Ok(inv)
        },
        BuildKind::CompiledBinary => {
            let name = if starts_with(package.id.as_str(), "dora-") {
                package.id.clone()
            } else {
                let mut name = String::from_str("dora-");
                name.append(package.id.as_str());
                name
            };
            let bin = join_path(package.install_root.as_str(), "bin");
            let path = join_path(bin.as_str(), name.as_str());
            let inv = Invocation { path, args: Vec::new(), env: Vec::new() };
            proof {
                let want = invocation_of(package@)->Ok_0;
                assert(inv@.args =~= want.args);
                assert(inv@.env =~= want.env);
            }
            Ok(inv)
        },
        BuildKind::Unsupported(raw) => Err(raw.clone()),
    }
}

} // verus!
