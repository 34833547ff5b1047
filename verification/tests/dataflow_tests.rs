use dm_core::dataflow::{
    build_custom_block, build_env_block, dataflow_entry, dataflow_file, lower_node, node_reference,
    transpile_graph, TranspileError,
};
use dm_core::document::Yaml;
use dm_core::package::{
    classify_build, classify_normalized, environment_library_dir, lookup_record,
    resolve_invocation, BuildKind, InstalledPackage, PackageRecord,
};
use dm_core::yaml::{parse_document, transpile_text};

fn installed(id: &str, build: &str, root: &str, library_dir: Option<&str>) -> InstalledPackage {
    InstalledPackage {
        id: id.to_string(),
        build_kind: classify_build(build),
        install_root: root.to_string(),
        entry_point: String::new(),
        library_dir: library_dir.map(|s| s.to_string()),
    }
}

fn package(id: &str, build: &str, root: &str, library_dir: Option<&str>) -> PackageRecord {
    PackageRecord::Installed(installed(id, build, root, library_dir))
}

fn unreadable(id: &str, cause: &str) -> PackageRecord {
    PackageRecord::Unreadable { id: id.to_string(), cause: cause.to_string() }
}

fn managed_python_node(home: &str, id: &str) -> PackageRecord {
    let root = format!("{home}/nodes/{id}");
    let library = environment_library_dir(&root);
    package(id, "pip install dora-test-node", &root, Some(&library))
}

fn text<'a>(doc: &'a Yaml, key: &str) -> Option<&'a str> {
    doc.get(key).and_then(|v| v.as_text()).map(|s| s.as_str())
}

fn nodes(doc: &Yaml) -> &Vec<Yaml> {
    match doc.get("nodes").unwrap().untag() {
        Yaml::Sequence(items) => items,
        other => panic!("nodes is no sequence: {other:?}"),
    }
}

fn keys(doc: &Yaml) -> Vec<String> {
    match doc.untag() {
        Yaml::Mapping(entries) => entries
            .iter()
            .map(|(k, _)| k.as_text().cloned().unwrap_or_default())
            .collect(),
        _ => Vec::new(),
    }
}

fn same(a: &Yaml, b: &Yaml) -> bool {
    format!("{a:?}") == format!("{b:?}")
}

#[test]
fn transpile_graph_rewrites_managed_node_path_to_custom_and_env() {
    let home = "/tmp/dm-home";
    let store = vec![managed_python_node(home, "test-node")];

    let graph = parse_document(
        r#"
nodes:
  - id: n1
    path: test-node
"#,
    )
    .unwrap();

    let out = transpile_graph(&graph, &store).unwrap();
    let node = &nodes(&out)[0];

    assert!(node.get("path").is_none());

    let custom = node.get("custom").unwrap();
    assert_eq!(text(custom, "source"), Some("Local"));
    assert!(text(custom, "path").unwrap().contains(".venv/bin/python"));
    assert_eq!(text(custom, "args"), Some("-m test_node.main"));

    let env = node.get("env").unwrap();
    assert!(text(env, "PATH").unwrap().contains(".venv/bin"));
    assert!(env.get("PYTHONPATH").is_some());

    assert_eq!(text(custom, "path"), Some("/tmp/dm-home/nodes/test-node/.venv/bin/python"));
    assert_eq!(text(env, "PATH"), Some("/tmp/dm-home/nodes/test-node/.venv/bin:$PATH"));
    assert_eq!(
        text(env, "PYTHONPATH"),
        Some("/tmp/dm-home/nodes/test-node/.venv/lib/python3.12/site-packages")
    );
    assert_eq!(keys(node), vec!["id", "custom", "env"]);
    assert_eq!(keys(custom), vec!["source", "path", "args"]);
}

#[test]
fn transpile_graph_leaves_unknown_node_path_unchanged() {
    let graph = parse_document(
        r#"
nodes:
  - id: n1
    path: unknown-node
"#,
    )
    .unwrap();

    let out = transpile_graph(&graph, &[]).unwrap();
    assert_eq!(text(&nodes(&out)[0], "path"), Some("unknown-node"));
    assert!(nodes(&out)[0].get("custom").is_none());
    assert!(same(&out, &graph));
}

#[test]
fn transpile_graph_errors_on_invalid_yaml() {
    let err = transpile_text("nodes: [", &[]).unwrap_err();
    assert!(matches!(err, TranspileError::Parse(_)));
    assert!(err.message().contains("Failed to parse yaml"));
    assert!(err.message().len() > "Failed to parse yaml: ".len());
}

#[test]
fn unmanaged_document_is_returned_as_given() {
    let store = vec![package("installed", "pip install installed", "/r", None)];
    let graph = parse_document(
        r#"
version: 3
description: "kept: as is"
nodes:
  - id: camera
    path: /usr/bin/camera
    inputs:
      tick: dora/timer/millis/50
    outputs: [frame]
  - id: plain
    build: cargo build
  - id: odd
    path: [not, a, text]
  - just a text
  - id: numbers
    path: 7
other: !tagged
  still: here
"#,
    )
    .unwrap();
    let out = transpile_graph(&graph, &store).unwrap();
    assert!(same(&out, &graph));
    let text_out = transpile_text("a: 1\nnodes: nothing\n", &store).unwrap();
    assert!(same(&text_out, &parse_document("a: 1\nnodes: nothing\n").unwrap()));
    assert!(same(&transpile_text("[1, 2]", &store).unwrap(), &parse_document("[1, 2]").unwrap()));
}

#[test]
fn unsupported_build_fails_the_whole_lowering() {
    let store = vec![
        package("py-node", "pip install py-node", "/h/nodes/py-node", None),
        package("js-node", "npm install js-node", "/h/nodes/js-node", None),
    ];
    let text = r#"
nodes:
  - id: first
    path: py-node
  - id: second
    path: js-node
  - id: third
    path: py-node
"#;
    let err = transpile_text(text, &store).unwrap_err();
    match &err {
        TranspileError::UnsupportedBuild { node_id, descriptor } => {
            assert_eq!(node_id, "second");
            assert_eq!(descriptor, "npm install js-node");
        }
        other => panic!("unexpected error: {other:?}"),
    }
    assert_eq!(err.message(), "Cannot transpile node 'second': unknown build type: npm install js-node");
}

#[test]
fn unsupported_node_without_id_is_named_by_its_reference() {
    let store = vec![package("js-node", "npm install js-node", "/r", None)];
    let err = transpile_text("nodes:\n  - path: js-node\n", &store).unwrap_err();
    assert!(matches!(
        err,
        TranspileError::UnsupportedBuild { ref node_id, ref descriptor }
            if node_id == "js-node" && descriptor == "npm install js-node"
    ));
}

#[test]
fn python_package_module_uses_underscores() {
    let store = vec![package("foo-bar", "pip install foo-bar", "/pkgs/foo-bar", None)];
    let out = transpile_text("nodes:\n  - id: n\n    path: foo-bar\n", &store).unwrap();
    let node = &nodes(&out)[0];
    assert_eq!(text(node.get("custom").unwrap(), "args"), Some("-m foo_bar.main"));
    assert_eq!(text(node.get("custom").unwrap(), "path"), Some("/pkgs/foo-bar/.venv/bin/python"));
    assert_eq!(keys(node.get("env").unwrap()), vec!["PATH"]);
    let inv = resolve_invocation(&installed("foo-bar", "pip install foo-bar", "/pkgs/foo-bar", None)).unwrap();
    assert_eq!(inv.path, "/pkgs/foo-bar/.venv/bin/python");
    assert_eq!(inv.args, vec!["-m".to_string(), "foo_bar.main".to_string()]);
    assert_eq!(inv.env, vec![("PATH".to_string(), "/pkgs/foo-bar/.venv/bin:$PATH".to_string())]);
    let many = installed("a--b-c", "uv pip install x", "/r", None);
    assert_eq!(resolve_invocation(&many).unwrap().args[1], "a__b_c.main");
}

#[test]
fn compiled_binary_gets_path_and_empty_env() {
    let store = vec![
        package("rerun", "cargo install dora-rerun", "/h/nodes/rerun", None),
        package("dora-record", "Cargo install dora-record", "/h/nodes/dora-record/", None),
    ];
    let out = transpile_text(
        "nodes:\n  - id: a\n    path: rerun\n    env:\n      KEEP: no\n  - id: b\n    path: dora-record\n",
        &store,
    )
    .unwrap();
    let a = &nodes(&out)[0];
    assert_eq!(text(a.get("custom").unwrap(), "path"), Some("/h/nodes/rerun/bin/dora-rerun"));
    assert_eq!(keys(a.get("custom").unwrap()), vec!["source", "path"]);
    assert!(keys(a.get("env").unwrap()).is_empty());
    assert_eq!(keys(a), vec!["id", "env", "custom"]);
    let b = &nodes(&out)[1];
    assert_eq!(text(b.get("custom").unwrap(), "path"), Some("/h/nodes/dora-record/bin/dora-record"));
}

#[test]
fn lowering_keeps_every_other_field() {
    let store = vec![package("pkg", "uv pip install pkg", "/r", Some("/r/lib"))];
    let out = transpile_text(
        "top: 1\nnodes:\n  - first: 1\n    path: pkg\n    id: n\n    inputs:\n      a: b/c\n    custom: old\n    last: [x]\nafter: {k: v}\n",
        &store,
    )
    .unwrap();
    assert_eq!(keys(&out), vec!["top", "nodes", "after"]);
    let node = &nodes(&out)[0];
    assert_eq!(keys(node), vec!["first", "id", "inputs", "custom", "last", "env"]);
    assert_eq!(text(node.get("inputs").unwrap(), "a"), Some("b/c"));
    assert_eq!(text(node.get("custom").unwrap(), "source"), Some("Local"));
    assert_eq!(text(node.get("env").unwrap(), "PYTHONPATH"), Some("/r/lib"));
    assert!(same(out.get("after").unwrap(), &parse_document("{k: v}").unwrap()));
}

#[test]
fn lowering_twice_changes_nothing_more() {
    let store = vec![
        package("py", "pip install py", "/r/py", Some("/r/py/lib")),
        package("bin", "cargo install bin", "/r/bin", None),
        package("/r/py/.venv/bin/python", "cargo install odd", "/odd", None),
    ];
    let once = transpile_text(
        "nodes:\n  - id: a\n    path: py\n  - id: b\n    path: bin\n  - id: c\n    path: elsewhere\n",
        &store,
    )
    .unwrap();
    let twice = transpile_graph(&once, &store).unwrap();
    assert!(same(&once, &twice));
}

#[test]
fn tags_are_looked_through_and_kept() {
    let store = vec![package("pkg", "cargo install pkg", "/r", None)];
    let doc = Yaml::Tagged(
        "!flow".to_string(),
        Box::new(Yaml::Mapping(vec![(
            Yaml::Text("nodes".to_string()),
            Yaml::Tagged(
                "!list".to_string(),
                Box::new(Yaml::Sequence(vec![Yaml::Tagged(
                    "!node".to_string(),
                    Box::new(Yaml::Mapping(vec![(
                        Yaml::Text("path".to_string()),
                        Yaml::Tagged("!ref".to_string(), Box::new(Yaml::Text("pkg".to_string()))),
                    )])),
                )])),
            ),
        )])),
    );
    let out = transpile_graph(&doc, &store).unwrap();
    assert!(matches!(out, Yaml::Tagged(ref t, _) if t == "!flow"));
    let list = out.get("nodes").unwrap();
    assert!(matches!(list, Yaml::Tagged(t, _) if t == "!list"));
    let node = &nodes(&out)[0];
    assert!(matches!(node, Yaml::Tagged(t, _) if t == "!node"));
    assert_eq!(keys(node), vec!["custom", "env"]);
    assert_eq!(node_reference(&nodes(&doc)[0]).map(|s| s.as_str()), Some("pkg"));
    assert!(same(&lower_node(&nodes(&doc)[0], &store).unwrap(), node));
}

#[test]
fn parse_document_builds_the_tree() {
    let doc = parse_document("a: [1, true, ~, x]\nb: !t {c: 2.5}\n").unwrap();
    assert_eq!(keys(&doc), vec!["a", "b"]);
    match doc.get("a").unwrap() {
        Yaml::Sequence(items) => {
            assert_eq!(items.len(), 4);
            assert!(matches!(&items[0], Yaml::Number(n) if n.as_u64() == Some(1)));
            assert!(matches!(items[1], Yaml::Bool(true)));
            assert!(matches!(items[2], Yaml::Null));
            assert!(matches!(&items[3], Yaml::Text(s) if s == "x"));
        }
        other => panic!("no sequence: {other:?}"),
    }
    assert!(matches!(doc.get("b").unwrap(), Yaml::Tagged(t, _) if t == "!t"));
    assert!(matches!(doc.get("b").unwrap().get("c"), Some(Yaml::Number(n)) if n.as_f64() == Some(2.5)));
    assert!(doc.get("missing").is_none());
    assert!(doc.get("a").unwrap().get("x").is_none());
    let copy = doc.duplicate();
    assert!(same(&copy, &doc));
}

#[test]
fn classify_build_by_prefix() {
    assert!(matches!(classify_build("pip install x"), BuildKind::PythonPackage));
    assert!(matches!(classify_build("  UV pip install x"), BuildKind::PythonPackage));
    assert!(matches!(classify_build("pipx run y"), BuildKind::PythonPackage));
    assert!(matches!(classify_build("\tCargo install x"), BuildKind::CompiledBinary));
    assert!(matches!(classify_build(" npm i "), BuildKind::Unsupported(ref raw) if raw == " npm i "));
    assert!(matches!(classify_build(""), BuildKind::Unsupported(ref raw) if raw.is_empty()));
    assert!(matches!(classify_normalized("PIP", "raw"), BuildKind::Unsupported(ref raw) if raw == "raw"));
}

#[test]
fn blocks_for_a_package() {
    let python = installed("foo-bar", "pip install foo-bar", "/r", Some("/r/site"));
    let custom = build_custom_block(&python).unwrap();
    assert_eq!(keys(&custom), vec!["source", "path", "args"]);
    let env = build_env_block(&python);
    assert_eq!(keys(&env), vec!["PATH", "PYTHONPATH"]);
    let other = installed("x", "make", "/r", None);
    assert_eq!(build_custom_block(&other).unwrap_err(), "make");
    assert!(keys(&build_env_block(&other)).is_empty());
}

#[test]
fn lookup_record_finds_the_first_by_id() {
    let store = vec![
        package("a", "pip", "/first", None),
        unreadable("b", "broken"),
        package("a", "pip", "/second", None),
        package("b", "pip", "/b", None),
    ];
    assert!(matches!(lookup_record(&store, "a"), Some(PackageRecord::Installed(p)) if p.install_root == "/first"));
    assert!(matches!(lookup_record(&store, "b"), Some(PackageRecord::Unreadable { cause, .. }) if cause == "broken"));
    assert!(lookup_record(&store, "c").is_none());
}

#[test]
fn unreadable_package_record_fails_the_whole_lowering() {
    let store = vec![
        package("good", "cargo install good", "/r/good", None),
        unreadable("half-written", "EOF while parsing an object at line 3 column 0"),
    ];
    let err = transpile_text(
        "nodes:\n  - id: a\n    path: good\n  - id: b\n    path: half-written\n",
        &store,
    )
    .unwrap_err();
    assert!(matches!(
        err,
        TranspileError::UnreadablePackage { ref node_id, ref cause }
            if node_id == "b" && cause == "EOF while parsing an object at line 3 column 0"
    ));
    assert_eq!(
        err.message(),
        "Cannot transpile node 'b': unreadable package metadata: EOF while parsing an object at line 3 column 0"
    );
    let untouched = transpile_text("nodes:\n  - id: a\n    path: good\n", &store);
    assert!(untouched.is_ok());
}

#[test]
fn dataflow_listing_entries() {
    assert_eq!(dataflow_file("/home/.dm", "my_flow"), "/home/.dm/dataflows/my_flow.yml");
    let entry = dataflow_entry("my_flow.yml", "2024-01-01T00:00:00+00:00".to_string(), 17).unwrap();
    assert_eq!(entry.name, "my_flow");
    assert_eq!(entry.filename, "my_flow.yml");
    assert_eq!(entry.modified_at, "2024-01-01T00:00:00+00:00");
    assert_eq!(entry.size, 17);
    assert_eq!(dataflow_entry("a.b.yaml", String::new(), 0).unwrap().name, "a.b");
    assert!(dataflow_entry("notes.txt", String::new(), 0).is_none());
    assert!(dataflow_entry("yml", String::new(), 0).is_none());
    assert!(dataflow_entry(".yml", String::new(), 0).is_none());
    assert_eq!(dataflow_entry("..yml", String::new(), 0).unwrap().name, ".");
    for name in ["my_flow.yml", "a.b.yaml", "notes.txt", "yml", ".yml", "..yml", "x.", ".hidden.yaml"] {
        let path = std::path::Path::new(name);
        let is_flow = matches!(path.extension().and_then(|e| e.to_str()), Some("yml") | Some("yaml"));
        let entry = dataflow_entry(name, String::new(), 0);
        assert_eq!(entry.is_some(), is_flow, "{name}");
        if let Some(entry) = entry {
            assert_eq!(entry.name, path.file_stem().unwrap().to_str().unwrap(), "{name}");
        }
    }
}
