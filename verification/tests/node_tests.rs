use std::path::PathBuf;

use dm_core::node::{
    build_meta_from_file, dm_json_path, downloaded_meta, entry_point_for, fallback_entry,
    installed_package, node_dir, nodes_dir, package_spec_from_build, package_spec_from_words,
    parse_github_url, scaffold_node, NodeEntry, NodeMetaFile, NodeSource, SourceError,
};
use dm_core::package::BuildKind;
use dm_core::registry::NodeMeta;

#[test]
fn node_test_nodes_dir_path() {
    let home = "/home/user/.dm";
    assert_eq!(PathBuf::from(nodes_dir(home)), PathBuf::from("/home/user/.dm/nodes"));
}

#[test]
fn node_test_node_dir_path() {
    let home = "/home/user/.dm";
    assert_eq!(
        PathBuf::from(node_dir(home, "llama-vision")),
        PathBuf::from("/home/user/.dm/nodes/llama-vision")
    );
}

#[test]
fn node_test_dm_json_path() {
    let home = "/home/user/.dm";
    assert_eq!(
        PathBuf::from(dm_json_path(home, "test")),
        PathBuf::from("/home/user/.dm/nodes/test/dm.json")
    );
}

#[test]
fn tests_test_nodes_dir_path() {
    let home = std::path::Path::new("/home/user/.dm");
    assert_eq!(
        PathBuf::from(nodes_dir(home.to_str().unwrap())),
        PathBuf::from("/home/user/.dm/nodes")
    );
}

#[test]
fn tests_test_node_dir_path() {
    let home = std::path::Path::new("/home/user/.dm");
    assert_eq!(
        PathBuf::from(node_dir(home.to_str().unwrap(), "llama-vision")),
        PathBuf::from("/home/user/.dm/nodes/llama-vision")
    );
}

#[test]
fn tests_test_dm_json_path() {
    let home = std::path::Path::new("/home/user/.dm");
    assert_eq!(
        PathBuf::from(dm_json_path(home.to_str().unwrap(), "test")),
        PathBuf::from("/home/user/.dm/nodes/test/dm.json")
    );
}

#[test]
fn test_node_entry_struct() {
    let entry = NodeEntry {
        id: "test-node".to_string(),
        name: String::new(),
        version: "1.0.0".to_string(),
        path: "/test/path".to_string(),
        installed_at: "1234567890".to_string(),
        description: String::new(),
        author: None,
        category: String::new(),
        inputs: Vec::new(),
        outputs: Vec::new(),
        avatar: None,
    };

    assert_eq!(entry.id, "test-node");
    assert_eq!(entry.version, "1.0.0");
}

fn meta_file(id: &str, build: &str) -> NodeMetaFile {
    NodeMetaFile {
        id: id.to_string(),
        name: "Name".to_string(),
        version: "1.0.0".to_string(),
        installed_at: "1234567890".to_string(),
        source: NodeSource { build: build.to_string(), github: Some("https://github.com/o/r".to_string()) },
        description: "Does things".to_string(),
        executable: ".venv/bin/x".to_string(),
        author: Some("me".to_string()),
        category: "vision".to_string(),
        inputs: vec!["in".to_string()],
        outputs: vec!["out".to_string(), "log".to_string()],
        avatar: None,
        config_schema: Some(serde_json::Value::from(1)),
    }
}

#[test]
fn into_entry_moves_every_field() {
    let entry = meta_file("n", "pip install n").into_entry("/home/nodes/n".to_string());
    assert_eq!(entry.id, "n");
    assert_eq!(entry.name, "Name");
    assert_eq!(entry.version, "1.0.0");
    assert_eq!(entry.path, "/home/nodes/n");
    assert_eq!(entry.installed_at, "1234567890");
    assert_eq!(entry.description, "Does things");
    assert_eq!(entry.author, Some("me".to_string()));
    assert_eq!(entry.category, "vision");
    assert_eq!(entry.inputs, vec!["in".to_string()]);
    assert_eq!(entry.outputs, vec!["out".to_string(), "log".to_string()]);
    assert_eq!(entry.avatar, None);
}

#[test]
fn fallback_entry_knows_only_id_and_path() {
    let entry = fallback_entry("manual-node".to_string(), "/h/nodes/manual-node".to_string());
    assert_eq!(entry.id, "manual-node");
    assert_eq!(entry.path, "/h/nodes/manual-node");
    assert_eq!(entry.version, "unknown");
    assert_eq!(entry.installed_at, "unknown");
    assert_eq!(entry.name, "");
    assert!(entry.inputs.is_empty() && entry.outputs.is_empty());
    assert!(entry.author.is_none() && entry.avatar.is_none());
}

#[test]
fn build_meta_from_file_copies_the_record() {
    let record = build_meta_from_file(&meta_file("n", "cargo install n"));
    assert_eq!(record.id, "n");
    assert_eq!(record.name, "Name");
    assert_eq!(record.build, "cargo install n");
    assert_eq!(record.description, "Does things");
    assert_eq!(record.category, "vision");
    assert_eq!(record.inputs, vec!["in".to_string()]);
    assert_eq!(record.outputs, vec!["out".to_string(), "log".to_string()]);
    assert!(record.system_deps.is_none());
    assert!(record.tags.is_empty());
    assert_eq!(record.github, Some("https://github.com/o/r".to_string()));
    assert_eq!(record.source, Some("https://github.com/o/r".to_string()));
}

fn catalog_node(id: &str, build: &str) -> NodeMeta {
    NodeMeta {
        id: id.to_string(),
        name: id.to_string(),
        description: String::new(),
        build: build.to_string(),
        system_deps: None,
        inputs: vec![],
        outputs: vec![],
        tags: vec![],
        category: String::new(),
        github: None,
        source: None,
    }
}

#[test]
fn package_spec_is_last_word_of_an_install_command() {
    assert_eq!(package_spec_from_build(&catalog_node("x", "pip install dora-yolo")), "dora-yolo");
    assert_eq!(package_spec_from_build(&catalog_node("x", "  uv   pip install\t-e  dora-qwen ")), "dora-qwen");
    assert_eq!(package_spec_from_build(&catalog_node("x", "pip install")), "install");
    assert_eq!(package_spec_from_build(&catalog_node("rerun", "cargo install dora-rerun")), "dora-rerun");
    assert_eq!(package_spec_from_build(&catalog_node("dora-rerun", "uv install it")), "dora-rerun");
    assert_eq!(package_spec_from_build(&catalog_node("vad", "")), "dora-vad");
    assert_eq!(package_spec_from_words(&vec!["pip".to_string()], "a"), "dora-a");
}

#[test]
fn entry_point_by_kind_and_platform() {
    assert_eq!(entry_point_for(&BuildKind::PythonPackage, "dora-vad", false), Some(".venv/bin/dora-vad".to_string()));
    assert_eq!(entry_point_for(&BuildKind::PythonPackage, "dora-vad", true), Some(".venv/Scripts/dora-vad.exe".to_string()));
    assert_eq!(entry_point_for(&BuildKind::CompiledBinary, "rerun", false), Some("bin/dora-rerun".to_string()));
    assert_eq!(entry_point_for(&BuildKind::CompiledBinary, "dora-rerun", false), Some("bin/dora-rerun".to_string()));
    assert_eq!(entry_point_for(&BuildKind::CompiledBinary, "rerun", true), Some("bin/dora-rerun.exe".to_string()));
    assert_eq!(entry_point_for(&BuildKind::Unsupported("npm install".to_string()), "x", false), None);
}

#[test]
fn installed_package_classifies_the_build() {
    let python = installed_package(&meta_file("n", "  PIP install n"), "/h/nodes/n", Some("/lib".to_string()));
    assert_eq!(python.id, "n");
    assert!(matches!(python.build_kind, BuildKind::PythonPackage));
    assert_eq!(python.install_root, "/h/nodes/n");
    assert_eq!(python.entry_point, ".venv/bin/x");
    assert_eq!(python.library_dir, Some("/lib".to_string()));
    let other = installed_package(&meta_file("n", "npm install n"), "/r", None);
    assert!(matches!(other.build_kind, BuildKind::Unsupported(ref raw) if raw == "npm install n"));
}

#[test]
fn test_create_node_generates_scaffold() {
    let files = scaffold_node("my-processor", "My custom processor", "1700000000".to_string());
    assert_eq!(files.meta.id, "my-processor");
    assert_eq!(files.meta.name, "my-processor");
    assert_eq!(files.meta.version, "0.1.0");
    assert_eq!(files.module_name, "my_processor");
    assert_eq!(files.meta.executable, "");
    assert_eq!(files.meta.installed_at, "1700000000");
    assert_eq!(files.meta.source.build, "pip install -e .");
    assert_eq!(files.meta.outputs, vec!["output".to_string()]);
    assert!(files.meta.inputs.is_empty());
    assert!(files.pyproject.contains("my-processor = \"my_processor.main:main\""));
    assert!(files.pyproject.contains("dora-rs"));
    assert_eq!(
        files.pyproject,
        "[project]\nname = \"my-processor\"\nversion = \"0.1.0\"\ndescription = \"My custom processor\"\nrequires-python = \">=3.10\"\ndependencies = [\"dora-rs >= 0.3.9\", \"pyarrow\"]\n\n[project.scripts]\nmy-processor = \"my_processor.main:main\"\n"
    );
    assert_eq!(
        files.readme,
        "# my-processor\n\nMy custom processor\n\n## Usage\n\n```yaml\n- id: my-processor\n  path: my-processor\n  inputs:\n    input: source/output\n  outputs:\n    - output\n```\n"
    );
    assert!(files.main_py.starts_with("import pyarrow as pa\nfrom dora import Node\n"));
    assert!(files.main_py.contains("node.send_output(\"output\", pa.array([\"processed\"]))"));
    assert!(files.main_py.ends_with("if __name__ == \"__main__\":\n    main()\n"));
}

#[test]
fn downloaded_meta_is_not_installed_yet() {
    let mut node = catalog_node("dora-yolo", "pip install dora-yolo");
    node.name = "YOLO".to_string();
    node.github = Some("https://github.com/dora-rs/dora-hub".to_string());
    node.inputs = vec!["image".to_string()];
    let record = downloaded_meta("dora-yolo", &node, "42".to_string());
    assert_eq!(record.id, "dora-yolo");
    assert_eq!(record.name, "YOLO");
    assert_eq!(record.version, "");
    assert_eq!(record.executable, "");
    assert_eq!(record.installed_at, "42");
    assert_eq!(record.source.build, "pip install dora-yolo");
    assert_eq!(record.source.github, Some("https://github.com/dora-rs/dora-hub".to_string()));
    assert_eq!(record.inputs, vec!["image".to_string()]);
}

#[test]
fn github_url_names_repository_and_folder() {
    let whole = parse_github_url("https://github.com/dora-rs/dora-hub").unwrap();
    assert_eq!(whole.repo_url, "https://github.com/dora-rs/dora-hub.git");
    assert_eq!(whole.folder_path, "");
    let folder = parse_github_url("https://github.com/dora-rs/dora-hub/tree/main/node-hub/dora-yolo").unwrap();
    assert_eq!(folder.repo_url, "https://github.com/dora-rs/dora-hub.git");
    assert_eq!(folder.folder_path, "node-hub/dora-yolo");
    let blob = parse_github_url("https://github.com/o/r/blob/main/a").unwrap();
    assert_eq!(blob.folder_path, "a");
    let branch_only = parse_github_url("https://github.com/o/r/tree/main").unwrap();
    assert_eq!(branch_only.folder_path, "");
    let other = parse_github_url("https://github.com/o/r/pull/7/files/x").unwrap();
    assert_eq!(other.folder_path, "");
}

#[test]
fn github_url_errors() {
    assert!(matches!(
        parse_github_url("https://gitlab.com/o/r"),
        Err(SourceError::Format(ref url)) if url == "https://gitlab.com/o/r"
    ));
    assert!(matches!(parse_github_url("https://github.com/owner"), Err(SourceError::Structure)));
    assert!(parse_github_url("https://github.com/owner/").is_ok());
}
