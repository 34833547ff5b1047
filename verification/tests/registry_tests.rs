use dm_core::registry::{filter_by_needle, filter_nodes, find_node, parse_registry_node, InstallConfig, NodeMeta, RegistryNode};

fn mock_node(id: &str, name: &str, description: &str, tags: &[&str]) -> NodeMeta {
    NodeMeta {
        id: id.to_string(),
        name: name.to_string(),
        description: description.to_string(),
        build: "pip install demo".to_string(),
        system_deps: None,
        inputs: vec!["tick".to_string()],
        outputs: vec!["text".to_string()],
        tags: tags.iter().map(|t| t.to_string()).collect(),
        category: "Test".to_string(),
        github: None,
        source: None,
    }
}

#[test]
fn test_filter_nodes() {
    let nodes = vec![
        mock_node(
            "dora-whisper",
            "Whisper",
            "Transcribe audio to text",
            &["python", "audio"],
        ),
        mock_node(
            "dora-webcam",
            "Webcam",
            "Capture camera frames",
            &["rust", "image"],
        ),
    ];

    let by_name = filter_nodes(&nodes, "whisper");
    assert_eq!(by_name.len(), 1);
    assert_eq!(by_name[0].id, "dora-whisper");

    let by_desc = filter_nodes(&nodes, "camera");
    assert_eq!(by_desc.len(), 1);
    assert_eq!(by_desc[0].id, "dora-webcam");

    let by_tag = filter_nodes(&nodes, "audio");
    assert_eq!(by_tag.len(), 1);
    assert_eq!(by_tag[0].id, "dora-whisper");
}

#[test]
fn test_find_node() {
    let nodes = vec![
        mock_node(
            "dora-whisper",
            "Whisper",
            "Transcribe audio to text",
            &["python"],
        ),
        mock_node("dora-webcam", "Webcam", "Capture camera frames", &["rust"]),
    ];

    let found = find_node(&nodes, "dora-webcam").unwrap();
    assert_eq!(found.name, "Webcam");

    assert!(find_node(&nodes, "missing-node").is_none());
}

#[test]
fn filter_trims_and_ignores_case() {
    let nodes = vec![
        mock_node("a", "Whisper", "Transcribe", &["Audio"]),
        mock_node("b", "Webcam", "Capture", &["image"]),
    ];
    let found = filter_nodes(&nodes, "  WHISPER \n");
    assert_eq!(found.iter().map(|n| n.id.as_str()).collect::<Vec<_>>(), vec!["a"]);
    let by_tag = filter_nodes(&nodes, "AUDIO");
    assert_eq!(by_tag.iter().map(|n| n.id.as_str()).collect::<Vec<_>>(), vec!["a"]);
    let both = filter_nodes(&nodes, "w");
    assert_eq!(both.iter().map(|n| n.id.as_str()).collect::<Vec<_>>(), vec!["a", "b"]);
    assert!(filter_nodes(&nodes, "nothing-like-this").is_empty());
}

#[test]
fn empty_query_finds_everything_in_order() {
    let nodes = vec![mock_node("a", "A", "", &[]), mock_node("b", "B", "", &[])];
    let all = filter_nodes(&nodes, "   ");
    assert_eq!(all.iter().map(|n| n.id.as_str()).collect::<Vec<_>>(), vec!["a", "b"]);
    assert!(filter_nodes(&[], "x").is_empty());
}

#[test]
fn needle_is_taken_as_it_is() {
    let nodes = vec![mock_node("a", "Whisper", "", &[])];
    assert_eq!(filter_by_needle(&nodes, "whisper").len(), 1);
    assert_eq!(filter_by_needle(&nodes, "Whisper").len(), 0);
}

#[test]
fn find_node_returns_the_first_of_equals() {
    let nodes = vec![mock_node("x", "First", "", &[]), mock_node("x", "Second", "", &[])];
    assert_eq!(find_node(&nodes, "x").unwrap().name, "First");
}

#[test]
fn registry_node_becomes_catalog_record() {
    let node = RegistryNode {
        title: "PyAudio".to_string(),
        description: "Audio input".to_string(),
        install: "- id: dora-pyaudio".to_string(),
        tags: vec!["audio".to_string()],
        category: "Audio".to_string(),
        preview: None,
        website: None,
        github: Some("https://github.com/dora-rs/dora".to_string()),
        author: None,
        downloads: None,
        source: None,
        last_commit: None,
        last_release: None,
        license: None,
        support: None,
    };
    let config = InstallConfig {
        id: "dora-pyaudio".to_string(),
        build: "pip install dora-pyaudio".to_string(),
        path: "dora-pyaudio".to_string(),
        inputs: vec![("tick".to_string(), "<NODE>/audio".to_string()), ("stop".to_string(), "x/y".to_string())],
        outputs: vec!["audio".to_string()],
    };
    let record = parse_registry_node(node, config);
    assert_eq!(record.id, "dora-pyaudio");
    assert_eq!(record.name, "PyAudio");
    assert_eq!(record.build, "pip install dora-pyaudio");
    assert_eq!(record.inputs, vec!["tick".to_string(), "stop".to_string()]);
    assert_eq!(record.outputs, vec!["audio".to_string()]);
    assert_eq!(record.tags, vec!["audio".to_string()]);
    assert_eq!(record.github, Some("https://github.com/dora-rs/dora".to_string()));
    assert!(record.system_deps.is_none());
}
