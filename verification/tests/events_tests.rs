use dm_core::event_store::{count_sql, query_sql, SqlValue};
use dm_core::events::{Event, EventBuilder, EventFilter, EventLevel, EventSource, OperationEvent};
use dm_core::export::{escape_xml, render_xes};

#[test]
fn events_event_builder_attributes() {
    let event = EventBuilder::new(EventSource::Ci, "clippy.warn".to_string())
        .case_id("commit_abc123".to_string())
        .level(EventLevel::Warn)
        .message("unused variable".to_string())
        .attr("file", serde_json::Value::from("src/main.rs"))
        .attr("line", serde_json::Value::from(42))
        .attr("severity", serde_json::Value::from("warning"))
        .build("2024-05-01T10:00:00+00:00".to_string());

    assert_eq!(event.source, "ci");
    assert_eq!(event.level, "warn");

    let attrs: serde_json::Value = serde_json::from_str(event.attributes.as_ref().unwrap()).unwrap();
    assert_eq!(attrs["file"], "src/main.rs");
    assert_eq!(attrs["line"], 42);
}

#[test]
fn mod_event_builder_attributes() {
    let event = EventBuilder::new(EventSource::Ci, "clippy.warn".to_string())
        .case_id("commit_abc123".to_string())
        .level(EventLevel::Warn)
        .message("unused variable".to_string())
        .attr("file", serde_json::Value::from("src/main.rs"))
        .attr("line", serde_json::Value::from(42))
        .attr("severity", serde_json::Value::from("warning"))
        .build("2024-05-01T10:00:00+00:00".to_string());

    assert_eq!(event.source, "ci");
    assert_eq!(event.level, "warn");

    let attrs: serde_json::Value = serde_json::from_str(event.attributes.as_ref().unwrap()).unwrap();
    assert_eq!(attrs["file"], "src/main.rs");
    assert_eq!(attrs["line"], 42);
}

#[test]
fn builder_defaults() {
    let event = EventBuilder::new(EventSource::Core, "node.install".to_string()).build("t0".to_string());
    assert_eq!(event.id, 0);
    assert_eq!(event.timestamp, "t0");
    assert_eq!(event.case_id, "");
    assert_eq!(event.activity, "node.install");
    assert_eq!(event.source, "core");
    assert_eq!(event.level, "info");
    assert_eq!(event.node_id, None);
    assert_eq!(event.message, None);
    assert_eq!(event.attributes, None);
}

#[test]
fn builder_attributes_are_one_json_object() {
    let event = EventBuilder::new(EventSource::Server, "http.request".to_string())
        .node_id("n1".to_string())
        .attr("b", serde_json::Value::from(true))
        .attr("a", serde_json::Value::from("x"))
        .attr("b", serde_json::Value::from(false))
        .build("t".to_string());
    assert_eq!(event.node_id, Some("n1".to_string()));
    let parsed: serde_json::Value = serde_json::from_str(event.attributes.as_ref().unwrap()).unwrap();
    let object = parsed.as_object().unwrap();
    assert_eq!(object.len(), 2);
    assert_eq!(object["a"], "x");
    assert_eq!(object["b"], false);
}

#[test]
fn sources_and_levels_have_names() {
    let sources = [
        (EventSource::Core, "core"),
        (EventSource::Dataflow, "dataflow"),
        (EventSource::Server, "server"),
        (EventSource::Frontend, "frontend"),
        (EventSource::Ci, "ci"),
    ];
    for (source, name) in sources {
        assert_eq!(source.to_string(), name);
        assert_eq!(source.as_str(), name);
        assert_eq!(EventSource::from_str(name), Ok(source));
    }
    assert_eq!(EventSource::from_str("Core"), Err("Unknown event source: Core".to_string()));
    let levels = [
        (EventLevel::Trace, "trace"),
        (EventLevel::Debug, "debug"),
        (EventLevel::Info, "info"),
        (EventLevel::Warn, "warn"),
        (EventLevel::Error, "error"),
    ];
    for (level, name) in levels {
        assert_eq!(level.to_string(), name);
        assert_eq!(EventLevel::from_str(name), Ok(level));
    }
    assert_eq!(EventLevel::from_str("fatal"), Err("Unknown event level: fatal".to_string()));
}

#[test]
fn operation_events_tell_start_and_end() {
    let op = OperationEvent::new("/home/.dm", EventSource::Core, "node.install".to_string(), "1234")
        .attr("node_id", serde_json::Value::from("yolo"));
    assert_eq!(op.case_id, "session_1234");
    let start = op.start_event("t1".to_string());
    assert_eq!(start.case_id, "session_1234");
    assert_eq!(start.activity, "node.install");
    assert_eq!(start.source, "core");
    assert_eq!(start.level, "info");
    assert_eq!(start.message, Some("START".to_string()));
    assert_eq!(start.timestamp, "t1");
    assert_eq!(start.attributes, Some("{\"node_id\":\"yolo\"}".to_string()));
    let ok = op.result_event(None, "t2".to_string());
    assert_eq!(ok.level, "info");
    assert_eq!(ok.message, Some("OK".to_string()));
    let failed = op.result_event(Some("boom".to_string()), "t3".to_string());
    assert_eq!(failed.level, "error");
    assert_eq!(failed.message, Some("boom".to_string()));
    assert_eq!(failed.attributes, Some("{\"node_id\":\"yolo\"}".to_string()));
}

#[test]
fn escape_xml_replaces_the_five() {
    assert_eq!(escape_xml("a & b"), "a &amp; b");
    assert_eq!(escape_xml("<tag attr=\"v\">it's</tag>"), "&lt;tag attr=&quot;v&quot;&gt;it&apos;s&lt;/tag&gt;");
    assert_eq!(escape_xml("&amp;"), "&amp;amp;");
    assert_eq!(escape_xml(""), "");
    assert_eq!(escape_xml("plain é"), "plain é");
}

fn event(case_id: &str, activity: &str, node_id: Option<&str>, message: Option<&str>) -> Event {
    Event {
        id: 0,
        timestamp: "2024-01-01T00:00:00Z".to_string(),
        case_id: case_id.to_string(),
        activity: activity.to_string(),
        source: "core".to_string(),
        level: "info".to_string(),
        node_id: node_id.map(|s| s.to_string()),
        message: message.map(|s| s.to_string()),
        attributes: None,
    }
}

const HEAD: &str = "<?xml version=\"1.0\" encoding=\"UTF-8\"?>\n<log xes.version=\"1.0\" xes.features=\"nested-attributes\" xmlns=\"http://www.xes-standard.org/\">\n  <extension name=\"Concept\" prefix=\"concept\" uri=\"http://www.xes-standard.org/concept.xesext\"/>\n  <extension name=\"Time\" prefix=\"time\" uri=\"http://www.xes-standard.org/time.xesext\"/>\n  <extension name=\"Lifecycle\" prefix=\"lifecycle\" uri=\"http://www.xes-standard.org/lifecycle.xesext\"/>\n";

#[test]
fn render_xes_of_nothing() {
    assert_eq!(render_xes(&[]), format!("{HEAD}</log>\n"));
}

#[test]
fn render_xes_groups_by_case_in_order() {
    let events = vec![
        event("s2", "node.start", None, None),
        event("s1", "node.install", Some("yolo"), Some("a <b>")),
        event("s2", "node.stop", None, Some("done")),
    ];
    let xml = render_xes(&events);
    let one = |activity: &str, extra: &str| {
        format!(
            "    <event>\n      <string key=\"concept:name\" value=\"{activity}\"/>\n      <date key=\"time:timestamp\" value=\"2024-01-01T00:00:00Z\"/>\n      <string key=\"source\" value=\"core\"/>\n      <string key=\"level\" value=\"info\"/>\n{extra}    </event>\n"
        )
    };
    let expected = format!(
        "{HEAD}  <trace>\n    <string key=\"concept:name\" value=\"s1\"/>\n{}  </trace>\n  <trace>\n    <string key=\"concept:name\" value=\"s2\"/>\n{}{}  </trace>\n</log>\n",
        one(
            "node.install",
            "      <string key=\"node_id\" value=\"yolo\"/>\n      <string key=\"message\" value=\"a &lt;b&gt;\"/>\n"
        ),
        one("node.start", ""),
        one("node.stop", "      <string key=\"message\" value=\"done\"/>\n"),
    );
    assert_eq!(xml, expected);
    assert!(xml.contains("xes.version"));
    assert!(xml.contains("concept:name"));
}

#[test]
fn render_xes_orders_cases_like_strings() {
    let ids = ["b", "a", "ab", "", "B", "é", "a", "aa", "b"];
    let events: Vec<Event> = ids.iter().map(|id| event(id, "x", None, None)).collect();
    let xml = render_xes(&events);
    let mut sorted: Vec<&str> = ids.to_vec();
    sorted.sort();
    sorted.dedup();
    let mut last = 0;
    for id in sorted {
        let line = format!("  <trace>\n    <string key=\"concept:name\" value=\"{id}\"/>\n");
        let at = xml[last..].find(&line).map(|p| p + last);
        assert!(at.is_some(), "trace of {id:?} is missing or out of order");
        last = at.unwrap() + line.len();
    }
    assert_eq!(xml.matches("<trace>").count(), 7);
    assert_eq!(xml.matches("<event>").count(), ids.len());
}

fn text(value: &SqlValue) -> &str {
    match value {
        SqlValue::Text(s) => s,
        SqlValue::Integer(_) => panic!("a text was expected"),
    }
}

#[test]
fn query_sql_of_an_empty_filter() {
    let query = query_sql(&EventFilter::default());
    assert_eq!(
        query.sql,
        "SELECT id, timestamp, case_id, activity, source, level, node_id, message, attributes FROM events WHERE 1=1 ORDER BY id DESC LIMIT ?"
    );
    assert_eq!(query.params.len(), 1);
    assert!(matches!(query.params[0], SqlValue::Integer(500)));
    let count = count_sql(&EventFilter::default());
    assert_eq!(count.sql, "SELECT COUNT(*) FROM events WHERE 1=1");
    assert!(count.params.is_empty());
}

#[test]
fn query_sql_of_a_full_filter() {
    let filter = EventFilter {
        source: Some("core".into()),
        case_id: Some("s1".into()),
        activity: Some("install".into()),
        level: Some("error".into()),
        node_id: Some("yolo".into()),
        since: Some("2024".into()),
        until: Some("2025".into()),
        limit: Some(10),
        offset: Some(20),
        search: Some("boom".into()),
    };
    let query = query_sql(&filter);
    assert_eq!(
        query.sql,
        "SELECT id, timestamp, case_id, activity, source, level, node_id, message, attributes FROM events WHERE 1=1 AND source = ? AND case_id = ? AND activity LIKE ? AND level = ? AND node_id = ? AND timestamp >= ? AND timestamp <= ? AND (activity LIKE ? OR message LIKE ? OR source LIKE ?) ORDER BY id DESC LIMIT ? OFFSET ?"
    );
    let texts: Vec<&str> = query.params[..10].iter().map(text).collect();
    assert_eq!(texts, vec!["core", "s1", "%install%", "error", "yolo", "2024", "2025", "%boom%", "%boom%", "%boom%"]);
    assert!(matches!(query.params[10], SqlValue::Integer(10)));
    assert!(matches!(query.params[11], SqlValue::Integer(20)));
    assert_eq!(query.params.len(), 12);
    let count = count_sql(&filter);
    assert_eq!(
        count.sql,
        "SELECT COUNT(*) FROM events WHERE 1=1 AND source = ? AND case_id = ? AND activity LIKE ? AND level = ? AND node_id = ? AND timestamp >= ? AND timestamp <= ? AND (activity LIKE ? OR message LIKE ? OR source LIKE ?)"
    );
    assert_eq!(count.params.len(), 10);
}
