//! Events: what happened, where, and how it went.

use vstd::prelude::*;
use vstd::string::StringExecFns;
use crate::text::{option_text, str_eq};

verus! {

/// Where an event comes from.
#[derive(Debug, Clone, Copy, PartialEq, Eq, Structural)]
pub enum EventSource {
    Core,
    Dataflow,
    Server,
    Frontend,
    Ci,
}

/// The name of an event source.
pub open spec fn source_name(source: EventSource) -> Seq<char> {
    match source {
        EventSource::Core => "core"@,
        EventSource::Dataflow => "dataflow"@,
        EventSource::Server => "server"@,
        EventSource::Frontend => "frontend"@,
        EventSource::Ci => "ci"@,
    }
}

/// The event source of a name, if it is one.
pub open spec fn source_named(name: Seq<char>) -> Option<EventSource> {
    if name == "core"@ {
        Some(EventSource::Core)
    } else if name == "dataflow"@ {
        Some(EventSource::Dataflow)
    } else if name == "server"@ {
        Some(EventSource::Server)
    } else if name == "frontend"@ {
        Some(EventSource::Frontend)
    } else if name == "ci"@ {
        Some(EventSource::Ci)
    } else {
        None
    }
}

impl EventSource {
    /// The name of this source.
    pub fn as_str(&self) -> (name: &'static str)
        ensures
            name@ == source_name(*self),
    {
        match self {
            EventSource::Core => "core",
            EventSource::Dataflow => "dataflow",
            EventSource::Server => "server",
            EventSource::Frontend => "frontend",
            EventSource::Ci => "ci",
        }
    }

    /// The name of this source, as a string of its own.
    pub fn to_string(&self) -> (name: String)
        ensures
            name@ == source_name(*self),
    {
        String::from_str(self.as_str())
    }

    /// The source of a name; for a name that is none, words that say so.
    pub fn from_str(name: &str) -> (source: Result<EventSource, String>)
        ensures
            match source {
                Ok(s) => source_named(name@) == Some(s),
                Err(why) => source_named(name@).is_none() && why@ == "Unknown event source: "@
                    + name@,
            },
    {
        if str_eq(name, "core") {
            Ok(EventSource::Core)
        } else if str_eq(name, "dataflow") {
            Ok(EventSource::Dataflow)
        } else if str_eq(name, "server") {
            Ok(EventSource::Server)
        } else if str_eq(name, "frontend") {
            Ok(EventSource::Frontend)
        } else if str_eq(name, "ci") {
            Ok(EventSource::Ci)
        } else {
            let mut why = String::from_str("Unknown event source: ");
            why.append(name);
            Err(why)
        }
    }
}

/// How severe an event is.
#[derive(Debug, Clone, Copy, PartialEq, Eq, Structural)]
pub enum EventLevel {
    Trace,
    Debug,
    Info,
    Warn,
    Error,
}

/// The name of an event level.
pub open spec fn level_name(level: EventLevel) -> Seq<char> {
    match level {
        EventLevel::Trace => "trace"@,
        EventLevel::Debug => "debug"@,
        EventLevel::Info => "info"@,
        EventLevel::Warn => "warn"@,
        EventLevel::Error => "error"@,
    }
}

/// The event level of a name, if it is one.
pub open spec fn level_named(name: Seq<char>) -> Option<EventLevel> {
    if name == "trace"@ {
        Some(EventLevel::Trace)
    } else if name == "debug"@ {
        Some(EventLevel::Debug)
    } else if name == "info"@ {
        Some(EventLevel::Info)
    } else if name == "warn"@ {
        Some(EventLevel::Warn)
    } else if name == "error"@ {
        Some(EventLevel::Error)
    } else {
        None
    }
}

impl EventLevel {
    /// The name of this level.
    pub fn as_str(&self) -> (name: &'static str)
        ensures
            name@ == level_name(*self),
    {
        match self {
            EventLevel::Trace => "trace",
            EventLevel::Debug => "debug",
            EventLevel::Info => "info",
            EventLevel::Warn => "warn",
            EventLevel::Error => "error",
        }
    }

    /// The name of this level, as a string of its own.
    pub fn to_string(&self) -> (name: String)
        ensures
            name@ == level_name(*self),
    {
        String::from_str(self.as_str())
    }

    /// The level of a name; for a name that is none, words that say so.
    pub fn from_str(name: &str) -> (level: Result<EventLevel, String>)
        ensures
            match level {
                Ok(l) => level_named(name@) == Some(l),
                Err(why) => level_named(name@).is_none() && why@ == "Unknown event level: "@
                    + name@,
            },
    {
        if str_eq(name, "trace") {
            Ok(EventLevel::Trace)
        } else if str_eq(name, "debug") {
            Ok(EventLevel::Debug)
        } else if str_eq(name, "info") {
            Ok(EventLevel::Info)
        } else if str_eq(name, "warn") {
            Ok(EventLevel::Warn)
        } else if str_eq(name, "error") {
            Ok(EventLevel::Error)
        } else {
            let mut why = String::from_str("Unknown event level: ");
            why.append(name);
            Err(why)
        }
    }
}

/// One event.
#[derive(Debug, Clone)]
pub struct Event {
    /// The number that the store gave the event; zero before it is stored.
    pub id: i64,
    pub timestamp: String,
    /// What the event belongs to: a session, a dataflow, a request.
    pub case_id: String,
    pub activity: String,
    pub source: String,
    pub level: String,
    pub node_id: Option<String>,
    pub message: Option<String>,
    /// More about the event, as the text of a JSON object.
    pub attributes: Option<String>,
}

/// Which events to look for.
#[derive(Debug, Clone)]
pub struct EventFilter {
    pub source: Option<String>,
    pub case_id: Option<String>,
    pub activity: Option<String>,
    pub level: Option<String>,
    pub node_id: Option<String>,
    pub since: Option<String>,
    pub until: Option<String>,
    pub limit: Option<i64>,
    pub offset: Option<i64>,
    pub search: Option<String>,
}

impl Default for EventFilter {
    fn default() -> (filter: EventFilter)
        ensures
            filter.source.is_none(),
            filter.case_id.is_none(),
            filter.activity.is_none(),
            filter.level.is_none(),
            filter.node_id.is_none(),
            filter.since.is_none(),
            filter.until.is_none(),
            filter.limit.is_none(),
            filter.offset.is_none(),
            filter.search.is_none(),
    {
        EventFilter {
            source: None,
            case_id: None,
            activity: None,
            level: None,
            node_id: None,
            since: None,
            until: None,
            limit: None,
            offset: None,
            search: None,
        }
    }
}

/// The text of the JSON object that has the given members, as `serde_json` writes it.
pub uninterp spec fn json_object(members: Seq<(Seq<char>, serde_json::Value)>) -> Seq<char>;

/// What a list of members holds.
pub open spec fn members_of(members: Seq<(String, serde_json::Value)>) -> Seq<
    (Seq<char>, serde_json::Value),
> {
    members.map_values(|m: (String, serde_json::Value)| (m.0@, m.1))
}

/// `serde_json::Map` collected from the members, as `serde_json::Value::to_string`
/// writes it: the text of the JSON object that has these members, a later
/// member replacing an earlier one of the same name.
#[verifier::external_body]
fn json_object_text(members: &Vec<(String, serde_json::Value)>) -> (text: String)
    ensures
        text@ == json_object(members_of(members@)),
{
    let object: serde_json::Map<String, serde_json::Value> = members.iter().cloned().collect();
    serde_json::Value::Object(object).to_string()
}

/// `Clone` of `serde_json::Value`: a copy of a JSON value.
#[verifier::external_body]
fn copy_json(value: &serde_json::Value) -> (copy: serde_json::Value)
    ensures
        copy == *value,
{
    value.clone()
}

/// Collects what is known of an event, piece by piece.
#[derive(Debug)]
pub struct EventBuilder {
    pub case_id: String,
    pub activity: String,
    pub source: EventSource,
    pub level: EventLevel,
    pub node_id: Option<String>,
    pub message: Option<String>,
    pub attributes: Vec<(String, serde_json::Value)>,
}

impl EventBuilder {
    /// Begins an event of the given source and activity: for information,
    /// of no case, with nothing more said.
    pub fn new(source: EventSource, activity: String) -> (builder: EventBuilder)
        ensures
            builder.source == source,
            builder.activity == activity,
            builder.level == EventLevel::Info,
            builder.case_id@.len() == 0,
            builder.node_id.is_none(),
            builder.message.is_none(),
            builder.attributes@.len() == 0,
    {
        EventBuilder {
            case_id: String::new(),
            activity,
            source,
            level: EventLevel::Info,
            node_id: None,
            message: None,
            attributes: Vec::new(),
        }
    }

    /// Says what the event belongs to.
    pub fn case_id(self, id: String) -> (builder: EventBuilder)
        ensures
            builder == (EventBuilder { case_id: id, ..self }),
    {
        let mut builder = self;
        builder.case_id = id;
        builder
    }

    /// Says how severe the event is.
    pub fn level(self, level: EventLevel) -> (builder: EventBuilder)
        ensures
            builder == (EventBuilder { level, ..self }),
    {
        let mut builder = self;
        builder.level = level;
        builder
    }

    /// Says which node the event is about.
    pub fn node_id(self, id: String) -> (builder: EventBuilder)
        ensures
            builder == (EventBuilder { node_id: Some(id), ..self }),
    {
        let mut builder = self;
        builder.node_id = Some(id);
        builder
    }

    /// Gives the event a message.
    pub fn message(self, msg: String) -> (builder: EventBuilder)
        ensures
            builder == (EventBuilder { message: Some(msg), ..self }),
    {
        let mut builder = self;
        builder.message = Some(msg);
        builder
    }

    /// Adds an attribute to the event.
    pub fn attr(self, key: &str, value: serde_json::Value) -> (builder: EventBuilder)
        ensures
            builder.case_id == self.case_id,
            builder.activity == self.activity,
            builder.source == self.source,
            builder.level == self.level,
            builder.node_id == self.node_id,
            builder.message == self.message,
            members_of(builder.attributes@) == members_of(self.attributes@).push((key@, value)),
    {
        let mut builder = self;
        let ghost before = builder.attributes@;
        builder.attributes.push((String::from_str(key), value));
        proof {
            before.lemma_push_map_commute(
                |m: (String, serde_json::Value)| (m.0@, m.1),
                builder.attributes@.last(),
            );
        }
        builder
    }

    /// The event, as it happened at `timestamp`. It is not stored yet; its
    /// attributes, if it has any, are written as one JSON object.
    pub fn build(self, timestamp: String) -> (event: Event)
        ensures
            event.id == 0,
            event.timestamp == timestamp,
            event.case_id == self.case_id,
            event.activity == self.activity,
            event.source@ == source_name(self.source),
            event.level@ == level_name(self.level),
            event.node_id == self.node_id,
            event.message == self.message,
            option_text(event.attributes) == if self.attributes@.len() == 0 {
                None
            } else {
                Some(json_object(members_of(self.attributes@)))
            },
    {
        let attributes = if self.attributes.len() == 0 {
            None
        } else {
            Some(json_object_text(&self.attributes))
        };
        Event {
            id: 0,
            timestamp,
            case_id: self.case_id,
            activity: self.activity,
            source: self.source.to_string(),
            level: self.level.to_string(),
            node_id: self.node_id,
            message: self.message,
            attributes,
        }
    }
}

/// An operation that is told of twice: when it starts and when it ends.
#[derive(Debug)]
pub struct OperationEvent {
    pub home: String,
    pub source: EventSource,
    pub activity: String,
    pub case_id: String,
    pub attrs: Vec<(String, serde_json::Value)>,
}

impl OperationEvent {
    /// An operation of the session named `session`.
    pub fn new(home: &str, source: EventSource, activity: String, session: &str) -> (op:
        OperationEvent)
        ensures
            op.home@ == home@,
            op.source == source,
            op.activity == activity,
            op.case_id@ == "session_"@ + session@,
            op.attrs@.len() == 0,
    {
        let mut case_id = String::from_str("session_");
        case_id.append(session);
        OperationEvent { home: String::from_str(home), source, activity, case_id, attrs: Vec::new() }
    }

    /// Adds an attribute to both events of the operation.
    pub fn attr(self, key: &str, value: serde_json::Value) -> (op: OperationEvent)
        ensures
            op.home == self.home,
            op.source == self.source,
            op.activity == self.activity,
            op.case_id == self.case_id,
            members_of(op.attrs@) == members_of(self.attrs@).push((key@, value)),
    {
        let mut op = self;
        let ghost before = op.attrs@;
        op.attrs.push((String::from_str(key), value));
        proof {
            before.lemma_push_map_commute(
                |m: (String, serde_json::Value)| (m.0@, m.1),
                op.attrs@.last(),
            );
        }
        op
    }

    /// A builder for an event of this operation.
    pub fn builder(&self) -> (builder: EventBuilder)
        ensures
            builder.source == self.source,
            builder.activity@ == self.activity@,
            builder.case_id@ == self.case_id@,
            builder.level == EventLevel::Info,
            builder.node_id.is_none(),
            builder.message.is_none(),
            members_of(builder.attributes@) == members_of(self.attrs@),
    {
        let mut attributes: Vec<(String, serde_json::Value)> = Vec::new();
        let mut i: usize = 0;
        while i < self.attrs.len()
            invariant
                i <= self.attrs@.len(),
                members_of(attributes@) == members_of(self.attrs@).take(i as int),
            decreases self.attrs@.len() - i,
        {
            let ghost before = attributes@;
            attributes.push((self.attrs[i].0.clone(), copy_json(&self.attrs[i].1)));
            proof {
                before.lemma_push_map_commute(
                    |m: (String, serde_json::Value)| (m.0@, m.1),
                    attributes@.last(),
                );
                let all = members_of(self.attrs@);
                assert(all.take(i + 1) == all.take(i as int).push(all[i as int]));
            }
            i = i + 1;
        }
        assert(members_of(self.attrs@).take(i as int) == members_of(self.attrs@));
        EventBuilder {
            case_id: self.case_id.clone(),
            activity: self.activity.clone(),
            source: self.source,
            level: EventLevel::Info,
            node_id: None,
            message: None,
            attributes,
        }
    }

    /// The event that tells that the operation starts.
    pub fn start_event(&self, timestamp: String) -> (event: Event)
        ensures
            event.id == 0,
            event.timestamp == timestamp,
            event.case_id@ == self.case_id@,
            event.activity@ == self.activity@,
            event.source@ == source_name(self.source),
            event.level@ == level_name(EventLevel::Info),
            event.node_id.is_none(),
            option_text(event.message) == Some("START"@),
    {
        self.builder().message(String::from_str("START")).build(timestamp)
    }

    /// The event that tells how the operation ended: well, or with the given error.
    pub fn result_event(&self, error: Option<String>, timestamp: String) -> (event: Event)
        ensures
            event.id == 0,
            event.timestamp == timestamp,
            event.case_id@ == self.case_id@,
            event.activity@ == self.activity@,
            event.source@ == source_name(self.source),
            event.node_id.is_none(),
            match error {
                None => event.level@ == level_name(EventLevel::Info) && option_text(event.message)
                    == Some("OK"@),
                Some(why) => event.level@ == level_name(EventLevel::Error) && option_text(
                    event.message,
                ) == Some(why@),
            },
    {
        match error {
            None => self.builder().level(EventLevel::Info).message(String::from_str("OK")).build(
                timestamp,
            ),
            Some(why) => self.builder().level(EventLevel::Error).message(why).build(timestamp),
        }
    }
}

} // verus!
