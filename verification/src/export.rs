//! Events written as an XES log: one trace for each case, the cases in
//! the order of their ids, the events of a case in the order given.

use vstd::prelude::*;
use vstd::string::StringExecFns;
use crate::events::Event;
use crate::text::{precedes, replace, replaced, str_eq, text_less, texts};

verus! {

/// What stands for a character in XML text: an entity for each of `&`,
/// `<`, `>`, `"` and `'`, and the character itself for any other.
pub open spec fn entity(c: char) -> Seq<char> {
    if c == '&' {
        "&amp;"@
    } else if c == '<' {
        "&lt;"@
    } else if c == '>' {
        "&gt;"@
    } else if c == '"' {
        "&quot;"@
    } else if c == '\'' {
        "&apos;"@
    } else {
        seq![c]
    }
}

/// A text with each character replaced by what stands for it in XML text.
pub open spec fn escaped(s: Seq<char>) -> Seq<char>
    decreases s.len(),
{
    if s.len() == 0 {
        Seq::empty()
    } else {
        escaped(s.drop_last()) + entity(s.last())
    }
}

/// The five replacements, one after the other, that make up the escaping.
spec fn replaced_in_turn(s: Seq<char>) -> Seq<char> {
    replaced(
        replaced(
            replaced(replaced(replaced(s, '&', "&amp;"@), '<', "&lt;"@), '>', "&gt;"@),
            '"',
            "&quot;"@,
        ),
        '\'',
        "&apos;"@,
    )
}

/// Replacing in a concatenation is replacing in its two parts.
proof fn lemma_replaced_add(a: Seq<char>, b: Seq<char>, from: char, to: Seq<char>)
    ensures
        replaced(a + b, from, to) == replaced(a, from, to) + replaced(b, from, to),
    decreases b.len(),
{
    if b.len() == 0 {
        assert(a + b =~= a);
        assert(replaced(a, from, to) + replaced(b, from, to) =~= replaced(a, from, to));
    } else {
        assert((a + b).drop_last() =~= a + b.drop_last());
        lemma_replaced_add(a, b.drop_last(), from, to);
        let tail = if b.last() == from {
            to
        } else {
            seq![b.last()]
        };
        assert(replaced(a, from, to) + (replaced(b.drop_last(), from, to) + tail) =~= (replaced(
            a,
            from,
            to,
        ) + replaced(b.drop_last(), from, to)) + tail);
    }
}

/// Replacing a character that a text does not hold leaves the text as it is.
proof fn lemma_replaced_absent(s: Seq<char>, from: char, to: Seq<char>)
    requires
        forall|i: int| 0 <= i < s.len() ==> s[i] != from,
    ensures
        replaced(s, from, to) == s,
    decreases s.len(),
{
    if s.len() > 0 {
        lemma_replaced_absent(s.drop_last(), from, to);
        assert(s.drop_last() + seq![s.last()] =~= s);
    }
}

/// Replacing in a text of one character.
proof fn lemma_replaced_one(c: char, from: char, to: Seq<char>)
    ensures
        replaced(seq![c], from, to) == if c == from { to } else { seq![c] },
{
    assert(seq![c].drop_last() =~= Seq::<char>::empty());
    assert(replaced(Seq::<char>::empty(), from, to) =~= Seq::<char>::empty());
    let tail = if c == from {
        to
    } else {
        seq![c]
    };
    assert(Seq::<char>::empty() + tail =~= tail);
}

/// The five replacements in turn make of one character what stands for it.
proof fn lemma_in_turn_one(c: char)
    ensures
        replaced_in_turn(seq![c]) == entity(c),
{
    reveal_strlit("&amp;");
    reveal_strlit("&lt;");
    reveal_strlit("&gt;");
    reveal_strlit("&quot;");
    reveal_strlit("&apos;");
    let s1 = replaced(seq![c], '&', "&amp;"@);
    lemma_replaced_one(c, '&', "&amp;"@);
    let s2 = replaced(s1, '<', "&lt;"@);
    if c == '&' {
        lemma_replaced_absent(s1, '<', "&lt;"@);
    } else {
        lemma_replaced_one(c, '<', "&lt;"@);
    }
    let s3 = replaced(s2, '>', "&gt;"@);
    if c == '&' || c == '<' {
        lemma_replaced_absent(s2, '>', "&gt;"@);
    } else {
        lemma_replaced_one(c, '>', "&gt;"@);
    }
    let s4 = replaced(s3, '"', "&quot;"@);
    if c == '&' || c == '<' || c == '>' {
        lemma_replaced_absent(s3, '"', "&quot;"@);
    } else {
        lemma_replaced_one(c, '"', "&quot;"@);
    }
    if c == '&' || c == '<' || c == '>' || c == '"' {
        lemma_replaced_absent(s4, '\'', "&apos;"@);
    } else {
        lemma_replaced_one(c, '\'', "&apos;"@);
    }
}

/// The five replacements of a concatenation are those of its two parts.
proof fn lemma_in_turn_add(a: Seq<char>, b: Seq<char>)
    ensures
        replaced_in_turn(a + b) == replaced_in_turn(a) + replaced_in_turn(b),
{
    lemma_replaced_add(a, b, '&', "&amp;"@);
    let a1 = replaced(a, '&', "&amp;"@);
    let b1 = replaced(b, '&', "&amp;"@);
    lemma_replaced_add(a1, b1, '<', "&lt;"@);
    let a2 = replaced(a1, '<', "&lt;"@);
    let b2 = replaced(b1, '<', "&lt;"@);
    lemma_replaced_add(a2, b2, '>', "&gt;"@);
    let a3 = replaced(a2, '>', "&gt;"@);
    let b3 = replaced(b2, '>', "&gt;"@);
    lemma_replaced_add(a3, b3, '"', "&quot;"@);
    let a4 = replaced(a3, '"', "&quot;"@);
    let b4 = replaced(b3, '"', "&quot;"@);
    lemma_replaced_add(a4, b4, '\'', "&apos;"@);
}

/// The five replacements in turn escape a text.
proof fn lemma_in_turn_escapes(s: Seq<char>)
    ensures
        replaced_in_turn(s) == escaped(s),
    decreases s.len(),
{
    if s.len() == 0 {
        assert(replaced_in_turn(s) =~= Seq::<char>::empty());
    } else {
        lemma_in_turn_escapes(s.drop_last());
        lemma_in_turn_one(s.last());
        lemma_in_turn_add(s.drop_last(), seq![s.last()]);
        assert(s.drop_last() + seq![s.last()] =~= s);
    }
}

/// Escapes a text for XML: `&`, `<`, `>`, `"` and `'` become entities.
pub fn escape_xml(s: &str) -> (out: String)
    ensures
        out@ == escaped(s@),
{
    let s1 = replace(s, '&', "&amp;");
    let s2 = replace(s1.as_str(), '<', "&lt;");
    let s3 = replace(s2.as_str(), '>', "&gt;");
    let s4 = replace(s3.as_str(), '"', "&quot;");
    let out = replace(s4.as_str(), '\'', "&apos;");
    proof {
        lemma_in_turn_escapes(s@);
    }
    out
}

/// The ids of cases, in order and each once, with `id` among them.
pub open spec fn with_case(cases: Seq<Seq<char>>, id: Seq<char>) -> Seq<Seq<char>>
    decreases cases.len(),
{
    if cases.len() == 0 {
        seq![id]
    } else if cases[0] == id {
        cases
    } else if precedes(id, cases[0]) {
        seq![id] + cases
    } else {
        seq![cases[0]] + with_case(cases.drop_first(), id)
    }
}

/// The ids of the cases of the first `n` events, in order and each once.
pub open spec fn cases_of(events: Seq<Event>, n: int) -> Seq<Seq<char>>
    decreases n,
{
    if n <= 0 {
        Seq::empty()
    } else {
        with_case(cases_of(events, n - 1), events[n - 1].case_id@)
    }
}

/// Whether each of `cases` comes before the next in the order of strings.
pub open spec fn ascending(cases: Seq<Seq<char>>) -> bool {
    forall|i: int| 0 <= i < cases.len() - 1 ==> precedes(#[trigger] cases[i], cases[i + 1])
}

/// Of two different strings, one comes before the other.
pub proof fn lemma_precedes_total(a: Seq<char>, b: Seq<char>)
    requires
        a != b,
    ensures
        precedes(a, b) || precedes(b, a),
    decreases a.len(),
{
    if a.len() == 0 || b.len() == 0 {
        if a.len() == 0 && b.len() == 0 {
            assert(a =~= b);
        }
    } else if a[0] == b[0] {
        if a.drop_first() == b.drop_first() {
            assert(a =~= seq![a[0]] + a.drop_first());
            assert(b =~= seq![b[0]] + b.drop_first());
        }
        lemma_precedes_total(a.drop_first(), b.drop_first());
    } else {
        assert(a[0] as int != b[0] as int);
    }
}

/// Putting an id among ids in ascending order keeps them in ascending
/// order, and adds nothing but that id.
pub proof fn lemma_with_case(cases: Seq<Seq<char>>, id: Seq<char>)
    requires
        ascending(cases),
    ensures
        ascending(with_case(cases, id)),
        with_case(cases, id).len() >= 1,
        with_case(cases, id)[0] == id || (cases.len() > 0 && with_case(cases, id)[0] == cases[0]),
        with_case(cases, id).contains(id),
        forall|x: Seq<char>| #[trigger] cases.contains(x) ==> with_case(cases, id).contains(x),
        forall|x: Seq<char>| #[trigger]
            with_case(cases, id).contains(x) ==> cases.contains(x) || x == id,
    decreases cases.len(),
{
    let out = with_case(cases, id);
    if cases.len() == 0 {
        assert(out[0] == id);
    } else if cases[0] == id {
        assert(cases[0] == id);
    } else if precedes(id, cases[0]) {
        assert(out[0] == id);
        assert forall|i: int| 0 <= i < out.len() - 1 implies precedes(#[trigger] out[i], out[i + 1]) by {
            if i > 0 {
                assert(precedes(cases[i - 1], cases[i]));
            }
        }
        assert forall|x: Seq<char>| #[trigger] cases.contains(x) implies out.contains(x) by {
            let i = choose|i: int| 0 <= i < cases.len() && cases[i] == x;
            assert(out[i + 1] == x);
        }
        assert forall|x: Seq<char>| #[trigger] out.contains(x) implies cases.contains(x) || x
            == id by {
            let i = choose|i: int| 0 <= i < out.len() && out[i] == x;
            if i > 0 {
                assert(cases[i - 1] == x);
            }
        }
    } else {
        let rest = cases.drop_first();
        assert(ascending(rest)) by {
            assert forall|i: int| 0 <= i < rest.len() - 1 implies precedes(
                #[trigger] rest[i],
                rest[i + 1],
            ) by {
                assert(precedes(cases[i + 1], cases[i + 2]));
            }
        }
        lemma_with_case(rest, id);
        lemma_precedes_total(id, cases[0]);
        let tail = with_case(rest, id);
        assert(out == seq![cases[0]] + tail);
        assert forall|i: int| 0 <= i < out.len() - 1 implies precedes(#[trigger] out[i], out[i + 1]) by {
            if i == 0 {
                if tail[0] != id {
                    assert(precedes(cases[0], cases[1]));
                }
            } else {
                assert(precedes(tail[i - 1], tail[i]));
            }
        }
        assert(out.contains(id)) by {
            let k = choose|k: int| 0 <= k < tail.len() && tail[k] == id;
            assert(out[k + 1] == id);
        }
        assert forall|x: Seq<char>| #[trigger] cases.contains(x) implies out.contains(x) by {
            let j = choose|j: int| 0 <= j < cases.len() && cases[j] == x;
            if j == 0 {
                assert(out[0] == x);
            } else {
                assert(rest[j - 1] == x);
                assert(rest.contains(x));
                let k = choose|k: int| 0 <= k < tail.len() && tail[k] == x;
                assert(out[k + 1] == x);
            }
        }
        assert forall|x: Seq<char>| #[trigger] out.contains(x) implies cases.contains(x) || x
            == id by {
            let i = choose|i: int| 0 <= i < out.len() && out[i] == x;
            if i == 0 {
                assert(cases[0] == x);
            } else {
                assert(tail[i - 1] == x);
                assert(tail.contains(x));
                if rest.contains(x) {
                    let j = choose|j: int| 0 <= j < rest.len() && rest[j] == x;
                    assert(cases[j + 1] == x);
                }
            }
        }
    }
}

/// The traces of a log come in the order of their case ids, and there is
/// a trace for a case exactly where an event belongs to it.
pub proof fn law_traces_in_order(events: Seq<Event>, n: int)
    requires
        0 <= n <= events.len(),
    ensures
        ascending(cases_of(events, n)),
        forall|k: int| 0 <= k < n ==> cases_of(events, n).contains((#[trigger] events[k]).case_id@),
        forall|x: Seq<char>| #[trigger]
            cases_of(events, n).contains(x) ==> exists|k: int|
                0 <= k < n && (#[trigger] events[k]).case_id@ == x,
    decreases n,
{
    if n > 0 {
        law_traces_in_order(events, n - 1);
        let before = cases_of(events, n - 1);
        let id = events[n - 1].case_id@;
        let after = cases_of(events, n);
        lemma_with_case(before, id);
        assert forall|k: int| 0 <= k < n implies after.contains((#[trigger] events[k]).case_id@) by {
            if k < n - 1 {
                assert(before.contains(events[k].case_id@));
            }
        }
        assert forall|x: Seq<char>| #[trigger] after.contains(x) implies exists|k: int|
            0 <= k < n && (#[trigger] events[k]).case_id@ == x by {
            if before.contains(x) {
                let k = choose|k: int| 0 <= k < n - 1 && (#[trigger] events[k]).case_id@ == x;
                assert(0 <= k < n && events[k].case_id@ == x);
            } else {
                assert(events[n - 1].case_id@ == x);
            }
        }
    }
}

/// One attribute of an event or a trace, as a line of the log.
pub open spec fn string_line(indent: Seq<char>, key: Seq<char>, value: Seq<char>) -> Seq<char> {
    indent + "<string key=\""@ + key + "\" value=\""@ + escaped(value) + "\"/>\n"@
}

/// One event, as lines of the log: its activity, its time, its source and
/// its level, and its node and its message where it has them.
pub open spec fn event_text(e: Event) -> Seq<char> {
    "    <event>\n"@ + string_line("      "@, "concept:name"@, e.activity@)
        + "      <date key=\"time:timestamp\" value=\""@ + escaped(e.timestamp@) + "\"/>\n"@
        + string_line("      "@, "source"@, e.source@) + string_line("      "@, "level"@, e.level@)
        + match e.node_id {
        Some(id) => string_line("      "@, "node_id"@, id@),
        None => Seq::empty(),
    } + match e.message {
        Some(m) => string_line("      "@, "message"@, m@),
        None => Seq::empty(),
    } + "    </event>\n"@
}

/// The events of one case among the first `n` events, as lines of the log.
pub open spec fn case_events_text(events: Seq<Event>, case: Seq<char>, n: int) -> Seq<char>
    decreases n,
{
    if n <= 0 {
        Seq::empty()
    } else if events[n - 1].case_id@ == case {
        case_events_text(events, case, n - 1) + event_text(events[n - 1])
    } else {
        case_events_text(events, case, n - 1)
    }
}

/// The trace of one case, as lines of the log.
pub open spec fn trace_text(events: Seq<Event>, case: Seq<char>) -> Seq<char> {
    "  <trace>\n"@ + string_line("    "@, "concept:name"@, case) + case_events_text(
        events,
        case,
        events.len() as int,
    ) + "  </trace>\n"@
}

/// The traces of the first `n` of `cases`, as lines of the log.
pub open spec fn traces_text(events: Seq<Event>, cases: Seq<Seq<char>>, n: int) -> Seq<char>
    decreases n,
{
    if n <= 0 {
        Seq::empty()
    } else {
        traces_text(events, cases, n - 1) + trace_text(events, cases[n - 1])
    }
}

/// The head of every log.
pub open spec fn log_head() -> Seq<char> {
    "<?xml version=\"1.0\" encoding=\"UTF-8\"?>\n<log xes.version=\"1.0\" xes.features=\"nested-attributes\" xmlns=\"http://www.xes-standard.org/\">\n  <extension name=\"Concept\" prefix=\"concept\" uri=\"http://www.xes-standard.org/concept.xesext\"/>\n  <extension name=\"Time\" prefix=\"time\" uri=\"http://www.xes-standard.org/time.xesext\"/>\n  <extension name=\"Lifecycle\" prefix=\"lifecycle\" uri=\"http://www.xes-standard.org/lifecycle.xesext\"/>\n"@
}

/// A list of events as an XES log.
pub open spec fn xes_text(events: Seq<Event>) -> Seq<char> {
    let cases = cases_of(events, events.len() as int);
    log_head() + traces_text(events, cases, cases.len() as int) + "</log>\n"@
}

/// Puts `id` among the ids of cases, which are in order and each once.
fn add_case(cases: &mut Vec<String>, id: &str)
    ensures
        texts(final(cases)@) == with_case(texts(old(cases)@), id@),
{
    let ghost all = texts(cases@);
    let mut i: usize = 0;
    assert(all.take(0) + with_case(all.skip(0), id@) =~= with_case(all, id@)) by {
        assert(all.skip(0) =~= all);
        assert(all.take(0) + with_case(all, id@) =~= with_case(all, id@));
    }
    while i < cases.len() && !str_eq(cases[i].as_str(), id) && !text_less(id, cases[i].as_str())
        invariant
            i <= cases@.len(),
            all == texts(cases@),
            with_case(all, id@) == all.take(i as int) + with_case(all.skip(i as int), id@),
        decreases cases@.len() - i,
    {
        proof {
            let rest = all.skip(i as int);
            assert(rest[0] == cases@[i as int]@);
            assert(rest.drop_first() =~= all.skip(i + 1));
            assert(all.take(i as int) + (seq![rest[0]] + with_case(all.skip(i + 1), id@)) =~= all.take(
                i + 1,
            ) + with_case(all.skip(i + 1), id@));
        }
        i = i + 1;
    }
    proof {
        let rest = all.skip(i as int);
        if i < cases@.len() {
            assert(rest[0] == cases@[i as int]@);
        }
    }
    if i < cases.len() && str_eq(cases[i].as_str(), id) {
        proof {
            assert(all.take(i as int) + all.skip(i as int) =~= all);
        }
    } else {
        cases.insert(i, String::from_str(id));
        proof {
            let rest = all.skip(i as int);
            assert(texts(cases@) =~= all.take(i as int) + (seq![id@] + rest));
            if rest.len() == 0 {
                assert(seq![id@] + rest =~= seq![id@]);
            }
        }
    }
}

/// Writes one attribute as a line of the log.
fn push_string_line(out: &mut String, indent: &str, key: &str, value: &str)
    ensures
        final(out)@ == old(out)@ + string_line(indent@, key@, value@),
{
    let ghost before = out@;
    out.append(indent);
    out.append("<string key=\"");
    out.append(key);
    out.append("\" value=\"");
    out.append(escape_xml(value).as_str());
    out.append("\"/>\n");
    assert(out@ =~= before + string_line(indent@, key@, value@));
}

/// Writes one event as lines of the log.
fn push_event(out: &mut String, e: &Event)
    ensures
        final(out)@ == old(out)@ + event_text(*e),
{
    let ghost before = out@;
    out.append("    <event>\n");
    push_string_line(out, "      ", "concept:name", e.activity.as_str());
    out.append("      <date key=\"time:timestamp\" value=\"");
    out.append(escape_xml(e.timestamp.as_str()).as_str());
    out.append("\"/>\n");
    push_string_line(out, "      ", "source", e.source.as_str());
    push_string_line(out, "      ", "level", e.level.as_str());
    let ghost middle = out@;
    match &e.node_id {
        Some(id) => {
            push_string_line(out, "      ", "node_id", id.as_str());
        },
        None => {
            assert(out@ =~= middle + Seq::<char>::empty());
        },
    }
    let ghost late = out@;
    match &e.message {
        Some(m) => {
            push_string_line(out, "      ", "message", m.as_str());
        },
        None => {
            assert(out@ =~= late + Seq::<char>::empty());
        },
    }
    out.append("    </event>\n");
    assert(out@ =~= before + event_text(*e));
}

/// Writes a list of events as an XES log: one trace for each case, the
/// cases in the order of their ids, the events of each case in the order given.
pub fn render_xes(events: &[Event]) -> (xml: String)
    ensures
        xml@ == xes_text(events@),
{
    let mut xml = String::from_str(
        "<?xml version=\"1.0\" encoding=\"UTF-8\"?>\n<log xes.version=\"1.0\" xes.features=\"nested-attributes\" xmlns=\"http://www.xes-standard.org/\">\n  <extension name=\"Concept\" prefix=\"concept\" uri=\"http://www.xes-standard.org/concept.xesext\"/>\n  <extension name=\"Time\" prefix=\"time\" uri=\"http://www.xes-standard.org/time.xesext\"/>\n  <extension name=\"Lifecycle\" prefix=\"lifecycle\" uri=\"http://www.xes-standard.org/lifecycle.xesext\"/>\n",
    );
    let mut cases: Vec<String> = Vec::new();
    let mut n: usize = 0;
    assert(texts(cases@) =~= cases_of(events@, 0));
    while n < events.len()
        invariant
            n <= events@.len(),
            texts(cases@) == cases_of(events@, n as int),
        decreases events@.len() - n,
    {
        add_case(&mut cases, events[n].case_id.as_str());
        n = n + 1;
    }
    let ghost all = texts(cases@);
    let mut c: usize = 0;
    assert(xml@ =~= log_head() + traces_text(events@, all, 0));
    while c < cases.len()
        invariant
            c <= cases@.len(),
            all == texts(cases@),
            xml@ == log_head() + traces_text(events@, all, c as int),
        decreases cases@.len() - c,
    {
        let ghost before = xml@;
        let case = cases[c].as_str();
        assert(all[c as int] == case@);
        xml.append("  <trace>\n");
        push_string_line(&mut xml, "    ", "concept:name", case);
        let ghost opened = xml@;
        let mut i: usize = 0;
        assert(xml@ =~= opened + case_events_text(events@, case@, 0));
        while i < events.len()
            invariant
                i <= events@.len(),
                xml@ == opened + case_events_text(events@, case@, i as int),
            decreases events@.len() - i,
        {
            let ghost at = xml@;
            if str_eq(events[i].case_id.as_str(), case) {
                push_event(&mut xml, &events[i]);
                assert(xml@ =~= opened + (case_events_text(events@, case@, i as int) + event_text(
                    events@[i as int],
                )));
            }
            i = i + 1;
        }
        xml.append("  </trace>\n");
        assert(xml@ =~= before + trace_text(events@, case@));
        assert(xml@ =~= log_head() + (traces_text(events@, all, c as int) + trace_text(
            events@,
            all[c as int],
        )));
        c = c + 1;
    }
    xml.append("</log>\n");
    xml
}

} // verus!
