//! The text wire protocol spoken with interface child processes: outbound
//! status records rendered onto the child's stdin, and inbound command lines
//! read from its stdout.

use vstd::prelude::*;

use crate::codec::{escape, escape_seq, unescape_chars, unescape_seq};
use crate::strutil::{chars_string, dec_spec, lower_seq, lower_string, str_chars, u64_dec_string};
use crate::unit::{
    from_str_spec, full_name_spec, kind_name, kind_name_string, name_views, str_eq, UnitName,
    UnitNameView,
};

verus! {

/// One log record carried by a `LOG` status message.
pub struct LogEntry {
    pub kind: String,
    pub id: UnitName,
    pub secs: u64,
    pub nsecs: u64,
    pub message: String,
}

/// The abstract value of a log record.
pub struct LogEntryView {
    pub kind: Seq<char>,
    pub id: UnitNameView,
    pub secs: u64,
    pub nsecs: u64,
    pub message: Seq<char>,
}

impl View for LogEntry {
    type V = LogEntryView;

    closed spec fn view(&self) -> LogEntryView {
        LogEntryView {
            kind: self.kind@,
            id: self.id@,
            secs: self.secs,
            nsecs: self.nsecs,
            message: self.message@,
        }
    }
}

/// A status message rendered to an interface child.
pub enum ManagerStatusMessage {
    /// The selected jig, if any.
    Jig(Option<UnitName>),
    /// Greets a newly started interface with its own name.
    Hello(UnitName),
    /// A scenario and its ordered tests.
    Tests(UnitName, Vec<UnitName>),
    /// The selected scenario, if any.
    Scenario(Option<UnitName>),
    /// Every known scenario.
    Scenarios(Vec<UnitName>),
    /// One described field of one unit.
    Describe(UnitName, String, String),
    /// A log record.
    Log(LogEntry),
    /// A test began running.
    Running(UnitName),
    /// A test was skipped, with the reason.
    Skipped(UnitName, String),
    /// A scenario finished with a result code and reason.
    Finished(UnitName, u64, String),
    /// A test failed; the code is kept but not rendered.
    Fail(UnitName, u64, String),
    /// A test passed.
    Pass(UnitName, String),
    /// A scenario started.
    Start(UnitName),
}

/// The abstract value of a status message.
pub enum ManagerStatusMessageView {
    Jig(Option<UnitNameView>),
    Hello(UnitNameView),
    Tests(UnitNameView, Seq<UnitNameView>),
    Scenario(Option<UnitNameView>),
    Scenarios(Seq<UnitNameView>),
    Describe(UnitNameView, Seq<char>, Seq<char>),
    Log(LogEntryView),
    Running(UnitNameView),
    Skipped(UnitNameView, Seq<char>),
    Finished(UnitNameView, u64, Seq<char>),
    Fail(UnitNameView, u64, Seq<char>),
    Pass(UnitNameView, Seq<char>),
    Start(UnitNameView),
}

impl View for ManagerStatusMessage {
    type V = ManagerStatusMessageView;

    open spec fn view(&self) -> ManagerStatusMessageView {
        match self {
            ManagerStatusMessage::Jig(j) => ManagerStatusMessageView::Jig(
                match j {
                    Some(n) => Some(n@),
                    None => None,
                },
            ),
            ManagerStatusMessage::Hello(n) => ManagerStatusMessageView::Hello(n@),
            ManagerStatusMessage::Tests(s, ts) => ManagerStatusMessageView::Tests(
                s@,
                name_views(ts@),
            ),
            ManagerStatusMessage::Scenario(s) => ManagerStatusMessageView::Scenario(
                match s {
                    Some(n) => Some(n@),
                    None => None,
                },
            ),
            ManagerStatusMessage::Scenarios(ss) => ManagerStatusMessageView::Scenarios(
                name_views(ss@),
            ),
            ManagerStatusMessage::Describe(n, f, v) => ManagerStatusMessageView::Describe(
                n@,
                f@,
                v@,
            ),
            ManagerStatusMessage::Log(l) => ManagerStatusMessageView::Log(l@),
            ManagerStatusMessage::Running(n) => ManagerStatusMessageView::Running(n@),
            ManagerStatusMessage::Skipped(n, r) => ManagerStatusMessageView::Skipped(n@, r@),
            ManagerStatusMessage::Finished(n, c, r) => ManagerStatusMessageView::Finished(
                n@,
                *c,
                r@,
            ),
            ManagerStatusMessage::Fail(n, c, r) => ManagerStatusMessageView::Fail(n@, *c, r@),
            ManagerStatusMessage::Pass(n, r) => ManagerStatusMessageView::Pass(n@, r@),
            ManagerStatusMessage::Start(n) => ManagerStatusMessageView::Start(n@),
        }
    }
}

/// Each id escaped and preceded by one space.
pub open spec fn render_ids(ts: Seq<UnitNameView>) -> Seq<char>
    decreases ts.len(),
{
    if ts.len() == 0 {
        Seq::empty()
    } else {
        seq![' '] + escape_seq(ts[0].id) + render_ids(ts.drop_first())
    }
}

proof fn lemma_render_ids_snoc(ts: Seq<UnitNameView>, t: UnitNameView)
    ensures
        render_ids(ts.push(t)) == render_ids(ts) + seq![' '] + escape_seq(t.id),
    decreases ts.len(),
{
    if ts.len() == 0 {
        assert(ts.push(t).drop_first() =~= Seq::<UnitNameView>::empty());
        assert(ts.push(t)[0] == t);
        assert(render_ids(Seq::<UnitNameView>::empty()) =~= Seq::<char>::empty());
        assert(render_ids(ts.push(t)) =~= render_ids(ts) + seq![' '] + escape_seq(t.id));
    } else {
        assert(ts.push(t).drop_first() =~= ts.drop_first().push(t));
        assert(ts.push(t)[0] == ts[0]);
        lemma_render_ids_snoc(ts.drop_first(), t);
        assert(render_ids(ts.push(t)) =~= render_ids(ts) + seq![' '] + escape_seq(t.id));
    }
}

/// The exact record rendered for a status message, newline-terminated.
pub open spec fn render_spec(m: ManagerStatusMessageView) -> Seq<char> {
    match m {
        ManagerStatusMessageView::Jig(j) => match j {
            Some(n) => "JIG "@ + escape_seq(full_name_spec(n)) + "\n"@,
            None => "JIG\n"@,
        },
        ManagerStatusMessageView::Hello(n) => "HELLO "@ + escape_seq(full_name_spec(n)) + "\n"@,
        ManagerStatusMessageView::Tests(s, ts) => "TESTS "@ + escape_seq(s.id) + render_ids(ts)
            + "\n"@,
        ManagerStatusMessageView::Scenario(s) => match s {
            Some(n) => "SCENARIO "@ + escape_seq(n.id) + "\n"@,
            None => "SCENARIO\n"@,
        },
        ManagerStatusMessageView::Scenarios(ss) => "SCENARIOS"@ + render_ids(ss) + "\n"@,
        ManagerStatusMessageView::Describe(n, f, v) => "DESCRIBE "@ + escape_seq(
            kind_name(n.kind) + " "@ + f + " "@ + n.id + " "@ + v,
        ) + "\n"@,
        ManagerStatusMessageView::Log(l) => "LOG "@ + l.kind + "\t"@ + escape_seq(l.id.id) + "\t"@
            + kind_name(l.id.kind) + "\t"@ + dec_spec(l.secs as nat) + "\t"@ + dec_spec(
            l.nsecs as nat,
        ) + "\t"@ + escape_seq(l.message) + "\n"@,
        ManagerStatusMessageView::Running(n) => "RUNNING "@ + escape_seq(n.id) + "\n"@,
        ManagerStatusMessageView::Skipped(n, r) => "SKIP "@ + escape_seq(n.id) + " "@ + escape_seq(
            r,
        ) + "\n"@,
        ManagerStatusMessageView::Finished(n, c, r) => "FINISH "@ + escape_seq(n.id) + " "@
            + dec_spec(c as nat) + " "@ + escape_seq(r) + "\n"@,
        ManagerStatusMessageView::Fail(n, c, r) => "FAIL "@ + escape_seq(n.id) + " "@ + escape_seq(
            r,
        ) + "\n"@,
        ManagerStatusMessageView::Pass(n, r) => "PASS "@ + escape_seq(n.id) + " "@ + escape_seq(r)
            + "\n"@,
        ManagerStatusMessageView::Start(n) => "START "@ + escape_seq(n.id) + "\n"@,
    }
}

/// Appends one escaped id per name, each preceded by a space.
fn append_ids(out: &mut String, ts: &Vec<UnitName>)
    ensures
        final(out)@ == old(out)@ + render_ids(name_views(ts@)),
{
    let mut i: usize = 0;
    while i < ts.len()
        invariant
            i <= ts@.len(),
            out@ == old(out)@ + render_ids(name_views(ts@.take(i as int))),
        decreases ts@.len() - i,
    {
        let e = escape(ts[i].id().as_str());
        out.append(" ");
        out.append(e.as_str());
        proof {
            reveal_strlit(" ");
            assert(" "@ =~= seq![' ']);
            assert(name_views(ts@.take(i + 1)) =~= name_views(ts@.take(i as int)).push(
                ts@[i as int]@,
            ));
            lemma_render_ids_snoc(name_views(ts@.take(i as int)), ts@[i as int]@);
            assert(out@ =~= old(out)@ + render_ids(name_views(ts@.take(i + 1))));
        }
        i = i + 1;
    }
    proof {
        assert(ts@.take(ts@.len() as int) =~= ts@);
    }
}

/// Renders one status message as its newline-terminated wire record.
pub fn render_status_message(msg: &ManagerStatusMessage) -> (r: String)
    ensures
        r@ == render_spec(msg@),
{
    let mut out = String::new();
    match msg {
        ManagerStatusMessage::Jig(j) => {
            match j {
                Some(n) => {
                    out.append("JIG ");
                    let e = escape(n.full_name().as_str());
                    out.append(e.as_str());
                    out.append("\n");
                },
                None => {
                    out.append("JIG\n");
                },
            }
        },
        ManagerStatusMessage::Hello(n) => {
            out.append("HELLO ");
            let e = escape(n.full_name().as_str());
            out.append(e.as_str());
            out.append("\n");
        },
        ManagerStatusMessage::Tests(s, ts) => {
            out.append("TESTS ");
            let e = escape(s.id().as_str());
            out.append(e.as_str());
            append_ids(&mut out, ts);
            out.append("\n");
        },
        ManagerStatusMessage::Scenario(s) => {
            match s {
                Some(n) => {
                    out.append("SCENARIO ");
                    let e = escape(n.id().as_str());
                    out.append(e.as_str());
                    out.append("\n");
                },
                None => {
                    out.append("SCENARIO\n");
                },
            }
        },
        ManagerStatusMessage::Scenarios(ss) => {
            out.append("SCENARIOS");
            append_ids(&mut out, ss);
            out.append("\n");
        },
        ManagerStatusMessage::Describe(n, f, v) => {
            out.append("DESCRIBE ");
            let mut inner = kind_name_string(n.kind());
            inner.append(" ");
            inner.append(f.as_str());
            inner.append(" ");
            inner.append(n.id().as_str());
            inner.append(" ");
            inner.append(v.as_str());
            let e = escape(inner.as_str());
            out.append(e.as_str());
            out.append("\n");
        },
        ManagerStatusMessage::Log(l) => {
            out.append("LOG ");
            out.append(l.kind.as_str());
            out.append("\t");
            let e = escape(l.id.id().as_str());
            out.append(e.as_str());
            out.append("\t");
            let k = kind_name_string(l.id.kind());
            out.append(k.as_str());
            out.append("\t");
            let s = u64_dec_string(l.secs);
            out.append(s.as_str());
            out.append("\t");
            let ns = u64_dec_string(l.nsecs);
            out.append(ns.as_str());
            out.append("\t");
            let m = escape(l.message.as_str());
            out.append(m.as_str());
            out.append("\n");
        },
        ManagerStatusMessage::Running(n) => {
            out.append("RUNNING ");
            let e = escape(n.id().as_str());
            out.append(e.as_str());
            out.append("\n");
        },
        ManagerStatusMessage::Skipped(n, r) => {
            out.append("SKIP ");
            let e = escape(n.id().as_str());
            out.append(e.as_str());
            out.append(" ");
            let er = escape(r.as_str());
            out.append(er.as_str());
            out.append("\n");
        },
        ManagerStatusMessage::Finished(n, c, r) => {
            out.append("FINISH ");
            let e = escape(n.id().as_str());
            out.append(e.as_str());
            out.append(" ");
            let d = u64_dec_string(*c);
            out.append(d.as_str());
            out.append(" ");
            let er = escape(r.as_str());
            out.append(er.as_str());
            out.append("\n");
        },
        ManagerStatusMessage::Fail(n, _c, r) => {
            out.append("FAIL ");
            let e = escape(n.id().as_str());
            out.append(e.as_str());
            out.append(" ");
            let er = escape(r.as_str());
            out.append(er.as_str());
            out.append("\n");
        },
        ManagerStatusMessage::Pass(n, r) => {
            out.append("PASS ");
            let e = escape(n.id().as_str());
            out.append(e.as_str());
            out.append(" ");
            let er = escape(r.as_str());
            out.append(er.as_str());
            out.append("\n");
        },
        ManagerStatusMessage::Start(n) => {
            out.append("START ");
            let e = escape(n.id().as_str());
            out.append(e.as_str());
            out.append("\n");
        },
    }
    out
}

/// A whitespace separator on an inbound line.
pub open spec fn is_ws(c: char) -> bool {
    c == ' ' || c == '\t' || c == '\r' || c == '\n'
}

/// Splits on whitespace, dropping empty tokens; `cur` is the token read so
/// far.
pub open spec fn ws_split_acc(s: Seq<char>, cur: Seq<char>) -> Seq<Seq<char>>
    decreases s.len(),
{
    if s.len() == 0 {
        if cur.len() == 0 {
            Seq::empty()
        } else {
            seq![cur]
        }
    } else if is_ws(s[0]) {
        if cur.len() == 0 {
            ws_split_acc(s.drop_first(), Seq::empty())
        } else {
            seq![cur] + ws_split_acc(s.drop_first(), Seq::empty())
        }
    } else {
        ws_split_acc(s.drop_first(), cur.push(s[0]))
    }
}

/// The whitespace-separated tokens of a line.
pub open spec fn ws_tokens(s: Seq<char>) -> Seq<Seq<char>> {
    ws_split_acc(s, Seq::empty())
}

/// Splits a character vector into its whitespace-separated tokens.
pub fn split_ws_chars(v: &Vec<char>) -> (r: Vec<Vec<char>>)
    ensures
        crate::unit::views_of(r@) == ws_tokens(v@),
{
    let mut done: Vec<Vec<char>> = Vec::new();
    let mut cur: Vec<char> = Vec::new();
    let mut i: usize = 0;
    proof {
        assert(v@.skip(0) =~= v@);
    }
    while i < v.len()
        invariant
            i <= v@.len(),
            ws_tokens(v@) == crate::unit::views_of(done@) + ws_split_acc(v@.skip(i as int), cur@),
        decreases v@.len() - i,
    {
        let c = v[i];
        proof {
            assert(v@.skip(i as int).drop_first() =~= v@.skip(i + 1 as int));
            assert(v@.skip(i as int)[0] == v@[i as int]);
        }
        if c == ' ' || c == '\t' || c == '\r' || c == '\n' {
            proof {
                if cur@.len() == 0 {
                    assert(cur@ =~= Seq::<char>::empty());
                }
            }
            if cur.len() > 0 {
                let ghost old_done = crate::unit::views_of(done@);
                let ghost cur_v = cur@;
                done.push(cur);
                cur = Vec::new();
                proof {
                    assert(crate::unit::views_of(done@) =~= old_done.push(cur_v));
                    assert(crate::unit::views_of(done@) + ws_split_acc(
                        v@.skip(i + 1 as int),
                        cur@,
                    ) =~= old_done + (seq![cur_v] + ws_split_acc(
                        v@.skip(i + 1 as int),
                        Seq::empty(),
                    )));
                }
            }
        } else {
            cur.push(c);
        }
        i = i + 1;
    }
    proof {
        assert(v@.skip(v@.len() as int) =~= Seq::<char>::empty());
    }
    if cur.len() > 0 {
        let ghost old_done = crate::unit::views_of(done@);
        let ghost cur_v = cur@;
        done.push(cur);
        proof {
            assert(crate::unit::views_of(done@) =~= old_done.push(cur_v));
            assert(crate::unit::views_of(done@) =~= ws_tokens(v@));
        }
    } else {
        proof {
            assert(crate::unit::views_of(done@) + Seq::<Seq<char>>::empty() =~= crate::unit::views_of(
                done@,
            ));
        }
    }
    done
}

/// A command received from an interface child, or raised about one.
pub enum ManagerControlMessageContents {
    /// Asks for the list of scenarios.
    Scenarios,
    /// Selects a scenario.
    Scenario(UnitName),
    /// Asks for the tests of a scenario, or of the selected one.
    Tests(Option<UnitName>),
    /// Asks for the selected jig.
    Jig,
    /// A log line from the child.
    Log(String),
    /// Starts a scenario, or the selected one.
    StartScenario(Option<UnitName>),
    /// Asks the daemon to shut down, with an optional reason.
    Shutdown(Option<String>),
    /// A malformed command, with the reason it was rejected.
    Error(String),
    /// A verb this protocol does not know.
    Unimplemented(String, String),
    /// A new child greets the manager so it can push initial state.
    InitialGreeting,
    /// The child's stdout closed: the child is gone.
    ChildExited,
    /// A line the child wrote on stderr.
    LogError(String),
}

/// The abstract value of a control message's contents.
pub enum ControlContentsView {
    Scenarios,
    Scenario(UnitNameView),
    Tests(Option<UnitNameView>),
    Jig,
    Log(Seq<char>),
    StartScenario(Option<UnitNameView>),
    Shutdown(Option<Seq<char>>),
    Error(Seq<char>),
    Unimplemented(Seq<char>, Seq<char>),
    InitialGreeting,
    ChildExited,
    LogError(Seq<char>),
}

impl View for ManagerControlMessageContents {
    type V = ControlContentsView;

    open spec fn view(&self) -> ControlContentsView {
        match self {
            ManagerControlMessageContents::Scenarios => ControlContentsView::Scenarios,
            ManagerControlMessageContents::Scenario(n) => ControlContentsView::Scenario(n@),
            ManagerControlMessageContents::Tests(n) => ControlContentsView::Tests(
                match n {
                    Some(x) => Some(x@),
                    None => None,
                },
            ),
            ManagerControlMessageContents::Jig => ControlContentsView::Jig,
            ManagerControlMessageContents::Log(m) => ControlContentsView::Log(m@),
            ManagerControlMessageContents::StartScenario(n) => ControlContentsView::StartScenario(
                match n {
                    Some(x) => Some(x@),
                    None => None,
                },
            ),
            ManagerControlMessageContents::Shutdown(m) => ControlContentsView::Shutdown(
                match m {
                    Some(x) => Some(x@),
                    None => None,
                },
            ),
            ManagerControlMessageContents::Error(m) => ControlContentsView::Error(m@),
            ManagerControlMessageContents::Unimplemented(v, a) => ControlContentsView::Unimplemented(
                v@,
                a@,
            ),
            ManagerControlMessageContents::InitialGreeting => ControlContentsView::InitialGreeting,
            ManagerControlMessageContents::ChildExited => ControlContentsView::ChildExited,
            ManagerControlMessageContents::LogError(m) => ControlContentsView::LogError(m@),
        }
    }
}

/// The abstract value of a control message.
pub struct ManagerControlMessageView {
    pub sender: UnitNameView,
    pub contents: ControlContentsView,
}

/// A control message: who sent it, and what it says.
pub struct ManagerControlMessage {
    sender: UnitName,
    contents: ManagerControlMessageContents,
}

impl View for ManagerControlMessage {
    type V = ManagerControlMessageView;

    closed spec fn view(&self) -> ManagerControlMessageView {
        ManagerControlMessageView { sender: self.sender@, contents: self.contents@ }
    }
}

impl ManagerControlMessage {
    pub fn new(sender: &UnitName, contents: ManagerControlMessageContents) -> (r:
        ManagerControlMessage)
        ensures
            r@ == (ManagerControlMessageView { sender: sender@, contents: contents@ }),
    {
        ManagerControlMessage { sender: sender.dup(), contents }
    }

    pub fn sender(&self) -> (r: &UnitName)
        ensures
            r@ == self@.sender,
    {
        &self.sender
    }

    pub fn contents(&self) -> (r: &ManagerControlMessageContents)
        ensures
            r@ == self@.contents,
    {
        &self.contents
    }
}

/// The views of a vector of strings.
pub open spec fn string_views(s: Seq<String>) -> Seq<Seq<char>> {
    s.map_values(|t: String| t@)
}

/// Words joined by single spaces.
pub open spec fn joined(ws: Seq<Seq<char>>) -> Seq<char>
    decreases ws.len(),
{
    if ws.len() == 0 {
        Seq::empty()
    } else if ws.len() == 1 {
        ws[0]
    } else {
        ws[0] + " "@ + joined(ws.drop_first())
    }
}

proof fn lemma_joined_snoc(ws: Seq<Seq<char>>, x: Seq<char>)
    ensures
        joined(ws.push(x)) == if ws.len() == 0 {
            x
        } else {
            joined(ws) + " "@ + x
        },
    decreases ws.len(),
{
    if ws.len() == 0 {
        assert(ws.push(x)[0] == x);
        assert(joined(ws.push(x)) == x);
    } else if ws.len() == 1 {
        assert(ws.push(x).drop_first() =~= seq![x]);
        assert(ws.push(x)[0] == ws[0]);
        assert(joined(seq![x]) == x);
        assert(joined(ws.push(x)) =~= joined(ws) + " "@ + x);
    } else {
        assert(ws.push(x).drop_first() =~= ws.drop_first().push(x));
        assert(ws.push(x)[0] == ws[0]);
        lemma_joined_snoc(ws.drop_first(), x);
        assert(joined(ws.push(x)) =~= joined(ws) + " "@ + x);
    }
}

/// Joins the words from position `from` on with single spaces.
fn join_words(words: &Vec<String>, from: usize) -> (r: String)
    requires
        from <= words@.len(),
    ensures
        r@ == joined(string_views(words@).skip(from as int)),
{
    let mut out = String::new();
    let mut i: usize = from;
    while i < words.len()
        invariant
            from <= i <= words@.len(),
            out@ == joined(string_views(words@).subrange(from as int, i as int)),
        decreases words@.len() - i,
    {
        let ghost seen = string_views(words@).subrange(from as int, i as int);
        if i > from {
            out.append(" ");
        }
        out.append(words[i].as_str());
        proof {
            assert(string_views(words@).subrange(from as int, i + 1) =~= seen.push(
                string_views(words@)[i as int],
            ));
            lemma_joined_snoc(seen, string_views(words@)[i as int]);
            assert(string_views(words@)[i as int] == words@[i as int]@);
            if i > from {
                assert(out@ =~= joined(string_views(words@).subrange(from as int, i + 1)));
            } else {
                assert(seen.len() == 0);
                assert(out@ =~= joined(string_views(words@).subrange(from as int, i + 1)));
            }
        }
        i = i + 1;
    }
    proof {
        assert(string_views(words@).subrange(from as int, words@.len() as int) =~= string_views(
            words@,
        ).skip(from as int));
    }
    out
}

/// The unescaped whitespace-separated words of an inbound line.
pub open spec fn line_words(line: Seq<char>) -> Seq<Seq<char>> {
    ws_tokens(line).map_values(|t: Seq<char>| unescape_seq(t, false))
}

/// What an inbound line means. A blank line means nothing; the first word,
/// case-folded, is the verb; an unknown verb is reported back, not dropped.
pub open spec fn parse_line_spec(line: Seq<char>) -> Option<ControlContentsView> {
    let ws = line_words(line);
    if ws.len() == 0 {
        None
    } else {
        let verb = lower_seq(ws[0]);
        let args = ws.skip(1);
        if verb == "scenarios"@ {
            Some(ControlContentsView::Scenarios)
        } else if verb == "scenario"@ {
            let w = if args.len() > 0 {
                args[0]
            } else {
                Seq::<char>::empty()
            };
            match from_str_spec(w, "scenario"@) {
                Ok(n) => Some(ControlContentsView::Scenario(n)),
                Err(m) => Some(
                    ControlContentsView::Error(
                        "Invalid scenario name: "@ + ("unrecognized unit kind "@ + m),
                    ),
                ),
            }
        } else if verb == "tests"@ {
            if args.len() == 0 {
                Some(ControlContentsView::Tests(None))
            } else {
                match from_str_spec(args[0], "scenario"@) {
                    Ok(n) => Some(ControlContentsView::Tests(Some(n))),
                    Err(m) => Some(
                        ControlContentsView::Error(
                            "Invalid test name specified: "@ + ("unrecognized unit kind "@ + m),
                        ),
                    ),
                }
            }
        } else if verb == "jig"@ {
            Some(ControlContentsView::Jig)
        } else if verb == "log"@ {
            Some(ControlContentsView::Log(joined(args)))
        } else if verb == "start"@ {
            if args.len() == 0 {
                Some(ControlContentsView::StartScenario(None))
            } else {
                match from_str_spec(args[0], "scenario"@) {
                    Ok(n) => Some(ControlContentsView::StartScenario(Some(n))),
                    Err(m) => Some(
                        ControlContentsView::Error(
                            "Invalid scenario name: "@ + ("unrecognized unit kind "@ + m),
                        ),
                    ),
                }
            }
        } else if verb == "shutdown"@ {
            if args.len() == 0 {
                Some(ControlContentsView::Shutdown(None))
            } else {
                Some(ControlContentsView::Shutdown(Some(joined(args))))
            }
        } else {
            Some(ControlContentsView::Unimplemented(verb, joined(args)))
        }
    }
}

/// Parses one line from an interface child's stdout.
pub fn parse_control_line(line: &str) -> (r: Option<ManagerControlMessageContents>)
    ensures
        match parse_line_spec(line@) {
            Some(cv) => r matches Some(c) && c@ == cv,
            None => r is None,
        },
{
    let raw = str_chars(line);
    let tokens = split_ws_chars(&raw);
    let mut words: Vec<String> = Vec::new();
    let mut i: usize = 0;
    while i < tokens.len()
        invariant
            i <= tokens@.len(),
            crate::unit::views_of(tokens@) == ws_tokens(line@),
            string_views(words@) == line_words(line@).take(i as int),
        decreases tokens@.len() - i,
    {
        let u = unescape_chars(&tokens[i]);
        let w = chars_string(&u);
        let ghost seen = string_views(words@);
        words.push(w);
        proof {
            assert(string_views(words@) =~= seen.push(w@));
            assert(line_words(line@)[i as int] == unescape_seq(
                crate::unit::views_of(tokens@)[i as int],
                false,
            ));
            assert(string_views(words@) =~= line_words(line@).take(i + 1));
        }
        i = i + 1;
    }
    proof {
        assert(line_words(line@).take(line_words(line@).len() as int) =~= line_words(line@));
        assert(string_views(words@).len() == words@.len());
    }
    if words.len() == 0 {
        return None;
    }
    let verb = lower_string(words[0].as_str());
    let ghost args = line_words(line@).skip(1);
    proof {
        assert(string_views(words@)[0] == words@[0]@);
        assert(verb@ == lower_seq(line_words(line@)[0]));
        assert(string_views(words@).skip(1) =~= args);
    }
    if str_eq(verb.as_str(), "scenarios") {
        Some(ManagerControlMessageContents::Scenarios)
    } else if str_eq(verb.as_str(), "scenario") {
        let w: &str = if words.len() > 1 {
            words[1].as_str()
        } else {
            ""
        };
        proof {
            reveal_strlit("");
            if words@.len() > 1 {
                assert(string_views(words@)[1] == words@[1]@);
                assert(args[0] == w@);
            } else {
                assert(w@ =~= Seq::<char>::empty());
            }
        }
        match UnitName::from_str(w, "scenario") {
            Ok(n) => Some(ManagerControlMessageContents::Scenario(n)),
            Err(e) => Some(
                ManagerControlMessageContents::Error(
                    String::from_str("Invalid scenario name: ").concat(e.message().as_str()),
                ),
            ),
        }
    } else if str_eq(verb.as_str(), "tests") {
        if words.len() == 1 {
            Some(ManagerControlMessageContents::Tests(None))
        } else {
            proof {
                assert(string_views(words@)[1] == words@[1]@);
                assert(args[0] == words@[1]@);
            }
            match UnitName::from_str(words[1].as_str(), "scenario") {
                Ok(n) => Some(ManagerControlMessageContents::Tests(Some(n))),
                Err(e) => Some(
                    ManagerControlMessageContents::Error(
                        String::from_str("Invalid test name specified: ").concat(
                            e.message().as_str(),
                        ),
                    ),
                ),
            }
        }
    } else if str_eq(verb.as_str(), "jig") {
        Some(ManagerControlMessageContents::Jig)
    } else if str_eq(verb.as_str(), "log") {
        let m = join_words(&words, 1);
        Some(ManagerControlMessageContents::Log(m))
    } else if str_eq(verb.as_str(), "start") {
        if words.len() == 1 {
            Some(ManagerControlMessageContents::StartScenario(None))
        } else {
            proof {
                assert(string_views(words@)[1] == words@[1]@);
                assert(args[0] == words@[1]@);
            }
            match UnitName::from_str(words[1].as_str(), "scenario") {
                Ok(n) => Some(ManagerControlMessageContents::StartScenario(Some(n))),
                Err(e) => Some(
                    ManagerControlMessageContents::Error(
                        String::from_str("Invalid scenario name: ").concat(e.message().as_str()),
                    ),
                ),
            }
        }
    } else if str_eq(verb.as_str(), "shutdown") {
        if words.len() == 1 {
            Some(ManagerControlMessageContents::Shutdown(None))
        } else {
            let m = join_words(&words, 1);
            Some(ManagerControlMessageContents::Shutdown(Some(m)))
        }
    } else {
        let m = join_words(&words, 1);
        Some(ManagerControlMessageContents::Unimplemented(verb, m))
    }
}

/// A `TESTS` record for a scenario with two tests, none of whose ids hold
/// characters the protocol escapes, is exactly the ids joined by single
/// spaces after the verb, newline-terminated.
pub proof fn lemma_tests_record_framing(s: UnitNameView, t1: UnitNameView, t2: UnitNameView)
    requires
        forall|i: int| 0 <= i < s.id.len() ==> !crate::codec::is_special_char(s.id[i]),
        forall|i: int| 0 <= i < t1.id.len() ==> !crate::codec::is_special_char(t1.id[i]),
        forall|i: int| 0 <= i < t2.id.len() ==> !crate::codec::is_special_char(t2.id[i]),
    ensures
        render_spec(ManagerStatusMessageView::Tests(s, seq![t1, t2])) == "TESTS "@ + s.id + " "@
            + t1.id + " "@ + t2.id + "
"@,
{
    crate::codec::lemma_escape_plain(s.id);
    crate::codec::lemma_escape_plain(t1.id);
    crate::codec::lemma_escape_plain(t2.id);
    reveal_strlit(" ");
    assert(" "@ =~= seq![' ']);
    let ts = seq![t1, t2];
    assert(ts.drop_first() =~= seq![t2]);
    assert(seq![t2].drop_first() =~= Seq::<UnitNameView>::empty());
    assert(render_ids(Seq::<UnitNameView>::empty()) =~= Seq::<char>::empty());
    assert(render_ids(seq![t2]) =~= seq![' '] + t2.id);
    assert(render_ids(ts) =~= seq![' '] + t1.id + (seq![' '] + t2.id));
    assert(render_spec(ManagerStatusMessageView::Tests(s, ts)) =~= "TESTS "@ + s.id + " "@ + t1.id
        + " "@ + t2.id + "
"@);
}

} // verus!
