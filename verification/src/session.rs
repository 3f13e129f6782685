//! The assistant's command line and the reading of its stream of JSON events.
use vstd::prelude::*;
use crate::json::{as_array, get, get_str, json_array, json_get, json_str, parse_json, parsed_json, JsonValue};
use crate::text::{owned, push_str, str_equal};

verus! {

/// The arguments of a run: print mode with `message`, streamed JSON output, no colours,
/// and `--resume <id>` when a session is continued.
pub open spec fn claude_args_spec(message: Seq<char>, resume: Option<Seq<char>>) -> Seq<Seq<char>> {
    let base = seq!["-p"@, message, "--output-format"@, "stream-json"@, "--no-color"@];
    match resume {
        Some(id) => base + seq!["--resume"@, id],
        None => base,
    }
}

/// The characters of each string in a list.
pub open spec fn views(v: Seq<String>) -> Seq<Seq<char>> {
    v.map_values(|s: String| s@)
}

/// The command-line arguments for running the assistant on `message`.
pub fn claude_args(message: &str, resume: Option<&str>) -> (args: Vec<String>)
    ensures
        views(args@) == claude_args_spec(message@, match resume {
            Some(id) => Some(id@),
            None => None,
        }),
{
    let mut args: Vec<String> = Vec::new();
    args.push(owned("-p"));
    args.push(owned(message));
    args.push(owned("--output-format"));
    args.push(owned("stream-json"));
    args.push(owned("--no-color"));
    match resume {
        Some(id) => {
            args.push(owned("--resume"));
            args.push(owned(id));
        },
        None => {},
    }
    assert(views(args@) =~= claude_args_spec(message@, match resume {
        Some(id) => Some(id@),
        None => None,
    }));
    args
}

/// The text of one content block: its `text` when its `type` is `"text"`.
pub open spec fn block_text(b: JsonValue) -> Seq<char> {
    if json_str(json_get(b, "type"@)) == Some("text"@) {
        match json_str(json_get(b, "text"@)) {
            Some(t) => t,
            None => Seq::empty(),
        }
    } else {
        Seq::empty()
    }
}

/// The text of a list of content blocks, in order.
pub open spec fn blocks_text(bs: Seq<JsonValue>) -> Seq<char>
    decreases bs.len(),
{
    if bs.len() == 0 {
        Seq::empty()
    } else {
        blocks_text(bs.drop_last()) + block_text(bs.last())
    }
}

/// The kind of an event: its `type` when that is a string, else the empty text.
pub open spec fn event_kind(v: JsonValue) -> Seq<char> {
    match json_str(json_get(v, "type"@)) {
        Some(k) => k,
        None => Seq::empty(),
    }
}

/// The response text after one event: an `assistant` event appends the text of its
/// message's content blocks; a `result` event supplies its `result` when no text has
/// been collected yet.
pub open spec fn text_after(text: Seq<char>, v: JsonValue) -> Seq<char> {
    let kind = event_kind(v);
    if kind == "assistant"@ {
        match json_array(json_get(json_get(v, "message"@), "content"@)) {
            Some(bs) => text + blocks_text(bs),
            None => text,
        }
    } else if kind == "result"@ {
        match json_str(json_get(v, "result"@)) {
            Some(r) => if text.len() == 0 {
                r
            } else {
                text
            },
            None => text,
        }
    } else {
        text
    }
}

/// The session id after one event: the event's `session_id` when it carries one.
pub open spec fn session_after(id: Seq<char>, v: JsonValue) -> Seq<char> {
    match json_str(json_get(v, "session_id"@)) {
        Some(s) => s,
        None => id,
    }
}

/// What has been read so far of the assistant's event stream.
pub struct StreamState {
    pub text: String,
    pub session_id: String,
}

/// The error reported when the assistant program gave no session id.
pub open spec fn no_session_error(program: Seq<char>) -> Seq<char> {
    "No session_id returned from "@ + program + " — is "@ + program
        + " CLI installed and authenticated?"@
}

/// The outcome of a run of `program`: the response (or a placeholder when there is
/// none) and the session id, or an error when no session id came back.
pub open spec fn run_outcome(text: Seq<char>, id: Seq<char>, program: Seq<char>) -> Result<
    (Seq<char>, Seq<char>),
    Seq<char>,
> {
    if id.len() == 0 {
        Err(no_session_error(program))
    } else if text.len() == 0 {
        Ok(("(no response)"@, id))
    } else {
        Ok((text, id))
    }
}

/// One line of the assistant's output: its text with the JSON value it parses to, if
/// any, or a failure to read it.
pub enum StreamLine {
    Read(String, Option<JsonValue>),
    Failed,
}

/// The text and session id after reading `lines` from the state `(text, id)`: blank
/// lines and lines that are not JSON are skipped, each JSON event is taken in, and a
/// failure to read ends the stream.
pub open spec fn stream_fold(lines: Seq<StreamLine>, text: Seq<char>, id: Seq<char>) -> (
    Seq<char>,
    Seq<char>,
)
    decreases lines.len(),
{
    if lines.len() == 0 {
        (text, id)
    } else {
        match lines[0] {
            StreamLine::Failed => (text, id),
            StreamLine::Read(raw, None) => stream_fold(lines.drop_first(), text, id),
            StreamLine::Read(raw, Some(v)) => if raw@.len() == 0 {
                stream_fold(lines.drop_first(), text, id)
            } else {
                stream_fold(lines.drop_first(), text_after(text, v), session_after(id, v))
            },
        }
    }
}

/// The outcome of a run of `program` whose output was `lines`.
pub open spec fn stream_outcome(lines: Seq<StreamLine>, program: Seq<char>) -> Result<
    (Seq<char>, Seq<char>),
    Seq<char>,
> {
    let (text, id) = stream_fold(lines, Seq::empty(), Seq::empty());
    run_outcome(text, id, program)
}

/// The text of a list of blocks is the text of its first part followed by the text of
/// the rest: no block's text is dropped or moved.
pub proof fn lemma_blocks_text_concat(a: Seq<JsonValue>, b: Seq<JsonValue>)
    ensures
        blocks_text(a + b) == blocks_text(a) + blocks_text(b),
    decreases b.len(),
{
    if b.len() == 0 {
        assert(a + b =~= a);
        assert(blocks_text(a) + blocks_text(b) =~= blocks_text(a));
    } else {
        lemma_blocks_text_concat(a, b.drop_last());
        assert((a + b).drop_last() =~= a + b.drop_last());
        assert((a + b).last() == b.last());
        assert(blocks_text(a + b) =~= blocks_text(a) + blocks_text(b));
    }
}

/// An assistant event appends the text of its content blocks to the text collected so
/// far, which stays in front.
pub proof fn lemma_assistant_event_appends(text: Seq<char>, v: JsonValue, bs: Seq<JsonValue>)
    requires
        json_str(json_get(v, "type"@)) == Some("assistant"@),
        json_array(json_get(json_get(v, "message"@), "content"@)) == Some(bs),
    ensures
        text_after(text, v).len() == text.len() + blocks_text(bs).len(),
        text_after(text, v).take(text.len() as int) == text,
        text_after(text, v).skip(text.len() as int) == blocks_text(bs),
{
    assert((text + blocks_text(bs)).take(text.len() as int) =~= text);
    assert((text + blocks_text(bs)).skip(text.len() as int) =~= blocks_text(bs));
}

/// Text once collected is never lost: after any event, the text collected before it is
/// still the beginning of the response.
pub proof fn lemma_event_keeps_text(text: Seq<char>, v: JsonValue)
    requires
        text.len() > 0,
    ensures
        text.len() <= text_after(text, v).len(),
        text_after(text, v).take(text.len() as int) == text,
{
    let kind = event_kind(v);
    if kind == "assistant"@ {
        match json_array(json_get(json_get(v, "message"@), "content"@)) {
            Some(bs) => {
                assert((text + blocks_text(bs)).take(text.len() as int) =~= text);
            },
            None => {
                assert(text.take(text.len() as int) =~= text);
            },
        }
    } else {
        assert(text.take(text.len() as int) =~= text);
    }
}

/// Over a whole stream, the text collected from its first events is the beginning of
/// the response: later events only add after it.
pub proof fn lemma_stream_keeps_text(lines: Seq<StreamLine>, text: Seq<char>, id: Seq<char>)
    requires
        text.len() > 0,
    ensures
        text.len() <= stream_fold(lines, text, id).0.len(),
        stream_fold(lines, text, id).0.take(text.len() as int) == text,
    decreases lines.len(),
{
    if lines.len() == 0 {
        assert(text.take(text.len() as int) =~= text);
    } else {
        match lines[0] {
            StreamLine::Failed => {
                assert(text.take(text.len() as int) =~= text);
            },
            StreamLine::Read(raw, None) => {
                lemma_stream_keeps_text(lines.drop_first(), text, id);
            },
            StreamLine::Read(raw, Some(v)) => {
                if raw@.len() == 0 {
                    lemma_stream_keeps_text(lines.drop_first(), text, id);
                } else {
                    let t2 = text_after(text, v);
                    lemma_event_keeps_text(text, v);
                    lemma_stream_keeps_text(lines.drop_first(), t2, session_after(id, v));
                    let r = stream_fold(lines.drop_first(), t2, session_after(id, v)).0;
                    assert(r.take(text.len() as int) =~= r.take(t2.len() as int).take(text.len() as int));
                }
            },
        }
    }
}

/// A line that a run skips: blank, or not JSON.
pub open spec fn skipped(line: StreamLine) -> bool {
    match line {
        StreamLine::Read(raw, None) => true,
        StreamLine::Read(raw, Some(_)) => raw@.len() == 0,
        StreamLine::Failed => false,
    }
}

/// Blank lines and lines that are not JSON, wherever they stand, change nothing that a
/// run reads from its output.
pub proof fn lemma_skipped_line(lines: Seq<StreamLine>, i: int, line: StreamLine, text: Seq<char>, id: Seq<char>)
    requires
        0 <= i <= lines.len(),
        skipped(line),
    ensures
        stream_fold(lines.insert(i, line), text, id) == stream_fold(lines, text, id),
    decreases i,
{
    let with = lines.insert(i, line);
    if i == 0 {
        assert(with[0] == line);
        assert(with.drop_first() =~= lines);
    } else {
        assert(with[0] == lines[0]);
        assert(with.drop_first() =~= lines.drop_first().insert(i - 1, line));
        match lines[0] {
            StreamLine::Failed => {},
            StreamLine::Read(raw, None) => {
                lemma_skipped_line(lines.drop_first(), i - 1, line, text, id);
            },
            StreamLine::Read(raw, Some(v)) => {
                lemma_skipped_line(lines.drop_first(), i - 1, line, text, id);
                lemma_skipped_line(
                    lines.drop_first(),
                    i - 1,
                    line,
                    text_after(text, v),
                    session_after(id, v),
                );
            },
        }
    }
}

/// A run's outcome is the same with a skipped line inserted anywhere in its output.
pub proof fn lemma_skipped_line_outcome(lines: Seq<StreamLine>, i: int, line: StreamLine, program: Seq<char>)
    requires
        0 <= i <= lines.len(),
        skipped(line),
    ensures
        stream_outcome(lines.insert(i, line), program) == stream_outcome(lines, program),
{
    lemma_skipped_line(lines, i, line, Seq::empty(), Seq::empty());
}

/// Reads the whole output of a run of `program`: the response and the session id, or the
/// error when no session id came.
pub fn read_stream(lines: &Vec<StreamLine>, program: &str) -> (r: Result<(String, String), String>)
    ensures
        match (r, stream_outcome(lines@, program@)) {
            (Ok((t, s)), Ok((ts, ss))) => t@ == ts && s@ == ss,
            (Err(e), Err(es)) => e@ == es,
            _ => false,
        },
{
    let mut state = StreamState::new();
    let mut i: usize = 0;
    assert(lines@.skip(0) =~= lines@);
    while i < lines.len()
        invariant
            i <= lines@.len(),
            i == lines@.len() ==> lines@.skip(i as int) =~= Seq::<StreamLine>::empty(),
            stream_fold(lines@, Seq::empty(), Seq::empty()) == stream_fold(
                lines@.skip(i as int),
                state.text@,
                state.session_id@,
            ),
        ensures
            stream_fold(lines@, Seq::empty(), Seq::empty()) == (state.text@, state.session_id@),
        decreases lines@.len() - i,
    {
        assert(lines@.skip(i as int)[0] == lines@[i as int]);
        assert(lines@.skip(i as int).len() > 0);
        assert(lines@.skip(i as int).drop_first() =~= lines@.skip(i + 1));
        match &lines[i] {
            StreamLine::Failed => {
                assert(lines@.skip(i as int).len() > 0);
                break;
            },
            StreamLine::Read(raw, parsed) => {
                match parsed {
                    Some(v) => {
                        if !raw.as_str().is_empty() {
                            state.absorb(v);
                        }
                    },
                    None => {},
                }
            },
        }
        i = i + 1;
    }
    state.finish(program)
}

/// The lines of the assistant's output as read, `None` standing for a failed read,
/// each line with the JSON document it parses to, if any.
pub open spec fn lines_of(raw: Seq<Option<String>>) -> Seq<StreamLine> {
    raw.map_values(|o: Option<String>| match o {
        Some(t) => StreamLine::Read(t, match parsed_json(t@) {
            Ok(v) => Some(v),
            Err(_) => None,
        }),
        None => StreamLine::Failed,
    })
}

/// Reads the whole raw output of a run of `program`, each line parsed as JSON: the
/// response and the session id, or the error when no session id came.
pub fn read_raw_output(raw: &Vec<Option<String>>, program: &str) -> (r: Result<(String, String), String>)
    ensures
        match (r, stream_outcome(lines_of(raw@), program@)) {
            (Ok((t, s)), Ok((ts, ss))) => t@ == ts && s@ == ss,
            (Err(e), Err(es)) => e@ == es,
            _ => false,
        },
{
    let mut lines: Vec<StreamLine> = Vec::new();
    let mut i: usize = 0;
    while i < raw.len()
        invariant
            i <= raw@.len(),
            lines@ == lines_of(raw@).take(i as int),
        decreases raw@.len() - i,
    {
        let line = match &raw[i] {
            Some(t) => {
                let parsed = match parse_json(t.as_str()) {
                    Ok(v) => Some(v),
                    Err(_) => None,
                };
                StreamLine::Read(t.clone(), parsed)
            },
            None => StreamLine::Failed,
        };
        lines.push(line);
        i = i + 1;
        assert(lines@ =~= lines_of(raw@).take(i as int));
    }
    assert(lines_of(raw@).take(i as int) =~= lines_of(raw@));
    read_stream(&lines, program)
}

impl StreamState {
    /// The state before any event: no text, no session id.
    pub fn new() -> (s: StreamState)
        ensures
            s.text@ == Seq::<char>::empty(),
            s.session_id@ == Seq::<char>::empty(),
    {
        StreamState { text: String::new(), session_id: String::new() }
    }

    /// Takes in one event of the stream.
    pub fn absorb(&mut self, v: &JsonValue)
        ensures
            final(self).text@ == text_after(old(self).text@, *v),
            final(self).session_id@ == session_after(old(self).session_id@, *v),
    {
        match get_str(v, "session_id") {
            Some(sid) => {
                self.session_id = owned(sid);
            },
            None => {},
        }
        let kind: &str = match get_str(v, "type") {
            Some(k) => k,
            None => "",
        };
        proof {
            reveal_strlit("");
        }
        if str_equal(kind, "assistant") {
            let content = match get(v, "message") {
                Some(m) => match get(m, "content") {
                    Some(c) => as_array(c),
                    None => None,
                },
                None => None,
            };
            match content {
                Some(blocks) => {
                    self.append_blocks(blocks);
                },
                None => {},
            }
        } else if str_equal(kind, "result") {
            match get_str(v, "result") {
                Some(r) => {
                    if self.text.as_str().is_empty() {
                        self.text = owned(r);
                    }
                },
                None => {},
            }
        }
        assert(kind@ == event_kind(*v));
    }

    /// Appends the text of content blocks.
    fn append_blocks(&mut self, blocks: &Vec<JsonValue>)
        ensures
            final(self).text@ == old(self).text@ + blocks_text(blocks@),
            final(self).session_id == old(self).session_id,
    {
        let mut i: usize = 0;
        assert(blocks@.take(0) =~= Seq::<JsonValue>::empty());
        assert(old(self).text@ + blocks_text(Seq::<JsonValue>::empty()) =~= old(self).text@);
        while i < blocks.len()
            invariant
                i <= blocks@.len(),
                self.text@ == old(self).text@ + blocks_text(blocks@.take(i as int)),
                self.session_id == old(self).session_id,
            decreases blocks@.len() - i,
        {
            let b = &blocks[i];
            let is_text = match get_str(b, "type") {
                Some(t) => str_equal(t, "text"),
                None => false,
            };
            if is_text {
                match get_str(b, "text") {
                    Some(t) => {
                        push_str(&mut self.text, t);
                    },
                    None => {},
                }
            }
            assert(blocks@.take(i + 1).drop_last() =~= blocks@.take(i as int));
            i = i + 1;
            assert(self.text@ =~= old(self).text@ + blocks_text(blocks@.take(i as int)));
        }
        assert(blocks@.take(i as int) =~= blocks@);
    }

    /// The outcome of the run of `program` once the stream has ended.
    pub fn finish(self, program: &str) -> (r: Result<(String, String), String>)
        ensures
            match (r, run_outcome(self.text@, self.session_id@, program@)) {
                (Ok((t, s)), Ok((ts, ss))) => t@ == ts && s@ == ss,
                (Err(e), Err(es)) => e@ == es,
                _ => false,
            },
    {
        if self.session_id.as_str().is_empty() {
            let mut e = String::new();
            push_str(&mut e, "No session_id returned from ");
            push_str(&mut e, program);
            push_str(&mut e, " — is ");
            push_str(&mut e, program);
            push_str(&mut e, " CLI installed and authenticated?");
            assert(e@ =~= no_session_error(program@));
            return Err(e);
        }
        if self.text.as_str().is_empty() {
            Ok((owned("(no response)"), self.session_id))
        } else {
            Ok((self.text, self.session_id))
        }
    }
}

} // verus!
