//! Texts that the bot sends back to a topic.
use vstd::prelude::*;
use vstd::string::StringExecFns;
use crate::numeric::{decimal, lemma_decimal_len_u64, push_decimal, push_signed_decimal, signed_decimal};
use crate::store::TopicSession;
use crate::text::{
    byte_prefix, chars_of, is_boundary, lemma_trim_len, prefix_chars_within, push_char,
    push_chars, push_str, slice_chars, trim, trim_chars, utf8_len,
};

verus! {

/// The number of characters at which a response is cut.
pub const RESPONSE_LIMIT: usize = 4000;

/// The message for a response text: the trimmed text, or, when it has more than
/// `RESPONSE_LIMIT` characters, its first `RESPONSE_LIMIT` characters with a note giving
/// the total number of characters.
pub open spec fn response_message(text: Seq<char>) -> Seq<char> {
    let t = trim(text);
    if t.len() > RESPONSE_LIMIT {
        t.take(RESPONSE_LIMIT as int) + seq!['…'] + "\n\n_(truncated, "@ + decimal(t.len())
            + " chars total)_"@
    } else {
        t
    }
}

/// Formats an assistant's response for a chat message.
pub fn format_response(text: &str) -> (r: String)
    ensures
        r@ == response_message(text@),
{
    let cs = chars_of(text);
    let t = trim_chars(&cs);
    let total = t.len();
    let mut r = String::new();
    if total > RESPONSE_LIMIT {
        let head = slice_chars(&t, 0, RESPONSE_LIMIT);
        assert(head@ =~= t@.take(RESPONSE_LIMIT as int));
        push_chars(&mut r, head.as_slice());
        push_char(&mut r, '…');
        push_str(&mut r, "\n\n_(truncated, ");
        push_decimal(&mut r, total as u64);
        push_str(&mut r, " chars total)_");
    } else {
        push_chars(&mut r, t.as_slice());
    }
    r
}

/// A response message begins with the beginning of the trimmed text: all of it when it
/// has at most `RESPONSE_LIMIT` characters, else its first `RESPONSE_LIMIT` characters,
/// in order, followed by a note.
pub proof fn lemma_response_keeps_the_start(text: Seq<char>)
    ensures
        trim(text).len() <= RESPONSE_LIMIT ==> response_message(text) == trim(text),
        trim(text).len() > RESPONSE_LIMIT ==> {
            &&& response_message(text).len() > RESPONSE_LIMIT
            &&& response_message(text).take(RESPONSE_LIMIT as int) == trim(text).take(RESPONSE_LIMIT as int)
            &&& response_message(text)[RESPONSE_LIMIT as int] == '…'
        },
{
    let t = trim(text);
    if t.len() > RESPONSE_LIMIT {
        let m = response_message(text);
        let head = t.take(RESPONSE_LIMIT as int);
        assert(m =~= head + (seq!['…'] + "\n\n_(truncated, "@ + decimal(t.len()) + " chars total)_"@));
        assert(m.take(RESPONSE_LIMIT as int) =~= head);
    }
}

/// The largest message, in characters, that the chat service accepts.
pub const MESSAGE_LIMIT: usize = 4096;

/// A formatted response always fits in one chat message (for any text whose characters
/// can be counted in a `usize`, as those of every string can).
pub proof fn lemma_response_within_message_limit(text: Seq<char>)
    requires
        text.len() <= usize::MAX,
    ensures
        response_message(text).len() <= MESSAGE_LIMIT,
{
    let t = trim(text);
    lemma_trim_len(text);
    if t.len() > RESPONSE_LIMIT {
        reveal_strlit("\n\n_(truncated, ");
        reveal_strlit(" chars total)_");
        lemma_decimal_len_u64(t.len() as u64);
    }
}

/// The message that reports an error.
pub open spec fn error_message(err: Seq<char>) -> Seq<char> {
    "❌ Error: "@ + err
}

/// Formats an error for a chat message.
pub fn format_error(err: &str) -> (r: String)
    ensures
        r@ == error_message(err@),
{
    let mut r = String::new();
    push_str(&mut r, "❌ Error: ");
    push_str(&mut r, err);
    assert(r@ =~= error_message(err@));
    r
}

/// The number of bytes of a session id that the status list shows.
pub const SHORT_ID_BYTES: usize = 8;

/// The shortened session id shown in the status list: its first `SHORT_ID_BYTES` bytes
/// when it has that many, else the whole id.
pub open spec fn short_id(id: Seq<char>) -> Seq<char> {
    if utf8_len(id) >= SHORT_ID_BYTES {
        byte_prefix(id, SHORT_ID_BYTES as nat)
    } else {
        id
    }
}

/// Shortening a session id cuts it on a character boundary (otherwise slicing panics).
pub open spec fn short_id_fits(id: Seq<char>) -> bool {
    utf8_len(id) >= SHORT_ID_BYTES ==> is_boundary(id, SHORT_ID_BYTES as nat)
}

/// Whether a session id can be shortened (see `short_id_fits`).
pub fn session_id_can_be_shortened(id: &str) -> (b: bool)
    ensures
        b == short_id_fits(id@),
{
    let cs = chars_of(id);
    let (k, bytes) = prefix_chars_within(&cs, SHORT_ID_BYTES);
    proof {
        if k == cs@.len() {
            assert(cs@.take(k as int) =~= cs@);
        }
    }
    k == cs.len() || bytes == SHORT_ID_BYTES
}

/// The line that describes one session in the status list.
pub open spec fn session_line(s: TopicSession) -> Seq<char> {
    "• topic "@ + signed_decimal(s.thread_id as int) + " in chat "@ + signed_decimal(
        s.chat_id as int,
    ) + " → session "@ + short_id(s.session_id@) + "…"@
}

/// The heading followed by one line per session, each on a line of its own.
pub open spec fn status_lines(sessions: Seq<TopicSession>) -> Seq<char>
    decreases sessions.len(),
{
    if sessions.len() == 0 {
        "Active sessions:"@
    } else {
        status_lines(sessions.drop_last()) + "\n"@ + session_line(sessions.last())
    }
}

/// The status message for the listed sessions.
pub open spec fn status_message(sessions: Seq<TopicSession>) -> Seq<char> {
    if sessions.len() == 0 {
        "No active sessions."@
    } else {
        status_lines(sessions)
    }
}

/// Appends the line that describes `s`.
fn push_session_line(r: &mut String, s: &TopicSession)
    requires
        short_id_fits(s.session_id@),
    ensures
        final(r)@ == old(r)@ + session_line(*s),
{
    push_str(r, "• topic ");
    push_signed_decimal(r, s.thread_id as i64);
    push_str(r, " in chat ");
    push_signed_decimal(r, s.chat_id);
    push_str(r, " → session ");
    let id = chars_of(s.session_id.as_str());
    let (k, _) = prefix_chars_within(&id, SHORT_ID_BYTES);
    let head = slice_chars(&id, 0, k);
    assert(head@ =~= id@.take(k as int));
    assert(head@ == short_id(s.session_id@)) by {
        if utf8_len(id@) < SHORT_ID_BYTES {
            assert(byte_prefix(id@, SHORT_ID_BYTES as nat) == id@);
        }
    }
    push_chars(r, head.as_slice());
    push_str(r, "…");
    assert(r@ =~= old(r)@ + session_line(*s));
}

/// Formats the list of active sessions.
pub fn format_status(sessions: &[TopicSession]) -> (r: String)
    requires
        forall|i: int| 0 <= i < sessions@.len() ==> short_id_fits(#[trigger] sessions@[i].session_id@),
    ensures
        r@ == status_message(sessions@),
{
    if sessions.len() == 0 {
        return String::from_str("No active sessions.");
    }
    let mut r = String::new();
    push_str(&mut r, "Active sessions:");
    let mut i: usize = 0;
    assert(sessions@.take(0) =~= Seq::<TopicSession>::empty());
    while i < sessions.len()
        invariant
            i <= sessions@.len(),
            forall|j: int| 0 <= j < sessions@.len() ==> short_id_fits(#[trigger] sessions@[j].session_id@),
            r@ == status_lines(sessions@.take(i as int)),
        decreases sessions@.len() - i,
    {
        push_str(&mut r, "\n");
        push_session_line(&mut r, &sessions[i]);
        assert(sessions@.take(i + 1).drop_last() =~= sessions@.take(i as int));
        i = i + 1;
        assert(r@ =~= status_lines(sessions@.take(i as int)));
    }
    assert(sessions@.take(i as int) =~= sessions@);
    r
}

} // verus!
