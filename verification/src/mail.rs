//! Reading mail through the Microsoft Graph API: the requests, the answers and the
//! messages they hold.
use vstd::prelude::*;
use vstd::utf8::encode_utf8;
use crate::json::{as_array, get, get_str, json_array, json_get, json_str, parse_json, parsed_json, JsonValue};
use crate::numeric::{decimal, push_decimal};
use crate::text::{chars_of, owned, push_chars, push_str, slice_chars};

verus! {

/// One message of a mailbox.
pub struct MailMessage {
    pub id: String,
    pub subject: String,
    pub from: String,
    pub date: String,
    pub preview: Option<String>,
}

/// The number of characters of a subject that a message summary shows.
pub const SUBJECT_SHOWN: usize = 60;

/// A summary of a message on four lines: its id, the first `SUBJECT_SHOWN` characters of
/// its subject, its sender and its date.
pub open spec fn message_summary(m: MailMessage) -> Seq<char> {
    let subject = if m.subject@.len() <= SUBJECT_SHOWN {
        m.subject@
    } else {
        m.subject@.take(SUBJECT_SHOWN as int)
    };
    "["@ + m.id@ + "]\n  Subject: "@ + subject + "\n  From: "@ + m.from@ + "\n  Date: "@ + m.date@
}

/// A summary begins with the id and then the beginning of the subject: its first
/// `SUBJECT_SHOWN` characters, in order (all of it when it is shorter).
pub proof fn lemma_summary_shows_subject_start(m: MailMessage)
    ensures
        ({
            let n = if m.subject@.len() <= SUBJECT_SHOWN {
                m.subject@.len() as int
            } else {
                SUBJECT_SHOWN as int
            };
            let start = "["@ + m.id@ + "]\n  Subject: "@ + m.subject@.take(n);
            message_summary(m).take(start.len() as int) == start
        }),
{
    let n = if m.subject@.len() <= SUBJECT_SHOWN {
        m.subject@.len() as int
    } else {
        SUBJECT_SHOWN as int
    };
    let start = "["@ + m.id@ + "]\n  Subject: "@ + m.subject@.take(n);
    let rest = "\n  From: "@ + m.from@ + "\n  Date: "@ + m.date@;
    if m.subject@.len() <= SUBJECT_SHOWN {
        assert(m.subject@.take(n) =~= m.subject@);
    }
    assert(message_summary(m) =~= start + rest);
    assert((start + rest).take(start.len() as int) =~= start);
}

impl MailMessage {
    /// The summary of the message (see `message_summary`).
    pub fn to_string(&self) -> (r: String)
        ensures
            r@ == message_summary(*self),
    {
        let mut r = String::new();
        push_str(&mut r, "[");
        push_str(&mut r, self.id.as_str());
        push_str(&mut r, "]\n  Subject: ");
        let subject = chars_of(self.subject.as_str());
        let shown = if subject.len() <= SUBJECT_SHOWN {
            subject.len()
        } else {
            SUBJECT_SHOWN
        };
        let head = slice_chars(&subject, 0, shown);
        push_chars(&mut r, head.as_slice());
        push_str(&mut r, "\n  From: ");
        push_str(&mut r, self.from.as_str());
        push_str(&mut r, "\n  Date: ");
        push_str(&mut r, self.date.as_str());
        assert(head@ =~= if subject@.len() <= SUBJECT_SHOWN {
            subject@
        } else {
            subject@.take(SUBJECT_SHOWN as int)
        });
        assert(r@ =~= message_summary(*self));
        r
    }
}

/// A mailbox reader, signed in when it holds an access token.
pub struct MailReader {
    pub access_token: Option<String>,
}

/// A request for the newest messages: where it goes and the authorization it carries.
pub struct MailRequest {
    pub url: String,
    pub authorization: String,
}

/// The address that lists the newest `limit` messages.
pub open spec fn messages_url(limit: nat) -> Seq<char> {
    "https://graph.microsoft.com/v1.0/me/messages?$top="@ + decimal(limit)
        + "&$orderby=receivedDateTime desc"@
}

/// The bytes that are written as they are in a URL: letters, digits and `-._~`.
pub open spec fn is_unreserved(b: u8) -> bool {
    ||| 48 <= b <= 57
    ||| 65 <= b <= 90
    ||| 97 <= b <= 122
    ||| b == 45 || b == 46 || b == 95 || b == 126
}

/// The upper-case hexadecimal digit of `d` (below 16).
pub open spec fn hex_digit(d: u8) -> char {
    if d < 10 {
        (48 + d) as char
    } else {
        (55 + d) as char
    }
}

/// Percent-encoding of bytes: unreserved bytes as they are, every other byte as `%`
/// and two upper-case hexadecimal digits.
pub open spec fn percent_encode(bytes: Seq<u8>) -> Seq<char>
    decreases bytes.len(),
{
    if bytes.len() == 0 {
        Seq::empty()
    } else {
        let b = bytes[0];
        (if is_unreserved(b) {
            seq![b as char]
        } else {
            seq!['%', hex_digit(b / 16), hex_digit(b % 16)]
        }) + percent_encode(bytes.drop_first())
    }
}

/// `urlencoding::encode`: percent-encodes the UTF-8 bytes of `s`, keeping letters,
/// digits and `-._~`.
#[verifier::external_body]
fn url_encode(s: &str) -> (r: String)
    ensures
        r@ == percent_encode(encode_utf8(s@)),
{
    urlencoding::encode(s).into_owned()
}

/// The sign-in page of the mail service, which sends the user back to the local callback.
pub open spec fn auth_url() -> Seq<char> {
    "https://login.microsoftonline.com/common/oauth2/v2.0/authorize?client_id=04b07795-8ddb-461a-bbee-02f9e1bf7b46&response_type=code&scope=Mail.Read&redirect_uri="@
        + percent_encode(encode_utf8("http://localhost:8888/callback"@)) + "&response_mode=query"@
}

/// The fields of a message in its order of declaration.
pub open spec fn message_fields(m: MailMessage) -> (Seq<char>, Seq<char>, Seq<char>, Seq<char>, Option<Seq<char>>) {
    (m.id@, m.subject@, m.from@, m.date@, match m.preview {
        Some(p) => Some(p@),
        None => None,
    })
}

/// A string member of a message, or `default` when it is missing or not a string.
pub open spec fn str_or(v: JsonValue, default: Seq<char>) -> Seq<char> {
    match json_str(v) {
        Some(s) => s,
        None => default,
    }
}

/// The message that one entry of the answer describes.
pub open spec fn message_from_json(v: JsonValue) -> (Seq<char>, Seq<char>, Seq<char>, Seq<char>, Option<Seq<char>>) {
    (
        str_or(json_get(v, "id"@), Seq::empty()),
        str_or(json_get(v, "subject"@), "(No subject)"@),
        str_or(json_get(json_get(json_get(v, "from"@), "emailAddress"@), "address"@), "(Unknown)"@),
        str_or(json_get(v, "receivedDateTime"@), "(No date)"@),
        json_str(json_get(v, "bodyPreview"@)),
    )
}

/// The entries of the answer's `value` list, none when it has no such list.
pub open spec fn answer_entries(body: JsonValue) -> Seq<JsonValue> {
    match json_array(json_get(body, "value"@)) {
        Some(items) => items,
        None => Seq::empty(),
    }
}

fn str_field_or(v: &JsonValue, key: &str, default: &str) -> (r: String)
    ensures
        r@ == str_or(json_get(*v, key@), default@),
{
    match get_str(v, key) {
        Some(s) => owned(s),
        None => owned(default),
    }
}

/// The message that one entry of the answer describes.
pub fn parse_message(v: &JsonValue) -> (m: MailMessage)
    ensures
        message_fields(m) == message_from_json(*v),
{
    proof {
        reveal_strlit("");
    }
    let id = str_field_or(v, "id", "");
    let subject = str_field_or(v, "subject", "(No subject)");
    let address = match get(v, "from") {
        Some(f) => match get(f, "emailAddress") {
            Some(e) => str_field_or(e, "address", "(Unknown)"),
            None => owned("(Unknown)"),
        },
        None => owned("(Unknown)"),
    };
    let date = str_field_or(v, "receivedDateTime", "(No date)");
    let preview = match get_str(v, "bodyPreview") {
        Some(p) => Some(owned(p)),
        None => None,
    };
    MailMessage { id, subject, from: address, date, preview }
}

impl MailReader {
    /// A reader that is not signed in.
    pub fn new() -> (r: MailReader)
        ensures
            r.access_token is None,
    {
        MailReader { access_token: None }
    }

    /// The request for the newest `limit` messages, or an error when the reader is not
    /// signed in.
    pub fn messages_request(&self, limit: usize) -> (r: Result<MailRequest, String>)
        ensures
            r is Err <==> self.access_token is None,
            match r {
                Ok(req) => req.url@ == messages_url(limit as nat) && req.authorization@ == "Bearer "@
                    + self.access_token->0@,
                Err(e) => e@ == "Not authenticated. Use 'axcli mail-auth' first to complete OAuth login"@,
            },
    {
        match &self.access_token {
            None => Err(owned("Not authenticated. Use 'axcli mail-auth' first to complete OAuth login")),
            Some(token) => {
                let mut url = String::new();
                push_str(&mut url, "https://graph.microsoft.com/v1.0/me/messages?$top=");
                push_decimal(&mut url, limit as u64);
                push_str(&mut url, "&$orderby=receivedDateTime desc");
                let mut authorization = String::new();
                push_str(&mut authorization, "Bearer ");
                push_str(&mut authorization, token.as_str());
                assert(url@ =~= messages_url(limit as nat));
                assert(authorization@ =~= "Bearer "@ + token@);
                Ok(MailRequest { url, authorization })
            },
        }
    }

    /// The sign-in page of the mail service.
    pub fn get_auth_url() -> (r: String)
        ensures
            r@ == auth_url(),
    {
        let mut r = String::new();
        push_str(
            &mut r,
            "https://login.microsoftonline.com/common/oauth2/v2.0/authorize?client_id=04b07795-8ddb-461a-bbee-02f9e1bf7b46&response_type=code&scope=Mail.Read&redirect_uri=",
        );
        let redirect = url_encode("http://localhost:8888/callback");
        push_str(&mut r, redirect.as_str());
        push_str(&mut r, "&response_mode=query");
        assert(r@ =~= auth_url());
        r
    }
}

/// Checks the HTTP status of an answer: anything but 200 is an error that shows the
/// status as `shown`.
pub fn check_status(code: u16, shown: &str) -> (r: Result<(), String>)
    ensures
        r is Ok <==> code == 200,
        r matches Err(e) ==> e@ == "API error: HTTP "@ + shown@,
{
    if code != 200 {
        let mut e = String::new();
        push_str(&mut e, "API error: HTTP ");
        push_str(&mut e, shown);
        Err(e)
    } else {
        Ok(())
    }
}

/// The messages of an answer, in the order of its `value` list.
pub fn messages_from_answer(body: &JsonValue) -> (ms: Vec<MailMessage>)
    ensures
        ms@.len() == answer_entries(*body).len(),
        forall|i: int| 0 <= i < ms@.len() ==> message_fields(#[trigger] ms@[i]) == message_from_json(
            answer_entries(*body)[i],
        ),
{
    let mut ms: Vec<MailMessage> = Vec::new();
    let items = match get(body, "value") {
        Some(v) => as_array(v),
        None => None,
    };
    match items {
        None => ms,
        Some(items) => {
            let mut i: usize = 0;
            while i < items.len()
                invariant
                    i <= items@.len(),
                    items@ == answer_entries(*body),
                    ms@.len() == i,
                    forall|j: int| 0 <= j < i ==> message_fields(#[trigger] ms@[j]) == message_from_json(items@[j]),
                decreases items@.len() - i,
            {
                ms.push(parse_message(&items[i]));
                i = i + 1;
            }
            ms
        },
    }
}

/// The messages of the answer whose body is `text`, or the error when the body is not
/// JSON.
pub fn messages_from_answer_text(text: &str) -> (r: Result<Vec<MailMessage>, String>)
    ensures
        match (r, parsed_json(text@)) {
            (Ok(ms), Ok(body)) => ms@.len() == answer_entries(body).len() && forall|i: int|
                0 <= i < ms@.len() ==> message_fields(#[trigger] ms@[i]) == message_from_json(
                    answer_entries(body)[i],
                ),
            (Err(e), Err(pe)) => e@ == "JSON parse error: "@ + pe,
            _ => false,
        },
{
    match parse_json(text) {
        Ok(body) => Ok(messages_from_answer(&body)),
        Err(pe) => {
            let mut e = String::new();
            push_str(&mut e, "JSON parse error: ");
            push_str(&mut e, pe.as_str());
            Err(e)
        },
    }
}

} // verus!
