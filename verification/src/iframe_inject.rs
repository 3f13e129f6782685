//! Scripts that fill in and submit a login form in the browser's current tab, and the
//! AppleScript that runs them.
use vstd::prelude::*;
use vstd::utf8::{decode_utf8, valid_utf8};
use crate::text::{chars_of, push_char, push_str};

verus! {

/// How one character of a script is written inside an AppleScript string literal:
/// backslashes and double quotes are escaped, and line breaks become spaces.
pub open spec fn escape_char(c: char) -> Seq<char> {
    if c == '\\' {
        seq!['\\', '\\']
    } else if c == '"' {
        seq!['\\', '"']
    } else if c == '\n' {
        seq![' ']
    } else {
        seq![c]
    }
}

/// A script written inside an AppleScript string literal.
pub open spec fn escape_script(s: Seq<char>) -> Seq<char>
    decreases s.len(),
{
    if s.len() == 0 {
        Seq::empty()
    } else {
        escape_char(s[0]) + escape_script(s.drop_first())
    }
}

proof fn lemma_escape_script_push(s: Seq<char>, c: char)
    ensures
        escape_script(s.push(c)) == escape_script(s) + escape_char(c),
    decreases s.len(),
{
    if s.len() == 0 {
        assert(s.push(c).drop_first() =~= Seq::<char>::empty());
        assert(s.push(c)[0] == c);
        assert(escape_script(Seq::<char>::empty()) =~= Seq::<char>::empty());
        assert(escape_script(s.push(c)) =~= escape_char(c));
    } else {
        assert(s.push(c).drop_first() =~= s.drop_first().push(c));
        lemma_escape_script_push(s.drop_first(), c);
        assert(escape_script(s.push(c)) =~= escape_script(s) + escape_char(c));
    }
}

/// Writes a script for an AppleScript string literal.
pub fn escape_for_applescript(script: &str) -> (r: String)
    ensures
        r@ == escape_script(script@),
{
    let cs = chars_of(script);
    let mut r = String::new();
    let mut i: usize = 0;
    assert(cs@.take(0) =~= Seq::<char>::empty());
    while i < cs.len()
        invariant
            i <= cs@.len(),
            r@ == escape_script(cs@.take(i as int)),
        decreases cs@.len() - i,
    {
        let c = cs[i];
        if c == '\\' {
            push_char(&mut r, '\\');
            push_char(&mut r, '\\');
        } else if c == '"' {
            push_char(&mut r, '\\');
            push_char(&mut r, '"');
        } else if c == '\n' {
            push_char(&mut r, ' ');
        } else {
            push_char(&mut r, c);
        }
        proof {
            lemma_escape_script_push(cs@.take(i as int), c);
            assert(cs@.take(i as int).push(c) =~= cs@.take(i + 1));
        }
        i = i + 1;
        assert(r@ =~= escape_script(cs@.take(i as int)));
    }
    assert(cs@.take(i as int) =~= cs@);
    r
}

/// How AppleScript reads a string literal back: a backslash takes the next character
/// as it is.
pub open spec fn unescape(s: Seq<char>) -> Seq<char>
    decreases s.len(),
{
    if s.len() == 0 {
        s
    } else if s[0] == '\\' && s.len() >= 2 {
        seq![s[1]] + unescape(s.skip(2))
    } else {
        seq![s[0]] + unescape(s.drop_first())
    }
}

/// `s` with each line break replaced by a space.
pub open spec fn line_breaks_to_spaces(s: Seq<char>) -> Seq<char> {
    s.map_values(|c: char| if c == '\n' { ' ' } else { c })
}

/// The escaped script reads back as the script itself, with line breaks turned into
/// spaces: escaping loses nothing else.
pub proof fn lemma_escape_round_trip(s: Seq<char>)
    ensures
        unescape(escape_script(s)) == line_breaks_to_spaces(s),
    decreases s.len(),
{
    if s.len() == 0 {
        assert(line_breaks_to_spaces(s) =~= Seq::<char>::empty());
    } else {
        let rest = escape_script(s.drop_first());
        lemma_escape_round_trip(s.drop_first());
        let c = s[0];
        let e = escape_script(s);
        assert(e == escape_char(c) + rest);
        if c == '\\' || c == '"' {
            assert(e.skip(2) =~= rest);
            assert(unescape(e) == seq![c] + unescape(rest));
        } else {
            assert(e.drop_first() =~= rest);
            assert(unescape(e) == seq![e[0]] + unescape(rest));
        }
        assert(line_breaks_to_spaces(s) =~= seq![if c == '\n' { ' ' } else { c }]
            + line_breaks_to_spaces(s.drop_first()));
    }
}

/// The AppleScript that runs `script` as JavaScript in Safari's current tab.
pub open spec fn applescript(script: Seq<char>) -> Seq<char> {
    "tell application \"Safari\"\n    tell current tab of window 1\n        execute javascript \""@
        + escape_script(script) + "\"\n    end tell\nend tell"@
}

/// Builds the AppleScript that runs `script` as JavaScript in Safari's current tab.
pub fn applescript_for(script: &str) -> (r: String)
    ensures
        r@ == applescript(script@),
{
    let mut r = String::new();
    push_str(
        &mut r,
        "tell application \"Safari\"\n    tell current tab of window 1\n        execute javascript \"",
    );
    let escaped = escape_for_applescript(script);
    push_str(&mut r, escaped.as_str());
    push_str(&mut r, "\"\n    end tell\nend tell");
    assert(r@ =~= applescript(script@));
    r
}

/// The text that the bytes decode to, invalid sequences replaced by U+FFFD
/// (`String::from_utf8_lossy`).
pub uninterp spec fn utf8_lossy(bytes: Seq<u8>) -> Seq<char>;

/// `String::from_utf8_lossy`: the contract names its result, and states what its
/// documentation says of valid UTF-8, that it is decoded unchanged. What it gives for
/// invalid input is left to the name.
#[verifier::external_body]
fn decode_lossy(bytes: &[u8]) -> (s: String)
    ensures
        s@ == utf8_lossy(bytes@),
        valid_utf8(bytes@) ==> s@ == decode_utf8(bytes@),
{
    String::from_utf8_lossy(bytes).into_owned()
}

/// The result of running a script: its output when it succeeded, else its error output,
/// each decoded leniently.
pub fn script_result(success: bool, stdout: &[u8], stderr: &[u8]) -> (r: Result<String, String>)
    ensures
        r is Ok <==> success,
        match r {
            Ok(s) => s@ == utf8_lossy(stdout@) && (valid_utf8(stdout@) ==> s@ == decode_utf8(stdout@)),
            Err(e) => e@ == utf8_lossy(stderr@) && (valid_utf8(stderr@) ==> e@ == decode_utf8(stderr@)),
        },
{
    if success {
        Ok(decode_lossy(stdout))
    } else {
        Err(decode_lossy(stderr))
    }
}

/// `s` with each single quote escaped by a backslash (`s.replace("'", "\\'")`).
pub open spec fn quote_escape(s: Seq<char>) -> Seq<char>
    decreases s.len(),
{
    if s.len() == 0 {
        Seq::empty()
    } else {
        quote_escape(s.drop_last()) + if s.last() == '\'' {
            seq!['\\', '\'']
        } else {
            seq![s.last()]
        }
    }
}

/// Appends `s` with each single quote escaped.
fn push_quote_escaped(r: &mut String, s: &str)
    ensures
        final(r)@ == old(r)@ + quote_escape(s@),
{
    let cs = chars_of(s);
    let mut i: usize = 0;
    assert(cs@.take(0) =~= Seq::<char>::empty());
    assert(old(r)@ + quote_escape(Seq::<char>::empty()) =~= old(r)@);
    while i < cs.len()
        invariant
            i <= cs@.len(),
            r@ == old(r)@ + quote_escape(cs@.take(i as int)),
        decreases cs@.len() - i,
    {
        let c = cs[i];
        if c == '\'' {
            push_char(r, '\\');
        }
        push_char(r, c);
        assert(cs@.take(i + 1).drop_last() =~= cs@.take(i as int));
        i = i + 1;
        assert(r@ =~= old(r)@ + quote_escape(cs@.take(i as int)));
    }
    assert(cs@.take(i as int) =~= cs@);
}

/// The JavaScript that sets the `<input type="field">` element to `value` and signals
/// the change.
pub open spec fn field_fill_script(field: Seq<char>, value: Seq<char>) -> Seq<char> {
    "document.querySelector('input[type=\""@ + field + "\"]').value = '"@ + quote_escape(value)
        + "'; document.querySelector('input[type=\""@ + field
        + "\"]').dispatchEvent(new Event('input', { bubbles: true }))"@
}

fn field_fill(field: &str, value: &str) -> (r: String)
    ensures
        r@ == field_fill_script(field@, value@),
{
    let mut r = String::new();
    push_str(&mut r, "document.querySelector('input[type=\"");
    push_str(&mut r, field);
    push_str(&mut r, "\"]').value = '");
    push_quote_escaped(&mut r, value);
    push_str(&mut r, "'; document.querySelector('input[type=\"");
    push_str(&mut r, field);
    push_str(&mut r, "\"]').dispatchEvent(new Event('input', { bubbles: true }))");
    assert(r@ =~= field_fill_script(field@, value@));
    r
}

/// The JavaScript that fills the e-mail field with `email`.
pub fn fill_email_script(email: &str) -> (r: String)
    ensures
        r@ == field_fill_script("email"@, email@),
{
    field_fill("email", email)
}

/// The JavaScript that fills the password field with `password`.
pub fn fill_password_script(password: &str) -> (r: String)
    ensures
        r@ == field_fill_script("password"@, password@),
{
    field_fill("password", password)
}

/// The JavaScript that clicks the element that `selector` selects.
pub open spec fn click_script(selector: Seq<char>) -> Seq<char> {
    "document.querySelector('"@ + quote_escape(selector) + "').click();"@
}

/// Builds the JavaScript that clicks the element that `selector` selects.
pub fn click_button_script(selector: &str) -> (r: String)
    ensures
        r@ == click_script(selector@),
{
    let mut r = String::new();
    push_str(&mut r, "document.querySelector('");
    push_quote_escaped(&mut r, selector);
    push_str(&mut r, "').click();");
    assert(r@ =~= click_script(selector@));
    r
}

} // verus!
