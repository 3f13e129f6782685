//! Bot settings and the parsing of their list-valued entries.
use std::collections::HashSet;
use vstd::prelude::*;
use crate::numeric::{
    all_digits, decimal, is_ascii_digit, lemma_decimal_digits, lemma_decimal_value,
    lemma_parse_i32_signed_decimal, lemma_parse_u64_decimal, parse_i32, parse_i32_chars, parse_u64,
    parse_u64_chars, signed_decimal,
};
use crate::text::{
    chars_equal, chars_of, is_white_space, owned, slice_chars, trim, trim_chars, trim_end,
    trim_start,
};

verus! {

/// Settings of the bot.
pub struct Config {
    pub telegram_bot_token: String,
    pub approved_directory: String,
    pub allowed_users: HashSet<u64>,
    /// Allowed forum topic thread ids; empty means every topic is allowed.
    /// Given as `2,84` or as topic links such as `https://t.me/3816634435/84` (thread id 84).
    pub allowed_topics: HashSet<i32>,
    pub db_path: String,
    pub tmux_session: String,
}

/// The pieces of `s` between occurrences of `sep` (what `str::split` yields); an empty
/// string gives one empty piece.
pub open spec fn split_on(s: Seq<char>, sep: char) -> Seq<Seq<char>>
    decreases s.len(),
{
    if s.len() == 0 {
        seq![Seq::<char>::empty()]
    } else {
        let p = split_on(s.drop_last(), sep);
        if s.last() == sep {
            p.push(Seq::<char>::empty())
        } else {
            p.update(p.len() - 1, p.last().push(s.last()))
        }
    }
}

/// Splitting always gives at least one piece.
pub proof fn lemma_split_on_nonempty(s: Seq<char>, sep: char)
    ensures
        split_on(s, sep).len() >= 1,
    decreases s.len(),
{
    if s.len() > 0 {
        lemma_split_on_nonempty(s.drop_last(), sep);
    }
}

/// The part of `s` after its last `sep`, or all of `s` when it holds none
/// (the first item that `str::rsplit` yields).
pub open spec fn last_segment(s: Seq<char>, sep: char) -> Seq<char>
    decreases s.len(),
{
    if s.len() == 0 {
        s
    } else if s.last() == sep {
        Seq::<char>::empty()
    } else {
        last_segment(s.drop_last(), sep).push(s.last())
    }
}

/// `pat` occurs in `s`.
pub open spec fn contains_seq(s: Seq<char>, pat: Seq<char>) -> bool {
    exists|i: int| 0 <= i && i + pat.len() <= s.len() && #[trigger] s.subrange(i, i + pat.len()) == pat
}

proof fn lemma_trim_unchanged(s: Seq<char>)
    requires
        s.len() > 0,
        !is_white_space(s[0]),
        !is_white_space(s.last()),
    ensures
        trim(s) == s,
{
    assert(trim_start(s) == s);
    assert(trim_end(s) == s);
}

proof fn lemma_last_segment_after(a: Seq<char>, d: Seq<char>, sep: char)
    requires
        forall|i: int| 0 <= i < d.len() ==> d[i] != sep,
    ensures
        last_segment(a.push(sep) + d, sep) == d,
    decreases d.len(),
{
    if d.len() == 0 {
        assert(a.push(sep) + d =~= a.push(sep));
        assert(a.push(sep).drop_last() =~= a);
    } else {
        lemma_last_segment_after(a, d.drop_last(), sep);
        assert((a.push(sep) + d).drop_last() =~= a.push(sep) + d.drop_last());
        assert(d.drop_last().push(d.last()) =~= d);
    }
}

/// A topic link names the same thread as the thread id it ends with: the entry
/// `https://t.me/<chat>/<id>` and the entry `<id>` give the same thread id, for any
/// decimal `<id>` and any `<chat>`.
pub proof fn lemma_topic_link_names_its_thread(chat: Seq<char>, id: Seq<char>)
    requires
        id.len() > 0,
        all_digits(id),
    ensures
        topic_entry("https://t.me/"@ + chat + "/"@ + id) == topic_entry(id),
        topic_entry(id) == parse_i32(id),
{
    reveal_strlit("https://t.me/");
    reveal_strlit("/");
    reveal_strlit("t.me/");
    let link = "https://t.me/"@ + chat + "/"@ + id;
    assert(is_ascii_digit(id[0]));
    assert(is_ascii_digit(id.last()));
    assert(link[0] == 'h');
    assert(link.last() == id.last());
    lemma_trim_unchanged(link);
    lemma_trim_unchanged(id);
    assert(link.subrange(8, 8 + "t.me/"@.len() as int) =~= "t.me/"@);
    assert(contains_seq(link, "t.me/"@));
    assert(link =~= ("https://t.me/"@ + chat).push('/') + id);
    lemma_last_segment_after("https://t.me/"@ + chat, id, '/');
    assert(!contains_seq(id, "t.me/"@)) by {
        if contains_seq(id, "t.me/"@) {
            let i = choose|i: int| 0 <= i && i + "t.me/"@.len() <= id.len() && #[trigger] id.subrange(
                i,
                i + "t.me/"@.len(),
            ) == "t.me/"@;
            assert(id.subrange(i, i + "t.me/"@.len())[0] == id[i]);
            assert(is_ascii_digit(id[i]));
        }
    }
}

/// A number and its sign hold no white space and no topic link.
proof fn lemma_plain_number(s: Seq<char>, body: Seq<char>)
    requires
        body.len() > 0,
        all_digits(body),
        s == body || s == seq!['-'] + body,
    ensures
        trim(s) == s,
        !contains_seq(s, "t.me/"@),
{
    assert(is_ascii_digit(body[0]));
    assert(is_ascii_digit(body.last()));
    assert(s.last() == body.last());
    lemma_trim_unchanged(s);
    reveal_strlit("t.me/");
    if contains_seq(s, "t.me/"@) {
        let i = choose|i: int| 0 <= i && i + "t.me/"@.len() <= s.len() && #[trigger] s.subrange(
            i,
            i + "t.me/"@.len(),
        ) == "t.me/"@;
        assert(s.subrange(i, i + "t.me/"@.len())[0] == s[i]);
        if s != body {
            if i > 0 {
                assert(s[i] == body[i - 1]);
            }
        }
    }
}

/// A user id written in decimal, as the chat service shows it, names that user.
pub proof fn lemma_user_entry_of_decimal(id: u64)
    ensures
        user_entry(decimal(id as nat)) == Some(id),
{
    lemma_decimal_digits(id as nat);
    lemma_plain_number(decimal(id as nat), decimal(id as nat));
    lemma_parse_u64_decimal(id);
}

/// A thread id written as the status list writes it names that thread: the topics
/// listed by the bot can be given back as allowed topics.
pub proof fn lemma_topic_entry_of_decimal(id: i32)
    ensures
        topic_entry(signed_decimal(id as int)) == Some(id),
{
    let s = signed_decimal(id as int);
    if id < 0 {
        lemma_decimal_digits((-id) as nat);
        lemma_decimal_value((-id) as nat);
        lemma_plain_number(s, decimal((-id) as nat));
    } else {
        lemma_decimal_digits(id as nat);
        lemma_decimal_value(id as nat);
        lemma_plain_number(s, decimal(id as nat));
    }
    lemma_parse_i32_signed_decimal(id);
}

/// The user id that one entry of the user list names.
pub open spec fn user_entry(piece: Seq<char>) -> Option<u64> {
    parse_u64(trim(piece))
}

/// The thread id that one entry of the topic list names: a number, or the last path
/// segment of a topic link.
pub open spec fn topic_entry(piece: Seq<char>) -> Option<i32> {
    let t = trim(piece);
    if t.len() == 0 {
        None
    } else if contains_seq(t, "t.me/"@) {
        parse_i32(last_segment(t, '/'))
    } else {
        parse_i32(t)
    }
}

/// The user ids named by the pieces `ps`.
pub open spec fn user_ids(ps: Seq<Seq<char>>) -> Set<u64> {
    Set::new(|n: u64| exists|j: int| 0 <= j < ps.len() && user_entry(#[trigger] ps[j]) == Some(n))
}

/// The thread ids named by the pieces `ps`.
pub open spec fn topic_ids(ps: Seq<Seq<char>>) -> Set<i32> {
    Set::new(|n: i32| exists|j: int| 0 <= j < ps.len() && topic_entry(#[trigger] ps[j]) == Some(n))
}

/// The allowed users of a comma-separated list.
pub open spec fn allowed_users_of(raw: Seq<char>) -> Set<u64> {
    user_ids(split_on(raw, ','))
}

/// The allowed topics of a comma-separated list.
pub open spec fn allowed_topics_of(raw: Seq<char>) -> Set<i32> {
    topic_ids(split_on(raw, ','))
}

proof fn lemma_user_ids_push(ps: Seq<Seq<char>>, q: Seq<char>)
    ensures
        user_ids(ps.push(q)) == (match user_entry(q) {
            Some(n) => user_ids(ps).insert(n),
            None => user_ids(ps),
        }),
{
    let l = user_ids(ps.push(q));
    let r = match user_entry(q) {
        Some(n) => user_ids(ps).insert(n),
        None => user_ids(ps),
    };
    assert forall|n: u64| l.contains(n) implies r.contains(n) by {
        let j = choose|j: int| 0 <= j < ps.push(q).len() && user_entry(#[trigger] ps.push(q)[j]) == Some(n);
        if j < ps.len() {
            assert(ps.push(q)[j] == ps[j]);
        }
    }
    assert forall|n: u64| r.contains(n) implies l.contains(n) by {
        if user_entry(q) == Some(n) {
            assert(ps.push(q)[ps.len() as int] == q);
        } else {
            let j = choose|j: int| 0 <= j < ps.len() && user_entry(#[trigger] ps[j]) == Some(n);
            assert(ps.push(q)[j] == ps[j]);
        }
    }
    assert(l =~= r);
}

proof fn lemma_topic_ids_push(ps: Seq<Seq<char>>, q: Seq<char>)
    ensures
        topic_ids(ps.push(q)) == (match topic_entry(q) {
            Some(n) => topic_ids(ps).insert(n),
            None => topic_ids(ps),
        }),
{
    let l = topic_ids(ps.push(q));
    let r = match topic_entry(q) {
        Some(n) => topic_ids(ps).insert(n),
        None => topic_ids(ps),
    };
    assert forall|n: i32| l.contains(n) implies r.contains(n) by {
        let j = choose|j: int| 0 <= j < ps.push(q).len() && topic_entry(#[trigger] ps.push(q)[j]) == Some(n);
        if j < ps.len() {
            assert(ps.push(q)[j] == ps[j]);
        }
    }
    assert forall|n: i32| r.contains(n) implies l.contains(n) by {
        if topic_entry(q) == Some(n) {
            assert(ps.push(q)[ps.len() as int] == q);
        } else {
            let j = choose|j: int| 0 <= j < ps.len() && topic_entry(#[trigger] ps[j]) == Some(n);
            assert(ps.push(q)[j] == ps[j]);
        }
    }
    assert(l =~= r);
}

/// Scanning one more character extends the split of the scanned prefix.
pub(crate) proof fn lemma_split_step(s: Seq<char>, i: int, sep: char)
    requires
        0 <= i < s.len(),
    ensures
        split_on(s.take(i + 1), sep) == (if s[i] == sep {
            split_on(s.take(i), sep).push(Seq::<char>::empty())
        } else {
            let p = split_on(s.take(i), sep);
            p.update(p.len() - 1, p.last().push(s[i]))
        }),
{
    assert(s.take(i + 1).drop_last() =~= s.take(i));
}

/// The user id an entry names.
pub fn parse_user_entry(piece: &Vec<char>) -> (r: Option<u64>)
    ensures
        r == user_entry(piece@),
{
    let t = trim_chars(piece);
    parse_u64_chars(t.as_slice())
}

/// Whether `pat` occurs in `cs`.
pub fn contains_chars(cs: &Vec<char>, pat: &Vec<char>) -> (b: bool)
    ensures
        b == contains_seq(cs@, pat@),
{
    if pat.len() > cs.len() {
        return false;
    }
    if pat.len() == 0 {
        assert(cs@.subrange(0, 0 + pat@.len() as int) =~= pat@);
        return true;
    }
    let mut i: usize = 0;
    while i <= cs.len() - pat.len()
        invariant
            1 <= pat@.len() <= cs@.len(),
            i <= cs@.len() - pat@.len() + 1,
            forall|j: int| 0 <= j < i ==> #[trigger] cs@.subrange(j, j + pat@.len()) != pat@,
        decreases cs@.len() - pat@.len() + 1 - i,
    {
        let window = slice_chars(cs, i, i + pat.len());
        if chars_equal(window.as_slice(), pat.as_slice()) {
            return true;
        }
        i = i + 1;
    }
    false
}

/// The characters after the last `sep` in `cs`, or all of them.
pub fn last_segment_chars(cs: &Vec<char>, sep: char) -> (r: Vec<char>)
    ensures
        r@ == last_segment(cs@, sep),
{
    let n = cs.len();
    let mut i = n;
    assert(cs@.subrange(n as int, n as int) =~= Seq::<char>::empty());
    assert(cs@.take(n as int) =~= cs@);
    while i > 0 && cs[i - 1] != sep
        invariant
            n == cs@.len(),
            i <= n,
            last_segment(cs@, sep) == last_segment(cs@.take(i as int), sep) + cs@.subrange(i as int, n as int),
        decreases i,
    {
        assert(cs@.take(i as int).drop_last() =~= cs@.take(i - 1));
        assert(cs@.subrange(i - 1, n as int) =~= seq![cs@[i - 1]] + cs@.subrange(i as int, n as int));
        assert(last_segment(cs@.take(i as int), sep) == last_segment(cs@.take(i - 1), sep).push(cs@[i - 1]));
        i = i - 1;
        assert(last_segment(cs@, sep) =~= last_segment(cs@.take(i as int), sep) + cs@.subrange(i as int, n as int));
    }
    if i > 0 {
        assert(cs@.take(i as int).last() == sep);
    }
    slice_chars(cs, i, n)
}

/// The thread id an entry names.
pub fn parse_topic_entry(piece: &Vec<char>) -> (r: Option<i32>)
    ensures
        r == topic_entry(piece@),
{
    let t = trim_chars(piece);
    if t.len() == 0 {
        return None;
    }
    let link = chars_of("t.me/");
    if contains_chars(&t, &link) {
        let seg = last_segment_chars(&t, '/');
        parse_i32_chars(seg.as_slice())
    } else {
        parse_i32_chars(t.as_slice())
    }
}

/// The allowed users of a comma-separated list such as `123,456`; entries that are
/// not numbers are skipped.
pub fn parse_allowed_users(raw: &str) -> (set: HashSet<u64>)
    ensures
        set@ == allowed_users_of(raw@),
{
    let cs = chars_of(raw);
    let mut set: HashSet<u64> = HashSet::new();
    let mut current: Vec<char> = Vec::new();
    let mut i: usize = 0;
    assert(cs@.take(0) =~= Seq::<char>::empty());
    assert(split_on(Seq::<char>::empty(), ',').drop_last() =~= Seq::<Seq<char>>::empty());
    assert(user_ids(Seq::<Seq<char>>::empty()) =~= Set::<u64>::empty());
    while i < cs.len()
        invariant
            i <= cs@.len(),
            cs@ == raw@,
            split_on(cs@.take(i as int), ',').len() >= 1,
            current@ == split_on(cs@.take(i as int), ',').last(),
            set@ == user_ids(split_on(cs@.take(i as int), ',').drop_last()),
        decreases cs@.len() - i,
    {
        let ghost p = split_on(cs@.take(i as int), ',');
        proof {
            lemma_split_step(cs@, i as int, ',');
        }
        let c = cs[i];
        if c == ',' {
            let entry = parse_user_entry(&current);
            proof {
                lemma_user_ids_push(p.drop_last(), p.last());
                assert(p.drop_last().push(p.last()) =~= p);
                assert(p.push(Seq::<char>::empty()).drop_last() =~= p);
            }
            match entry {
                Some(n) => {
                    set.insert(n);
                },
                None => {},
            }
            current = Vec::new();
        } else {
            current.push(c);
            assert(p.update(p.len() - 1, p.last().push(c)).drop_last() =~= p.drop_last());
        }
        i = i + 1;
    }
    assert(cs@.take(i as int) =~= cs@);
    let ghost p = split_on(cs@, ',');
    let entry = parse_user_entry(&current);
    proof {
        lemma_user_ids_push(p.drop_last(), p.last());
        assert(p.drop_last().push(p.last()) =~= p);
    }
    match entry {
        Some(n) => {
            set.insert(n);
        },
        None => {},
    }
    set
}

/// The allowed topics of a comma-separated list of thread ids or topic links;
/// entries that name no thread id are skipped.
pub fn parse_allowed_topics(raw: &str) -> (set: HashSet<i32>)
    ensures
        set@ == allowed_topics_of(raw@),
{
    let cs = chars_of(raw);
    let mut set: HashSet<i32> = HashSet::new();
    let mut current: Vec<char> = Vec::new();
    let mut i: usize = 0;
    assert(cs@.take(0) =~= Seq::<char>::empty());
    assert(split_on(Seq::<char>::empty(), ',').drop_last() =~= Seq::<Seq<char>>::empty());
    assert(topic_ids(Seq::<Seq<char>>::empty()) =~= Set::<i32>::empty());
    while i < cs.len()
        invariant
            i <= cs@.len(),
            cs@ == raw@,
            split_on(cs@.take(i as int), ',').len() >= 1,
            current@ == split_on(cs@.take(i as int), ',').last(),
            set@ == topic_ids(split_on(cs@.take(i as int), ',').drop_last()),
        decreases cs@.len() - i,
    {
        let ghost p = split_on(cs@.take(i as int), ',');
        proof {
            lemma_split_step(cs@, i as int, ',');
        }
        let c = cs[i];
        if c == ',' {
            let entry = parse_topic_entry(&current);
            proof {
                lemma_topic_ids_push(p.drop_last(), p.last());
                assert(p.drop_last().push(p.last()) =~= p);
                assert(p.push(Seq::<char>::empty()).drop_last() =~= p);
            }
            match entry {
                Some(n) => {
                    set.insert(n);
                },
                None => {},
            }
            current = Vec::new();
        } else {
            current.push(c);
            assert(p.update(p.len() - 1, p.last().push(c)).drop_last() =~= p.drop_last());
        }
        i = i + 1;
    }
    assert(cs@.take(i as int) =~= cs@);
    let ghost p = split_on(cs@, ',');
    let entry = parse_topic_entry(&current);
    proof {
        lemma_topic_ids_push(p.drop_last(), p.last());
        assert(p.drop_last().push(p.last()) =~= p);
    }
    match entry {
        Some(n) => {
            set.insert(n);
        },
        None => {},
    }
    set
}

/// The text of an optional setting.
pub open spec fn text_of(v: Option<String>) -> Option<Seq<char>> {
    match v {
        Some(s) => Some(s@),
        None => None,
    }
}

/// The text of an optional setting, or `default` when it is absent.
pub open spec fn setting_or(v: Option<Seq<char>>, default: Seq<char>) -> Seq<char> {
    match v {
        Some(s) => s,
        None => default,
    }
}

/// `r` is the configuration built from the given settings (each `None` when absent):
/// an error when there is no token, else the settings with the defaults filled in and
/// the lists parsed.
pub open spec fn built_from(
    r: Result<Config, String>,
    token: Option<Seq<char>>,
    approved_directory: Option<Seq<char>>,
    allowed_users: Option<Seq<char>>,
    allowed_topics: Option<Seq<char>>,
    db_path: Option<Seq<char>>,
) -> bool {
    &&& (r is Err <==> token is None)
    &&& (r matches Err(e) ==> e@ == "TELEGRAM_BOT_TOKEN not set"@)
    &&& (r matches Ok(c) ==> {
        &&& c.telegram_bot_token@ == token->0
        &&& c.approved_directory@ == setting_or(approved_directory, "/home/coder"@)
        &&& c.allowed_users@ == allowed_users_of(setting_or(allowed_users, Seq::empty()))
        &&& c.allowed_topics@ == allowed_topics_of(setting_or(allowed_topics, Seq::empty()))
        &&& c.db_path@ == setting_or(db_path, "cc_connect.db"@)
        &&& c.tmux_session@ == "cc-connect"@
    })
}

/// Takes an optional setting, or `default` when it is absent.
fn take_or(v: Option<String>, default: &str) -> (r: String)
    ensures
        r@ == setting_or(text_of(v), default@),
{
    match v {
        Some(s) => s,
        None => owned(default),
    }
}

impl Config {
    /// Builds the settings from the raw values of `TELEGRAM_BOT_TOKEN`,
    /// `APPROVED_DIRECTORY`, `ALLOWED_USERS`, `ALLOWED_TOPICS` and `DB_PATH`, each `None`
    /// when it is not set. Only the token is mandatory.
    pub fn from_values(
        token: Option<String>,
        approved_directory: Option<String>,
        allowed_users: Option<String>,
        allowed_topics: Option<String>,
        db_path: Option<String>,
    ) -> (r: Result<Config, String>)
        ensures
            built_from(
                r,
                text_of(token),
                text_of(approved_directory),
                text_of(allowed_users),
                text_of(allowed_topics),
                text_of(db_path),
            ),
    {
        let token = match token {
            Some(t) => t,
            None => {
                return Err(owned("TELEGRAM_BOT_TOKEN not set"));
            },
        };
        let approved_directory = take_or(approved_directory, "/home/coder");
        let users = take_or(allowed_users, "");
        let topics = take_or(allowed_topics, "");
        proof {
            reveal_strlit("");
        }
        let db_path = take_or(db_path, "cc_connect.db");
        Ok(Config {
            telegram_bot_token: token,
            approved_directory,
            allowed_users: parse_allowed_users(users.as_str()),
            allowed_topics: parse_allowed_topics(topics.as_str()),
            db_path,
            tmux_session: owned("cc-connect"),
        })
    }

    /// Whether `user_id` may use the bot: every user may when the list is empty.
    pub fn is_allowed_user(&self, user_id: u64) -> (b: bool)
        ensures
            b == (self.allowed_users@.is_empty() || self.allowed_users@.contains(user_id)),
    {
        self.allowed_users.is_empty() || self.allowed_users.contains(&user_id)
    }

    /// Whether the bot answers in forum topic `thread_id` (0 is the general area):
    /// every topic is allowed when the list is empty.
    pub fn is_allowed_topic(&self, thread_id: i32) -> (b: bool)
        ensures
            b == (self.allowed_topics@.is_empty() || self.allowed_topics@.contains(thread_id)),
    {
        self.allowed_topics.is_empty() || self.allowed_topics.contains(&thread_id)
    }
}

} // verus!
