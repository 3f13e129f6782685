//! The settings file `~/.cc-connect/config.toml`, read as the small part of TOML that it
//! uses: `[section]` headers, `key = value` lines, `#` comments, quoted strings and
//! arrays that may run over several lines.
use vstd::prelude::*;
use crate::config::{built_from, lemma_split_step, split_on, text_of, Config};
use crate::text::{
    chars_equal, chars_of, is_white_space, push_chars, push_str, slice_chars, trim, trim_chars,
    trim_end, trim_start,
};

verus! {

/// The characters of each vector in a list.
pub open spec fn views_of(v: Seq<Vec<char>>) -> Seq<Seq<char>> {
    v.map_values(|x: Vec<char>| x@)
}

/// The pieces of `cs` between occurrences of `sep`.
pub fn split_chars(cs: &Vec<char>, sep: char) -> (r: Vec<Vec<char>>)
    ensures
        views_of(r@) == split_on(cs@, sep),
{
    let mut r: Vec<Vec<char>> = Vec::new();
    let mut current: Vec<char> = Vec::new();
    let mut i: usize = 0;
    assert(cs@.take(0) =~= Seq::<char>::empty());
    assert(views_of(r@).push(current@) =~= split_on(Seq::<char>::empty(), sep));
    while i < cs.len()
        invariant
            i <= cs@.len(),
            split_on(cs@.take(i as int), sep) == views_of(r@).push(current@),
        decreases cs@.len() - i,
    {
        let ghost p = views_of(r@).push(current@);
        proof {
            lemma_split_step(cs@, i as int, sep);
        }
        let c = cs[i];
        if c == sep {
            let done = current;
            r.push(done);
            current = Vec::new();
            assert(views_of(r@).push(current@) =~= p.push(Seq::<char>::empty()));
        } else {
            current.push(c);
            assert(views_of(r@).push(current@) =~= p.update(p.len() - 1, p.last().push(c)));
        }
        i = i + 1;
    }
    assert(cs@.take(i as int) =~= cs@);
    let ghost before = views_of(r@);
    r.push(current);
    assert(views_of(r@) =~= before.push(current@));
    r
}

/// `line` up to its first `#` that stands outside double quotes; `quoted` tells
/// whether the line starts inside quotes.
pub open spec fn comment_free(line: Seq<char>, quoted: bool) -> Seq<char>
    decreases line.len(),
{
    if line.len() == 0 {
        line
    } else if line[0] == '#' && !quoted {
        Seq::empty()
    } else {
        seq![line[0]] + comment_free(
            line.drop_first(),
            if line[0] == '"' {
                !quoted
            } else {
                quoted
            },
        )
    }
}

/// `line` without its comment.
pub fn strip_comment(line: &Vec<char>) -> (r: Vec<char>)
    ensures
        r@ == comment_free(line@, false),
{
    let mut i: usize = 0;
    let mut quoted = false;
    assert(line@.take(0) + line@.skip(0) =~= line@);
    while i < line.len()
        invariant
            i <= line@.len(),
            comment_free(line@, false) == line@.take(i as int) + comment_free(
                line@.skip(i as int),
                quoted,
            ),
        decreases line@.len() - i,
    {
        let c = line[i];
        assert(line@.skip(i as int)[0] == c);
        assert(line@.skip(i as int).drop_first() =~= line@.skip(i + 1));
        if c == '#' && !quoted {
            let r = slice_chars(line, 0, i);
            assert(comment_free(line@, false) =~= r@);
            return r;
        }
        if c == '"' {
            quoted = !quoted;
        }
        assert(line@.take(i + 1) =~= line@.take(i as int) + seq![c]);
        i = i + 1;
    }
    assert(line@.skip(i as int) =~= Seq::<char>::empty());
    assert(line@.take(i as int) =~= line@);
    slice_chars(line, 0, line.len())
}

/// The index of the first `c` in `s`, or its length when it holds none.
pub open spec fn first_index(s: Seq<char>, c: char) -> nat
    decreases s.len(),
{
    if s.len() == 0 {
        0
    } else if s[0] == c {
        0
    } else {
        1 + first_index(s.drop_first(), c)
    }
}

proof fn lemma_first_index(s: Seq<char>, c: char)
    ensures
        first_index(s, c) <= s.len(),
        first_index(s, c) < s.len() <==> s.contains(c),
        first_index(s, c) < s.len() ==> s[first_index(s, c) as int] == c,
    decreases s.len(),
{
    if s.len() > 0 {
        lemma_first_index(s.drop_first(), c);
        if s[0] != c && first_index(s, c) < s.len() {
            assert(s[first_index(s, c) as int] == s.drop_first()[first_index(s.drop_first(), c) as int]);
        }
        if s[0] != c && s.drop_first().contains(c) {
            let j = choose|j: int| 0 <= j < s.drop_first().len() && s.drop_first()[j] == c;
            assert(s[j + 1] == c);
        }
        if s[0] != c && s.contains(c) {
            let j = choose|j: int| 0 <= j < s.len() && s[j] == c;
            assert(s.drop_first()[j - 1] == c);
        }
    }
}

/// The index of the first `c` in `cs`, or its length.
pub fn find_char(cs: &Vec<char>, c: char) -> (r: usize)
    ensures
        r == first_index(cs@, c),
        r <= cs@.len(),
        r < cs@.len() <==> cs@.contains(c),
{
    proof {
        lemma_first_index(cs@, c);
    }
    let mut i: usize = 0;
    assert(cs@.skip(0) =~= cs@);
    while i < cs.len()
        invariant
            i <= cs@.len(),
            first_index(cs@, c) == i + first_index(cs@.skip(i as int), c),
        decreases cs@.len() - i,
    {
        assert(cs@.skip(i as int)[0] == cs@[i as int]);
        assert(cs@.skip(i as int).drop_first() =~= cs@.skip(i + 1));
        if cs[i] == c {
            return i;
        }
        i = i + 1;
    }
    i
}

/// A `[section]` header.
pub open spec fn is_header(l: Seq<char>) -> bool {
    l.len() >= 2 && l[0] == '[' && l.last() == ']'
}

/// A value that opens an array which the line does not close.
pub open spec fn opens_array(v: Seq<char>) -> bool {
    v.len() > 0 && v[0] == '[' && !v.contains(']')
}

/// The settings of `lines`, read in the section `section`, with `open` the key and text
/// so far of an array that an earlier line opened.
pub open spec fn scan(
    lines: Seq<Seq<char>>,
    section: Seq<char>,
    open: Option<(Seq<char>, Seq<char>)>,
) -> Seq<(Seq<char>, Seq<char>, Seq<char>)>
    decreases lines.len(),
{
    if lines.len() == 0 {
        Seq::empty()
    } else {
        let l = trim(comment_free(lines[0], false));
        let rest = lines.drop_first();
        match open {
            Some((k, v)) => if l.contains(']') {
                seq![(section, k, v + l)] + scan(rest, section, None)
            } else {
                scan(rest, section, Some((k, v + l)))
            },
            None => if is_header(l) {
                scan(rest, trim(l.subrange(1, l.len() - 1)), None)
            } else if l.contains('=') {
                let i = first_index(l, '=') as int;
                let key = trim(l.take(i));
                let v = trim(l.skip(i + 1));
                if opens_array(v) {
                    scan(rest, section, Some((key, v)))
                } else {
                    seq![(section, key, v)] + scan(rest, section, None)
                }
            } else {
                scan(rest, section, None)
            },
        }
    }
}

/// A line with nothing to strip: no comment, no white space around it.
pub open spec fn clean_line(l: Seq<char>) -> bool {
    trim(comment_free(l, false)) == l
}

/// An array that a `key = [...` line opens and the next line closes is read whole: the
/// setting's value is the opening line's value followed by all of the closing line, so
/// every item on either line is kept.
pub proof fn lemma_array_over_two_lines(
    l1: Seq<char>,
    l2: Seq<char>,
    rest: Seq<Seq<char>>,
    section: Seq<char>,
)
    requires
        clean_line(l1),
        clean_line(l2),
        l1.contains('='),
        opens_array(trim(l1.skip(first_index(l1, '=') as int + 1))),
        l2.contains(']'),
    ensures
        ({
            let i = first_index(l1, '=') as int;
            let value = trim(l1.skip(i + 1));
            &&& scan(seq![l1, l2] + rest, section, None) == seq![(section, trim(l1.take(i)), value + l2)]
                + scan(rest, section, None)
            &&& (value + l2).take(value.len() as int) == value
            &&& (value + l2).skip(value.len() as int) == l2
        }),
{
    let lines = seq![l1, l2] + rest;
    let i = first_index(l1, '=') as int;
    let value = trim(l1.skip(i + 1));
    lemma_first_index(l1, '=');
    assert(lines[0] == l1);
    assert(lines.drop_first() =~= seq![l2] + rest);
    assert((seq![l2] + rest)[0] == l2);
    assert((seq![l2] + rest).drop_first() =~= rest);
    if is_header(l1) {
        // A header ends with `]`, which the opened value would then hold.
        assert(l1[i] == '=');
        assert(i + 1 < l1.len());
        assert(l1.skip(i + 1).last() == l1.last());
        lemma_trim_suffix(l1.skip(i + 1));
        assert(value[value.len() - 1] == ']');
        assert(value.contains(']'));
    }
    let key = trim(l1.take(i));
    assert(scan(lines, section, None) == scan(seq![l2] + rest, section, Some((key, value))));
    assert(scan(seq![l2] + rest, section, Some((key, value))) == seq![(section, key, value + l2)] + scan(
        rest,
        section,
        None,
    ));
    assert((value + l2).take(value.len() as int) =~= value);
    assert((value + l2).skip(value.len() as int) =~= l2);
}

/// The last character of a trimmed text that ends in a non-space is that character.
proof fn lemma_trim_suffix(s: Seq<char>)
    requires
        s.len() > 0,
        !is_white_space(s.last()),
    ensures
        trim(s).len() > 0,
        trim(s).last() == s.last(),
{
    lemma_trim_start_keeps_last(s);
    let t = trim_start(s);
    assert(trim_end(t) == t);
}

proof fn lemma_trim_start_keeps_last(s: Seq<char>)
    requires
        s.len() > 0,
        !is_white_space(s.last()),
    ensures
        trim_start(s).len() > 0,
        trim_start(s).last() == s.last(),
    decreases s.len(),
{
    if is_white_space(s[0]) {
        assert(s.len() > 1);
        assert(s.drop_first().last() == s.last());
        lemma_trim_start_keeps_last(s.drop_first());
    }
}

/// The settings that the file `text` holds, in order.
pub open spec fn file_entries(text: Seq<char>) -> Seq<(Seq<char>, Seq<char>, Seq<char>)> {
    scan(split_on(text, '\n'), Seq::empty(), None)
}

/// The characters of each part of each setting in a list.
pub open spec fn entry_views(v: Seq<(Vec<char>, Vec<char>, Vec<char>)>) -> Seq<(Seq<char>, Seq<char>, Seq<char>)> {
    v.map_values(|e: (Vec<char>, Vec<char>, Vec<char>)| (e.0@, e.1@, e.2@))
}

/// The characters of an open array.
pub open spec fn open_view(o: Option<(Vec<char>, Vec<char>)>) -> Option<(Seq<char>, Seq<char>)> {
    match o {
        Some((k, v)) => Some((k@, v@)),
        None => None,
    }
}

fn concat_chars(a: &Vec<char>, b: &Vec<char>) -> (r: Vec<char>)
    ensures
        r@ == a@ + b@,
{
    let mut r = slice_chars(a, 0, a.len());
    let mut i: usize = 0;
    assert(a@.subrange(0, a@.len() as int) =~= a@);
    while i < b.len()
        invariant
            i <= b@.len(),
            r@ == a@ + b@.take(i as int),
        decreases b@.len() - i,
    {
        r.push(b[i]);
        i = i + 1;
        assert(r@ =~= a@ + b@.take(i as int));
    }
    assert(b@.take(i as int) =~= b@);
    r
}

/// Reads the settings of a file.
pub fn read_entries(text: &str) -> (r: Vec<(Vec<char>, Vec<char>, Vec<char>)>)
    ensures
        entry_views(r@) == file_entries(text@),
{
    let cs = chars_of(text);
    let lines = split_chars(&cs, '\n');
    let mut entries: Vec<(Vec<char>, Vec<char>, Vec<char>)> = Vec::new();
    let mut section: Vec<char> = Vec::new();
    let mut open: Option<(Vec<char>, Vec<char>)> = None;
    let ghost all = views_of(lines@);
    let mut i: usize = 0;
    assert(all.skip(0) =~= all);
    assert(entry_views(entries@) + scan(all, Seq::empty(), None) =~= scan(all, Seq::empty(), None));
    while i < lines.len()
        invariant
            i <= lines@.len(),
            all == views_of(lines@),
            all.len() == lines@.len(),
            scan(all, Seq::empty(), None) == entry_views(entries@) + scan(
                all.skip(i as int),
                section@,
                open_view(open),
            ),
        decreases lines@.len() - i,
    {
        let ghost before = entry_views(entries@);
        let ghost rest = all.skip(i as int);
        assert(rest[0] == lines@[i as int]@);
        assert(rest.drop_first() =~= all.skip(i + 1));
        let stripped = strip_comment(&lines[i]);
        let l = trim_chars(&stripped);
        let closes = find_char(&l, ']') < l.len();
        let current = open;
        open = None;
        match current {
            Some((k, v)) => {
                let joined = concat_chars(&v, &l);
                if closes {
                    let entry = (slice_chars(&section, 0, section.len()), k, joined);
                    assert(section@.subrange(0, section@.len() as int) =~= section@);
                    entries.push(entry);
                    assert(entry_views(entries@) =~= before + seq![(section@, entry.1@, joined@)]);
                } else {
                    open = Some((k, joined));
                }
            },
            None => {
                if l.len() >= 2 && l[0] == '[' && l[l.len() - 1] == ']' {
                    let inner = slice_chars(&l, 1, l.len() - 1);
                    section = trim_chars(&inner);
                } else {
                    let eq = find_char(&l, '=');
                    if eq < l.len() {
                        let key_part = slice_chars(&l, 0, eq);
                        let value_part = slice_chars(&l, eq + 1, l.len());
                        assert(key_part@ =~= l@.take(eq as int));
                        assert(value_part@ =~= l@.skip(eq + 1));
                        let key = trim_chars(&key_part);
                        let value = trim_chars(&value_part);
                        let value_closes = find_char(&value, ']') < value.len();
                        if value.len() > 0 && value[0] == '[' && !value_closes {
                            open = Some((key, value));
                        } else {
                            let entry = (slice_chars(&section, 0, section.len()), key, value);
                            assert(section@.subrange(0, section@.len() as int) =~= section@);
                            entries.push(entry);
                            assert(entry_views(entries@) =~= before + seq![(section@, entry.1@, entry.2@)]);
                        }
                    }
                }
            },
        }
        i = i + 1;
        assert(scan(all, Seq::empty(), None) =~= entry_views(entries@) + scan(
            all.skip(i as int),
            section@,
            open_view(open),
        ));
    }
    assert(all.skip(i as int) =~= Seq::<Seq<char>>::empty());
    assert(entry_views(entries@) + Seq::<(Seq<char>, Seq<char>, Seq<char>)>::empty() =~= entry_views(entries@));
    entries
}

/// The value of the first setting `key` of section `section`.
pub open spec fn lookup(
    entries: Seq<(Seq<char>, Seq<char>, Seq<char>)>,
    section: Seq<char>,
    key: Seq<char>,
) -> Option<Seq<char>>
    decreases entries.len(),
{
    if entries.len() == 0 {
        None
    } else if entries[0].0 == section && entries[0].1 == key {
        Some(entries[0].2)
    } else {
        lookup(entries.drop_first(), section, key)
    }
}

fn find_entry(entries: &Vec<(Vec<char>, Vec<char>, Vec<char>)>, section: &str, key: &str) -> (r: Option<Vec<char>>)
    ensures
        match r {
            Some(v) => lookup(entry_views(entries@), section@, key@) == Some(v@),
            None => lookup(entry_views(entries@), section@, key@) is None,
        },
{
    let sec = chars_of(section);
    let k = chars_of(key);
    let ghost all = entry_views(entries@);
    let mut i: usize = 0;
    assert(all.skip(0) =~= all);
    while i < entries.len()
        invariant
            i <= entries@.len(),
            all == entry_views(entries@),
            all.len() == entries@.len(),
            sec@ == section@,
            k@ == key@,
            lookup(all, section@, key@) == lookup(all.skip(i as int), section@, key@),
        decreases entries@.len() - i,
    {
        assert(all.skip(i as int)[0] == all[i as int]);
        assert(all.skip(i as int).drop_first() =~= all.skip(i + 1));
        let e = &entries[i];
        assert(all[i as int] == (e.0@, e.1@, e.2@));
        assert(all.skip(i as int).len() > 0);
        let same_section = chars_equal(e.0.as_slice(), sec.as_slice());
        let same_key = chars_equal(e.1.as_slice(), k.as_slice());
        assert(same_section == (e.0@ == section@));
        assert(same_key == (e.1@ == key@));
        if same_section && same_key {
            let v = slice_chars(&e.2, 0, e.2.len());
            assert(v@ =~= e.2@);
            return Some(v);
        }
        i = i + 1;
    }
    None
}

/// A string value without its quotes; other values as they are.
pub open spec fn unquote(v: Seq<char>) -> Seq<char> {
    if v.len() >= 2 && ((v[0] == '"' && v.last() == '"') || (v[0] == '\'' && v.last() == '\'')) {
        v.subrange(1, v.len() - 1)
    } else {
        v
    }
}

/// `s` without quote characters.
pub open spec fn drop_quotes(s: Seq<char>) -> Seq<char>
    decreases s.len(),
{
    if s.len() == 0 {
        s
    } else if s.last() == '"' || s.last() == '\'' {
        drop_quotes(s.drop_last())
    } else {
        drop_quotes(s.drop_last()).push(s.last())
    }
}

/// A list value as comma-separated text: the items of an array with their quotes
/// removed, or a single value unquoted.
pub open spec fn list_text(v: Seq<char>) -> Seq<char> {
    if v.len() >= 2 && v[0] == '[' && v.last() == ']' {
        drop_quotes(v.subrange(1, v.len() - 1))
    } else {
        unquote(v)
    }
}

/// A path with a leading `~/` taken relative to `home`.
pub open spec fn expand_home(p: Seq<char>, home: Option<Seq<char>>) -> Seq<char> {
    match home {
        Some(h) => if p.len() >= 2 && p[0] == '~' && p[1] == '/' {
            h + p.skip(1)
        } else {
            p
        },
        None => p,
    }
}

fn unquote_chars(v: &Vec<char>) -> (r: Vec<char>)
    ensures
        r@ == unquote(v@),
{
    let n = v.len();
    if n >= 2 && ((v[0] == '"' && v[n - 1] == '"') || (v[0] == '\'' && v[n - 1] == '\'')) {
        slice_chars(v, 1, n - 1)
    } else {
        slice_chars(v, 0, n)
    }
}

fn list_chars(v: &Vec<char>) -> (r: Vec<char>)
    ensures
        r@ == list_text(v@),
{
    let n = v.len();
    if n >= 2 && v[0] == '[' && v[n - 1] == ']' {
        let inner = slice_chars(v, 1, n - 1);
        let mut r: Vec<char> = Vec::new();
        let mut i: usize = 0;
        assert(inner@.take(0) =~= Seq::<char>::empty());
        while i < inner.len()
            invariant
                i <= inner@.len(),
                r@ == drop_quotes(inner@.take(i as int)),
            decreases inner@.len() - i,
        {
            let c = inner[i];
            assert(inner@.take(i + 1).drop_last() =~= inner@.take(i as int));
            if c != '"' && c != '\'' {
                r.push(c);
            }
            i = i + 1;
            assert(r@ =~= drop_quotes(inner@.take(i as int)));
        }
        assert(inner@.take(i as int) =~= inner@);
        r
    } else {
        unquote_chars(v)
    }
}

/// Settings as they are given, each `None` when absent.
pub struct Settings {
    pub token: Option<String>,
    pub approved_directory: Option<String>,
    pub allowed_users: Option<String>,
    pub allowed_topics: Option<String>,
    pub db_path: Option<String>,
}

/// An optional value converted by `f`.
pub open spec fn map_text(v: Option<Seq<char>>, f: spec_fn(Seq<char>) -> Seq<char>) -> Option<Seq<char>> {
    match v {
        Some(x) => Some(f(x)),
        None => None,
    }
}

/// The settings of the file `text`, `home` being the user's home directory:
/// `telegram_bot_token`, `approved_directory`, `allowed_users` and `allowed_topics` of
/// section `[bot]`, and `path` of section `[db]`.
pub open spec fn file_settings(text: Seq<char>, home: Option<Seq<char>>) -> (
    Option<Seq<char>>,
    Option<Seq<char>>,
    Option<Seq<char>>,
    Option<Seq<char>>,
    Option<Seq<char>>,
) {
    let e = file_entries(text);
    (
        map_text(lookup(e, "bot"@, "telegram_bot_token"@), |v: Seq<char>| unquote(v)),
        map_text(lookup(e, "bot"@, "approved_directory"@), |v: Seq<char>| unquote(v)),
        map_text(lookup(e, "bot"@, "allowed_users"@), |v: Seq<char>| list_text(v)),
        map_text(lookup(e, "bot"@, "allowed_topics"@), |v: Seq<char>| list_text(v)),
        map_text(lookup(e, "db"@, "path"@), |v: Seq<char>| expand_home(unquote(v), home)),
    )
}

/// The settings as texts.
pub open spec fn settings_view(s: Settings) -> (
    Option<Seq<char>>,
    Option<Seq<char>>,
    Option<Seq<char>>,
    Option<Seq<char>>,
    Option<Seq<char>>,
) {
    (text_of(s.token), text_of(s.approved_directory), text_of(s.allowed_users), text_of(s.allowed_topics), text_of(s.db_path))
}

fn string_of(v: Option<Vec<char>>) -> (r: Option<String>)
    ensures
        text_of(r) == match v {
            Some(x) => Some(x@),
            None => None,
        },
{
    match v {
        Some(x) => {
            let mut s = String::new();
            push_chars(&mut s, x.as_slice());
            Some(s)
        },
        None => None,
    }
}

fn expand_home_chars(p: Vec<char>, home: Option<&str>) -> (r: Vec<char>)
    ensures
        r@ == expand_home(p@, match home {
            Some(h) => Some(h@),
            None => None,
        }),
{
    match home {
        Some(h) => {
            if p.len() >= 2 && p[0] == '~' && p[1] == '/' {
                let hs = chars_of(h);
                let tail = slice_chars(&p, 1, p.len());
                assert(tail@ =~= p@.skip(1));
                concat_chars(&hs, &tail)
            } else {
                p
            }
        },
        None => p,
    }
}

/// Reads the settings from the text of the settings file; `home` is the user's home
/// directory, against which a database path starting with `~/` is taken.
pub fn settings_from_file(text: &str, home: Option<&str>) -> (s: Settings)
    ensures
        settings_view(s) == file_settings(text@, match home {
            Some(h) => Some(h@),
            None => None,
        }),
{
    let entries = read_entries(text);
    let token = match find_entry(&entries, "bot", "telegram_bot_token") {
        Some(v) => Some(unquote_chars(&v)),
        None => None,
    };
    let dir = match find_entry(&entries, "bot", "approved_directory") {
        Some(v) => Some(unquote_chars(&v)),
        None => None,
    };
    let users = match find_entry(&entries, "bot", "allowed_users") {
        Some(v) => Some(list_chars(&v)),
        None => None,
    };
    let topics = match find_entry(&entries, "bot", "allowed_topics") {
        Some(v) => Some(list_chars(&v)),
        None => None,
    };
    let db = match find_entry(&entries, "db", "path") {
        Some(v) => Some(expand_home_chars(unquote_chars(&v), home)),
        None => None,
    };
    Settings {
        token: string_of(token),
        approved_directory: string_of(dir),
        allowed_users: string_of(users),
        allowed_topics: string_of(topics),
        db_path: string_of(db),
    }
}

/// The value given first: by `first`, else by `second`.
pub open spec fn either(first: Option<Seq<char>>, second: Option<Seq<char>>) -> Option<Seq<char>> {
    match first {
        Some(x) => Some(x),
        None => second,
    }
}

fn take_either(first: Option<String>, second: Option<String>) -> (r: Option<String>)
    ensures
        text_of(r) == either(text_of(first), text_of(second)),
{
    match first {
        Some(x) => Some(x),
        None => second,
    }
}

impl Config {
    /// Builds the configuration from the environment's settings, falling back, for each
    /// setting the environment does not give, to the settings file.
    pub fn from_settings(env: Settings, file: Settings) -> (r: Result<Config, String>)
        ensures
            built_from(
                r,
                either(text_of(env.token), text_of(file.token)),
                either(text_of(env.approved_directory), text_of(file.approved_directory)),
                either(text_of(env.allowed_users), text_of(file.allowed_users)),
                either(text_of(env.allowed_topics), text_of(file.allowed_topics)),
                either(text_of(env.db_path), text_of(file.db_path)),
            ),
    {
        Config::from_values(
            take_either(env.token, file.token),
            take_either(env.approved_directory, file.approved_directory),
            take_either(env.allowed_users, file.allowed_users),
            take_either(env.allowed_topics, file.allowed_topics),
            take_either(env.db_path, file.db_path),
        )
    }
}

} // verus!
