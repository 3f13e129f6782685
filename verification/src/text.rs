//! Character-level string utilities with specifications over `Seq<char>`.
use vstd::prelude::*;
use vstd::std_specs::iter::IteratorSpec;
use vstd::string::StringExecFns;
use vstd::utf8::*;

verus! {

/// Appends one character to a string (`String::push`).
#[verifier::external_body]
pub(crate) fn push_char(s: &mut String, c: char)
    ensures
        final(s)@ == old(s)@.push(c),
{
    s.push(c);
}

/// The characters of a string slice, in order.
pub fn chars_of(s: &str) -> (v: Vec<char>)
    ensures
        v@ == s@,
{
    let mut it = s.chars();
    let mut v: Vec<char> = Vec::new();
    loop
        invariant
            v@ + it.remaining() == s@,
        ensures
            v@ == s@,
        decreases s@.len() - v@.len(),
    {
        match it.next() {
            Some(c) => {
                v.push(c);
            },
            None => {
                break;
            },
        }
    }
    v
}

/// An owned copy of a string slice.
pub fn owned(s: &str) -> (r: String)
    ensures
        r@ == s@,
{
    let mut r = String::new();
    r.append(s);
    assert(r@ =~= s@);
    r
}


/// Unicode `White_Space`: the characters that `char::is_whitespace` accepts.
pub open spec fn is_white_space(c: char) -> bool {
    ||| ('\t' <= c && c <= '\r')
    ||| c == ' '
    ||| c == '\u{85}'
    ||| c == '\u{a0}'
    ||| c == '\u{1680}'
    ||| ('\u{2000}' <= c && c <= '\u{200a}')
    ||| c == '\u{2028}'
    ||| c == '\u{2029}'
    ||| c == '\u{202f}'
    ||| c == '\u{205f}'
    ||| c == '\u{3000}'
}

/// Whether `c` is Unicode white space.
pub fn white_space(c: char) -> (b: bool)
    ensures
        b == is_white_space(c),
{
    ('\t' <= c && c <= '\r') || c == ' ' || c == '\u{85}' || c == '\u{a0}' || c == '\u{1680}'
        || ('\u{2000}' <= c && c <= '\u{200a}') || c == '\u{2028}' || c == '\u{2029}'
        || c == '\u{202f}' || c == '\u{205f}' || c == '\u{3000}'
}

/// `s` without its leading white space.
pub open spec fn trim_start(s: Seq<char>) -> Seq<char>
    decreases s.len(),
{
    if s.len() > 0 && is_white_space(s[0]) {
        trim_start(s.drop_first())
    } else {
        s
    }
}

/// `s` without its trailing white space.
pub open spec fn trim_end(s: Seq<char>) -> Seq<char>
    decreases s.len(),
{
    if s.len() > 0 && is_white_space(s.last()) {
        trim_end(s.drop_last())
    } else {
        s
    }
}

/// `s` without leading and trailing white space (what `str::trim` returns).
pub open spec fn trim(s: Seq<char>) -> Seq<char> {
    trim_end(trim_start(s))
}

/// The bounds `(a, b)` of the trimmed part of `cs`.
pub fn trim_bounds(cs: &Vec<char>) -> (r: (usize, usize))
    ensures
        r.0 <= r.1 <= cs@.len(),
        cs@.subrange(r.0 as int, r.1 as int) == trim(cs@),
{
    let n = cs.len();
    let mut a: usize = 0;
    assert(cs@.skip(0) =~= cs@);
    while a < n && white_space(cs[a])
        invariant
            n == cs@.len(),
            a <= n,
            trim_start(cs@) == trim_start(cs@.skip(a as int)),
        decreases n - a,
    {
        assert(cs@.skip(a as int).drop_first() =~= cs@.skip(a + 1));
        a = a + 1;
    }
    assert(trim_start(cs@) == cs@.skip(a as int));
    let mut b: usize = n;
    assert(cs@.skip(a as int) =~= cs@.subrange(a as int, b as int));
    while b > a && white_space(cs[b - 1])
        invariant
            n == cs@.len(),
            a <= b <= n,
            trim(cs@) == trim_end(cs@.subrange(a as int, b as int)),
        decreases b,
    {
        assert(cs@.subrange(a as int, b as int).drop_last() =~= cs@.subrange(a as int, b - 1));
        b = b - 1;
    }
    (a, b)
}

/// The characters of `cs` without leading and trailing white space.
pub fn trim_chars(cs: &Vec<char>) -> (r: Vec<char>)
    ensures
        r@ == trim(cs@),
{
    let (a, b) = trim_bounds(cs);
    slice_chars(cs, a, b)
}

/// The characters `cs[a..b]`.
pub fn slice_chars(cs: &Vec<char>, a: usize, b: usize) -> (r: Vec<char>)
    requires
        a <= b <= cs@.len(),
    ensures
        r@ == cs@.subrange(a as int, b as int),
{
    let mut r: Vec<char> = Vec::new();
    let mut i = a;
    while i < b
        invariant
            a <= i <= b <= cs@.len(),
            r@ == cs@.subrange(a as int, i as int),
        decreases b - i,
    {
        r.push(cs[i]);
        i = i + 1;
        assert(r@ =~= cs@.subrange(a as int, i as int));
    }
    r
}

/// Whether two character sequences are equal.
pub fn chars_equal(x: &[char], y: &[char]) -> (b: bool)
    ensures
        b == (x@ == y@),
{
    if x.len() != y.len() {
        return false;
    }
    let mut i: usize = 0;
    while i < x.len()
        invariant
            x@.len() == y@.len(),
            i <= x@.len(),
            forall|j: int| 0 <= j < i ==> x@[j] == y@[j],
        decreases x@.len() - i,
    {
        if x[i] != y[i] {
            return false;
        }
        i = i + 1;
    }
    assert(x@ =~= y@);
    true
}

/// Whether two string slices hold the same characters.
pub fn str_equal(x: &str, y: &str) -> (b: bool)
    ensures
        b == (x@ == y@),
{
    let xs = chars_of(x);
    let ys = chars_of(y);
    chars_equal(xs.as_slice(), ys.as_slice())
}

/// Appends all characters of `cs` to `s`.
pub fn push_chars(s: &mut String, cs: &[char])
    ensures
        final(s)@ == old(s)@ + cs@,
{
    let mut i: usize = 0;
    while i < cs.len()
        invariant
            i <= cs@.len(),
            s@ == old(s)@ + cs@.take(i as int),
        decreases cs@.len() - i,
    {
        push_char(s, cs[i]);
        i = i + 1;
        assert(s@ =~= old(s)@ + cs@.take(i as int));
    }
    assert(cs@.take(cs@.len() as int) =~= cs@);
}

/// Appends a string slice to `s`.
pub fn push_str(s: &mut String, t: &str)
    ensures
        final(s)@ == old(s)@ + t@,
{
    s.append(t);
}


/// The number of bytes in the UTF-8 encoding of `c`.
pub open spec fn utf8_width(c: char) -> nat {
    if (c as u32) < 0x80 {
        1
    } else if (c as u32) < 0x800 {
        2
    } else if (c as u32) < 0x10000 {
        3
    } else {
        4
    }
}

/// The number of bytes in the UTF-8 encoding of `s` (what `str::len` returns).
pub open spec fn utf8_len(s: Seq<char>) -> nat
    decreases s.len(),
{
    if s.len() == 0 {
        0
    } else {
        utf8_len(s.drop_last()) + utf8_width(s.last())
    }
}

/// The longest prefix of `s` whose UTF-8 encoding has at most `n` bytes.
pub open spec fn byte_prefix(s: Seq<char>, n: nat) -> Seq<char>
    decreases s.len(),
{
    if utf8_len(s) <= n {
        s
    } else {
        byte_prefix(s.drop_last(), n)
    }
}

/// Byte offset `n` of `s` falls on a character boundary: the condition under which
/// `&s[..n]` does not panic (it agrees with `str::is_char_boundary`, see
/// `lemma_is_boundary_char_boundary`).
pub open spec fn is_boundary(s: Seq<char>, n: nat) -> bool {
    n <= utf8_len(s) && utf8_len(byte_prefix(s, n)) == n
}

/// The byte length of a concatenation is the sum of the byte lengths.
pub proof fn lemma_utf8_len_concat(a: Seq<char>, b: Seq<char>)
    ensures
        utf8_len(a + b) == utf8_len(a) + utf8_len(b),
    decreases b.len(),
{
    if b.len() == 0 {
        assert(a + b =~= a);
    } else {
        lemma_utf8_len_concat(a, b.drop_last());
        assert((a + b).drop_last() =~= a + b.drop_last());
    }
}

/// Extending a prefix by one character adds that character's width.
pub proof fn lemma_utf8_len_take_step(s: Seq<char>, i: int)
    requires
        0 <= i < s.len(),
    ensures
        utf8_len(s.take(i + 1)) == utf8_len(s.take(i)) + utf8_width(s[i]),
{
    assert(s.take(i + 1).drop_last() =~= s.take(i));
}

/// Longer prefixes have longer encodings.
pub proof fn lemma_utf8_len_take_mono(s: Seq<char>, i: int, j: int)
    requires
        0 <= i <= j <= s.len(),
    ensures
        utf8_len(s.take(i)) + (j - i) <= utf8_len(s.take(j)),
    decreases j - i,
{
    if i < j {
        lemma_utf8_len_take_mono(s, i, j - 1);
        lemma_utf8_len_take_step(s, j - 1);
    }
}

/// `byte_prefix` is the prefix `s.take(k)` for the `k` at which the byte count
/// first stays within `n`.
pub proof fn lemma_byte_prefix_take(s: Seq<char>, n: nat, k: int)
    requires
        0 <= k <= s.len(),
        utf8_len(s.take(k)) <= n,
        k == s.len() || utf8_len(s.take(k + 1)) > n,
    ensures
        byte_prefix(s, n) == s.take(k),
    decreases s.len(),
{
    assert(s.take(s.len() as int) =~= s);
    if utf8_len(s) <= n {
        if k < s.len() {
            lemma_utf8_len_take_mono(s, k + 1, s.len() as int);
        }
    } else {
        let t = s.drop_last();
        assert(t.take(k) =~= s.take(k));
        if k + 1 < s.len() {
            assert(t.take(k + 1) =~= s.take(k + 1));
        }
        lemma_byte_prefix_take(t, n, k);
    }
}

/// The width of a character agrees with the length of its UTF-8 encoding.
pub proof fn lemma_width_encode_scalar(c: char)
    ensures
        utf8_width(c) == encode_scalar(c as u32).len(),
{
    char_is_scalar(c);
}

/// `utf8_len` is the length of `encode_utf8`.
pub proof fn lemma_utf8_len_encode(s: Seq<char>)
    ensures
        utf8_len(s) == encode_utf8(s).len(),
    decreases s.len(),
{
    if s.len() > 0 {
        lemma_utf8_len_encode(s.drop_first());
        lemma_width_encode_scalar(s[0]);
        lemma_utf8_len_concat(seq![s[0]], s.drop_first());
        assert(seq![s[0]] + s.drop_first() =~= s);
        assert(seq![s[0]].drop_last() =~= Seq::<char>::empty());
        assert(utf8_len(Seq::<char>::empty()) == 0);
        assert(seq![s[0]].last() == s[0]);
        assert(utf8_len(seq![s[0]]) == utf8_width(s[0]));
        assert(encode_utf8(s) == encode_scalar(s[0] as u32) + encode_utf8(s.drop_first()));
    }
}

/// `byte_prefix` is a prefix of `s`.
proof fn lemma_byte_prefix_is_take(s: Seq<char>, n: nat)
    ensures
        byte_prefix(s, n).len() <= s.len(),
        byte_prefix(s, n) == s.take(byte_prefix(s, n).len() as int),
    decreases s.len(),
{
    if utf8_len(s) <= n {
        assert(s.take(s.len() as int) =~= s);
    } else {
        lemma_byte_prefix_is_take(s.drop_last(), n);
        let m = byte_prefix(s, n).len() as int;
        assert(s.drop_last().take(m) =~= s.take(m));
    }
}

/// Byte offset `n` is a boundary exactly when some prefix of `s` has `n` bytes.
pub proof fn lemma_is_boundary_prefix(s: Seq<char>, n: nat)
    ensures
        is_boundary(s, n) <==> exists|k: int| 0 <= k <= s.len() && #[trigger] utf8_len(s.take(k)) == n,
{
    lemma_byte_prefix_is_take(s, n);
    let m = byte_prefix(s, n).len() as int;
    if is_boundary(s, n) {
        assert(utf8_len(s.take(m)) == n);
    }
    if exists|k: int| 0 <= k <= s.len() && #[trigger] utf8_len(s.take(k)) == n {
        let k = choose|k: int| 0 <= k <= s.len() && #[trigger] utf8_len(s.take(k)) == n;
        if k < s.len() {
            lemma_utf8_len_take_step(s, k);
        }
        lemma_byte_prefix_take(s, n, k);
        lemma_utf8_len_take_mono(s, k, s.len() as int);
        assert(s.take(s.len() as int) =~= s);
    }
}

/// The bytes of a prefix of `s` one character longer than a prefix of its tail.
proof fn lemma_utf8_len_take_first(s: Seq<char>, k: int)
    requires
        0 <= k < s.len(),
    ensures
        utf8_len(s.take(k + 1)) == utf8_width(s[0]) + utf8_len(s.drop_first().take(k)),
{
    assert(s.take(k + 1) =~= seq![s[0]] + s.drop_first().take(k));
    lemma_utf8_len_concat(seq![s[0]], s.drop_first().take(k));
    assert(seq![s[0]].drop_last() =~= Seq::<char>::empty());
    assert(utf8_len(Seq::<char>::empty()) == 0);
    assert(seq![s[0]].last() == s[0]);
}

/// `is_boundary` is `str::is_char_boundary` on the UTF-8 encoding of `s`.
pub proof fn lemma_is_boundary_char_boundary(s: Seq<char>, n: nat)
    ensures
        is_boundary(s, n) == is_char_boundary(encode_utf8(s), n as int),
    decreases s.len(),
{
    let bytes = encode_utf8(s);
    encode_utf8_valid_utf8(s);
    lemma_is_boundary_prefix(s, n);
    lemma_utf8_len_encode(s);
    if n == 0 {
        assert(s.take(0) =~= Seq::<char>::empty());
        assert(utf8_len(s.take(0)) == 0);
    } else if s.len() == 0 {
        assert(utf8_len(s) == 0);
    } else {
        let rest = s.drop_first();
        let w = utf8_width(s[0]);
        encode_utf8_first_scalar(s);
        lemma_width_encode_scalar(s[0]);
        assert(pop_first_scalar(bytes) =~= encode_utf8(rest));
        assert(length_of_first_scalar(bytes) == w);
        if bytes.len() >= n {
            assert(is_char_boundary(bytes, n as int) == is_char_boundary(encode_utf8(rest), n - w));
        } else {
            assert(!is_char_boundary(bytes, n as int));
        }
        lemma_is_boundary_prefix(rest, (n - w) as nat);
        if n < w {
            assert(!is_char_boundary(encode_utf8(rest), n - w));
            assert forall|k: int| 0 <= k <= s.len() implies #[trigger] utf8_len(s.take(k)) != n by {
                if k == 0 {
                    assert(s.take(0) =~= Seq::<char>::empty());
                    assert(utf8_len(s.take(0)) == 0);
                } else {
                    lemma_utf8_len_take_first(s, k - 1);
                }
            }
        } else {
            lemma_is_boundary_char_boundary(rest, (n - w) as nat);
            if exists|k: int| 0 <= k <= s.len() && #[trigger] utf8_len(s.take(k)) == n {
                let k = choose|k: int| 0 <= k <= s.len() && #[trigger] utf8_len(s.take(k)) == n;
                if k == 0 {
                    assert(s.take(0) =~= Seq::<char>::empty());
                    assert(utf8_len(s.take(0)) == 0);
                } else {
                    lemma_utf8_len_take_first(s, k - 1);
                    assert(utf8_len(rest.take(k - 1)) == n - w);
                }
            }
            if exists|k: int| 0 <= k <= rest.len() && #[trigger] utf8_len(rest.take(k)) == n - w {
                let k = choose|k: int| 0 <= k <= rest.len() && #[trigger] utf8_len(rest.take(k)) == n - w;
                lemma_utf8_len_take_first(s, k);
                assert(utf8_len(s.take(k + 1)) == n);
            }
        }
    }
}

/// The number of bytes in the UTF-8 encoding of `c`.
pub fn char_width(c: char) -> (w: usize)
    ensures
        w == utf8_width(c),
{
    let u = c as u32;
    if u < 0x80 {
        1
    } else if u < 0x800 {
        2
    } else if u < 0x10000 {
        3
    } else {
        4
    }
}

/// The number of characters of `cs` whose encoding fits in the first `n` bytes, with
/// the byte length of those characters.
pub fn prefix_chars_within(cs: &Vec<char>, n: usize) -> (r: (usize, usize))
    ensures
        r.0 <= cs@.len(),
        cs@.take(r.0 as int) == byte_prefix(cs@, n as nat),
        r.1 == utf8_len(cs@.take(r.0 as int)),
        r.1 <= n,
        r.0 < cs@.len() ==> utf8_len(cs@) > n,
{
    let mut k: usize = 0;
    let mut acc: usize = 0;
    while k < cs.len() && char_width(cs[k]) <= n - acc
        invariant
            k <= cs@.len(),
            acc <= n,
            acc == utf8_len(cs@.take(k as int)),
        decreases cs@.len() - k,
    {
        proof {
            lemma_utf8_len_take_step(cs@, k as int);
        }
        acc = acc + char_width(cs[k]);
        k = k + 1;
    }
    proof {
        if k < cs@.len() {
            lemma_utf8_len_take_step(cs@, k as int);
            lemma_utf8_len_take_mono(cs@, k + 1, cs@.len() as int);
            assert(cs@.take(cs@.len() as int) =~= cs@);
        }
        lemma_byte_prefix_take(cs@, n as nat, k as int);
    }
    (k, acc)
}

/// Trimming never adds characters.
pub proof fn lemma_trim_len(s: Seq<char>)
    ensures
        trim(s).len() <= s.len(),
{
    lemma_trim_start_len(s);
    lemma_trim_end_len(trim_start(s));
}

proof fn lemma_trim_start_len(s: Seq<char>)
    ensures
        trim_start(s).len() <= s.len(),
    decreases s.len(),
{
    if s.len() > 0 && is_white_space(s[0]) {
        lemma_trim_start_len(s.drop_first());
    }
}

proof fn lemma_trim_end_len(s: Seq<char>)
    ensures
        trim_end(s).len() <= s.len(),
    decreases s.len(),
{
    if s.len() > 0 && is_white_space(s.last()) {
        lemma_trim_end_len(s.drop_last());
    }
}

} // verus!
