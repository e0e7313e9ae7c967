//! Text as sequences of characters: the spec functions that the contracts of this crate
//! are stated over, and verified routines that compute them.

use vstd::prelude::*;

verus! {

/// `String::push` appends one character to the end of the string.
pub assume_specification[ String::push ](s: &mut String, c: char)
    ensures
        final(s)@ == old(s)@.push(c),
;

/// The error that `String::from_utf8` ends in.
#[verifier::external_type_specification]
#[verifier::external_body]
pub struct ExFromUtf8Error(std::string::FromUtf8Error);

/// `String::from_utf8`: the text that the bytes encode, if they are valid UTF-8.
pub assume_specification[ String::from_utf8 ](vec: Vec<u8>) -> (r: Result<String, std::string::FromUtf8Error>)
    ensures
        match r {
            Ok(s) => vstd::utf8::valid_utf8(vec@) && s@ == vstd::utf8::decode_utf8(vec@),
            Err(_) => !vstd::utf8::valid_utf8(vec@),
        },
;

/// A text as the `Debug` of `str` writes it.
pub uninterp spec fn debug_text(s: Seq<char>) -> Seq<char>;

/// The `Debug` of `str`: what it writes depends on the text alone.
#[verifier::external_body]
pub(crate) fn show_debug(s: &str) -> (r: String)
    ensures
        r@ == debug_text(s@),
{
    format!("{s:?}")
}

// ---------------------------------------------------------------------------
// Views of optional text and of lists of text
// ---------------------------------------------------------------------------

/// The characters of an optional string.
pub open spec fn option_view(s: Option<String>) -> Option<Seq<char>> {
    match s {
        Some(t) => Some(t@),
        None => None,
    }
}

/// The characters of each string in a list.
pub open spec fn views(list: Seq<String>) -> Seq<Seq<char>> {
    list.map_values(|s: String| s@)
}

/// The characters of each pair of strings in a list.
pub open spec fn pair_views(list: Seq<(String, String)>) -> Seq<(Seq<char>, Seq<char>)> {
    list.map_values(|p: (String, String)| (p.0@, p.1@))
}

// ---------------------------------------------------------------------------
// Conversions between strings and character vectors
// ---------------------------------------------------------------------------

/// The characters of `s`, in order.
pub fn to_chars(s: &str) -> (r: Vec<char>)
    ensures
        r@ == s@,
{
    let mut out: Vec<char> = Vec::new();
    for c in it: s.chars()
        invariant
            it.seq() == s@,
            out@ == s@.take(it.index() as int),
    {
        out.push(c);
    }
    out
}

/// The text made of `v[from..to]`.
pub fn substring(v: &Vec<char>, from: usize, to: usize) -> (r: String)
    requires
        from <= to <= v@.len(),
    ensures
        r@ == v@.subrange(from as int, to as int),
{
    let mut s = String::new();
    let mut i: usize = from;
    while i < to
        invariant
            from <= i <= to <= v@.len(),
            s@ == v@.subrange(from as int, i as int),
        decreases to - i,
    {
        s.push(v[i]);
        i = i + 1;
    }
    s
}

/// Whether two texts hold the same characters.
pub fn same_text(a: &str, b: &str) -> (r: bool)
    ensures
        r == (a@ == b@),
{
    let x = a.to_owned();
    let y = b.to_owned();
    x == y
}

// ---------------------------------------------------------------------------
// Concatenation
// ---------------------------------------------------------------------------

pub fn cat2(a: &str, b: &str) -> (r: String)
    ensures
        r@ == a@ + b@,
{
    let mut s = a.to_owned();
    s.append(b);
    s
}

pub fn cat3(a: &str, b: &str, c: &str) -> (r: String)
    ensures
        r@ == a@ + b@ + c@,
{
    let mut s = cat2(a, b);
    s.append(c);
    s
}

pub fn cat4(a: &str, b: &str, c: &str, d: &str) -> (r: String)
    ensures
        r@ == a@ + b@ + c@ + d@,
{
    let mut s = cat3(a, b, c);
    s.append(d);
    s
}

pub fn cat5(a: &str, b: &str, c: &str, d: &str, e: &str) -> (r: String)
    ensures
        r@ == a@ + b@ + c@ + d@ + e@,
{
    let mut s = cat4(a, b, c, d);
    s.append(e);
    s
}

pub fn cat6(a: &str, b: &str, c: &str, d: &str, e: &str, f: &str) -> (r: String)
    ensures
        r@ == a@ + b@ + c@ + d@ + e@ + f@,
{
    let mut s = cat5(a, b, c, d, e);
    s.append(f);
    s
}

// ---------------------------------------------------------------------------
// Searching
// ---------------------------------------------------------------------------

/// The number of characters before the first `c` of `s`; the length of `s` if it has none.
pub open spec fn position(s: Seq<char>, c: char) -> nat
    decreases s.len(),
{
    if s.len() == 0 || s[0] == c {
        0
    } else {
        1 + position(s.skip(1), c)
    }
}

/// The number of characters up to and including the last `c` of `s`; zero if it has none.
pub open spec fn past_last(s: Seq<char>, c: char) -> nat
    decreases s.len(),
{
    if s.len() == 0 {
        0
    } else if s.last() == c {
        s.len()
    } else {
        past_last(s.drop_last(), c)
    }
}

/// What stands before the first `c`; all of `s` if it has none.
pub open spec fn before(s: Seq<char>, c: char) -> Seq<char> {
    s.take(position(s, c) as int)
}

/// What stands after the last `c`; all of `s` if it has none.
pub open spec fn after_last(s: Seq<char>, c: char) -> Seq<char> {
    s.skip(past_last(s, c) as int)
}

/// The two texts round the first `c`, if there is one.
pub open spec fn cut(s: Seq<char>, c: char) -> Option<(Seq<char>, Seq<char>)> {
    if position(s, c) < s.len() {
        Some((s.take(position(s, c) as int), s.skip(position(s, c) as int + 1)))
    } else {
        None
    }
}

/// Whether `needle` occurs in `s`.
pub open spec fn occurs(s: Seq<char>, needle: Seq<char>) -> bool {
    exists|i: int|
        0 <= i <= s.len() - needle.len() && #[trigger] s.subrange(i, i + needle.len()) == needle
}

/// `position` is where the first `c` stands.
pub proof fn lemma_position(s: Seq<char>, c: char)
    ensures
        position(s, c) <= s.len(),
        position(s, c) < s.len() ==> s[position(s, c) as int] == c,
        forall|i: int| 0 <= i < position(s, c) ==> s[i] != c,
    decreases s.len(),
{
    if s.len() > 0 && s[0] != c {
        let t = s.skip(1);
        lemma_position(t, c);
        assert forall|i: int| 0 <= i < position(s, c) implies s[i] != c by {
            if i > 0 {
                assert(s[i] == t[i - 1]);
            }
        }
        if position(s, c) < s.len() {
            assert(s[position(s, c) as int] == t[position(t, c) as int]);
        }
    }
}

/// Where a `c` has no `c` before it, that is the first.
pub proof fn lemma_position_is(s: Seq<char>, c: char, n: nat)
    requires
        n <= s.len(),
        n < s.len() ==> s[n as int] == c,
        forall|i: int| 0 <= i < n ==> s[i] != c,
    ensures
        position(s, c) == n,
{
    lemma_position(s, c);
    if position(s, c) < n {
        assert(s[position(s, c) as int] == c);
    } else if n < position(s, c) {
        assert(s[n as int] != c);
    }
}

/// `past_last` is where the text after the last `c` begins.
pub proof fn lemma_past_last(s: Seq<char>, c: char)
    ensures
        past_last(s, c) <= s.len(),
        past_last(s, c) > 0 ==> s[past_last(s, c) - 1] == c,
        forall|i: int| past_last(s, c) <= i < s.len() ==> s[i] != c,
    decreases s.len(),
{
    if s.len() > 0 && s.last() != c {
        let t = s.drop_last();
        lemma_past_last(t, c);
        assert forall|i: int| past_last(s, c) <= i < s.len() implies s[i] != c by {
            if i < t.len() {
                assert(s[i] == t[i]);
            }
        }
    }
}

/// Where a `c` has no `c` after it, that is the last.
pub proof fn lemma_past_last_is(s: Seq<char>, c: char, n: nat)
    requires
        n <= s.len(),
        n > 0 ==> s[n - 1] == c,
        forall|i: int| n <= i < s.len() ==> s[i] != c,
    ensures
        past_last(s, c) == n,
{
    lemma_past_last(s, c);
    let m = past_last(s, c);
    if m < n {
        assert(s[n - 1] != c);
    } else if n < m {
        assert(s[m - 1] != c);
    }
}

/// The place of the first `c` at or after `from`, or the length.
pub fn find_char(v: &Vec<char>, from: usize, c: char) -> (r: usize)
    requires
        from <= v@.len(),
    ensures
        r == from + position(v@.skip(from as int), c),
        from <= r <= v@.len(),
{
    let mut i: usize = from;
    while i < v.len() && v[i] != c
        invariant
            from <= i <= v@.len(),
            forall|k: int| from <= k < i ==> v@[k] != c,
        decreases v@.len() - i,
    {
        i = i + 1;
    }
    proof {
        lemma_position_is(v@.skip(from as int), c, (i - from) as nat);
    }
    i
}

/// The text before the first `c`.
pub fn text_before(s: &str, c: char) -> (r: String)
    ensures
        r@ == before(s@, c),
{
    let v = to_chars(s);
    let end: usize = find_char(&v, 0, c);
    proof {
        assert(v@.skip(0) =~= v@);
    }
    substring(&v, 0, end)
}

/// The text after the last `c`.
pub fn text_after_last(s: &str, c: char) -> (r: String)
    ensures
        r@ == after_last(s@, c),
{
    let v = to_chars(s);
    let mut i: usize = v.len();
    while i > 0 && v[i - 1] != c
        invariant
            i <= v@.len(),
            forall|k: int| i <= k < v@.len() ==> v@[k] != c,
        decreases i,
    {
        i = i - 1;
    }
    proof {
        lemma_past_last_is(v@, c, i as nat);
    }
    substring(&v, i, v.len())
}

/// The texts before and after the first `c`, if there is one.
pub fn split_once(s: &str, c: char) -> (r: Option<(String, String)>)
    ensures
        match r {
            Some(p) => cut(s@, c) == Some((p.0@, p.1@)),
            None => cut(s@, c) is None,
        },
{
    let v = to_chars(s);
    let at: usize = find_char(&v, 0, c);
    proof {
        assert(v@.skip(0) =~= v@);
    }
    if at < v.len() {
        Some((substring(&v, 0, at), substring(&v, at + 1, v.len())))
    } else {
        None
    }
}

/// Whether the characters of `v` at `at` are those of `needle`.
fn matches_at(v: &Vec<char>, at: usize, needle: &Vec<char>) -> (r: bool)
    requires
        at + needle@.len() <= v@.len(),
    ensures
        r == (v@.subrange(at as int, at + needle@.len()) == needle@),
{
    let mut i: usize = 0;
    while i < needle.len()
        invariant
            i <= needle@.len(),
            at + needle@.len() <= v@.len(),
            forall|k: int| 0 <= k < i ==> v@[at + k] == needle@[k],
        decreases needle@.len() - i,
    {
        proof {
            assert(v.len() <= usize::MAX);
        }
        if v[at + i] != needle[i] {
            proof {
                assert(v@.subrange(at as int, at + needle@.len())[i as int] == v@[at + i]);
            }
            return false;
        }
        i = i + 1;
    }
    proof {
        assert(v@.subrange(at as int, at + needle@.len()) =~= needle@);
    }
    true
}

/// Whether `needle` occurs in `s`.
pub fn contains(s: &str, needle: &str) -> (r: bool)
    ensures
        r == occurs(s@, needle@),
{
    let v = to_chars(s);
    let n = to_chars(needle);
    if n.len() > v.len() {
        return false;
    }
    let last: usize = v.len() - n.len();
    let mut i: usize = 0;
    while i <= last
        invariant
            v@ == s@,
            n@ == needle@,
            n@.len() <= v@.len(),
            last == v@.len() - n@.len(),
            i <= last + 1,
            forall|k: int| 0 <= k < i ==> #[trigger] v@.subrange(k, k + n@.len()) != n@,
        decreases last + 1 - i,
    {
        if matches_at(&v, i, &n) {
            return true;
        }
        if i == last {
            return false;
        }
        i = i + 1;
    }
    false
}

/// Whether `s` begins with `prefix`.
pub fn starts_with(s: &str, prefix: &str) -> (r: bool)
    ensures
        r == prefix@.is_prefix_of(s@),
{
    let v = to_chars(s);
    let p = to_chars(prefix);
    p.len() <= v.len() && matches_at(&v, 0, &p)
}

/// Whether `s` ends with `suffix`.
pub fn ends_with(s: &str, suffix: &str) -> (r: bool)
    ensures
        r == suffix@.is_suffix_of(s@),
{
    let v = to_chars(s);
    let p = to_chars(suffix);
    proof {
        if p@.len() <= v@.len() {
            assert(v@.subrange(v@.len() - p@.len(), v@.len() - p@.len() + p@.len()) =~= v@.subrange(
                v@.len() - p@.len(),
                v@.len() as int,
            ));
        }
    }
    p.len() <= v.len() && matches_at(&v, v.len() - p.len(), &p)
}

// ---------------------------------------------------------------------------
// Trimming
// ---------------------------------------------------------------------------

/// The characters with the Unicode property `White_Space`.
pub open spec fn white(c: char) -> bool {
    ||| '\u{9}' <= c <= '\u{d}'
    ||| c == ' '
    ||| c == '\u{85}'
    ||| c == '\u{a0}'
    ||| c == '\u{1680}'
    ||| '\u{2000}' <= c <= '\u{200a}'
    ||| c == '\u{2028}'
    ||| c == '\u{2029}'
    ||| c == '\u{202f}'
    ||| c == '\u{205f}'
    ||| c == '\u{3000}'
}

/// `s` without the white space at its start.
pub open spec fn trimmed_start(s: Seq<char>) -> Seq<char>
    decreases s.len(),
{
    if s.len() > 0 && white(s[0]) {
        trimmed_start(s.skip(1))
    } else {
        s
    }
}

/// `s` without the white space at its end.
pub open spec fn trimmed_end(s: Seq<char>) -> Seq<char>
    decreases s.len(),
{
    if s.len() > 0 && white(s.last()) {
        trimmed_end(s.drop_last())
    } else {
        s
    }
}

/// `s` without the white space at either end.
pub open spec fn trimmed(s: Seq<char>) -> Seq<char> {
    trimmed_end(trimmed_start(s))
}

/// `s` without any `c` at its start.
pub open spec fn without_leading(s: Seq<char>, c: char) -> Seq<char>
    decreases s.len(),
{
    if s.len() > 0 && s[0] == c {
        without_leading(s.skip(1), c)
    } else {
        s
    }
}

/// `s` without any `c` at its end.
pub open spec fn without_trailing(s: Seq<char>, c: char) -> Seq<char>
    decreases s.len(),
{
    if s.len() > 0 && s.last() == c {
        without_trailing(s.drop_last(), c)
    } else {
        s
    }
}

/// `s` with every repetition of the non-empty `prefix` taken off its start.
pub open spec fn without_prefix(s: Seq<char>, prefix: Seq<char>) -> Seq<char>
    decreases s.len(),
{
    if prefix.len() > 0 && prefix.is_prefix_of(s) {
        without_prefix(s.skip(prefix.len() as int), prefix)
    } else {
        s
    }
}

/// `s` with every repetition of the non-empty `suffix` taken off its end.
pub open spec fn without_suffix(s: Seq<char>, suffix: Seq<char>) -> Seq<char>
    decreases s.len(),
{
    if suffix.len() > 0 && suffix.is_suffix_of(s) {
        without_suffix(s.take(s.len() - suffix.len()), suffix)
    } else {
        s
    }
}

/// Whether `c` is white space.
pub fn is_white(c: char) -> (r: bool)
    ensures
        r == white(c),
{
    ('\u{9}' <= c && c <= '\u{d}') || c == ' ' || c == '\u{85}' || c == '\u{a0}' || c == '\u{1680}' || (
    '\u{2000}' <= c && c <= '\u{200a}') || c == '\u{2028}' || c == '\u{2029}' || c == '\u{202f}' || c
        == '\u{205f}' || c == '\u{3000}'
}

/// `s` without the white space at either end.
pub fn trim(s: &str) -> (r: String)
    ensures
        r@ == trimmed(s@),
{
    let v = to_chars(s);
    let mut i: usize = 0;
    proof {
        assert(v@.skip(0) =~= v@);
    }
    while i < v.len() && is_white(v[i])
        invariant
            i <= v@.len(),
            trimmed_start(v@) == trimmed_start(v@.skip(i as int)),
        decreases v@.len() - i,
    {
        proof {
            assert(v@.skip(i as int).skip(1) =~= v@.skip(i + 1));
        }
        i = i + 1;
    }
    let ghost t = v@.skip(i as int);
    let mut j: usize = v.len();
    proof {
        assert(t =~= v@.subrange(i as int, j as int));
    }
    while j > i && is_white(v[j - 1])
        invariant
            i <= j <= v@.len(),
            trimmed_end(t) == trimmed_end(v@.subrange(i as int, j as int)),
        decreases j,
    {
        proof {
            assert(v@.subrange(i as int, j as int).drop_last() =~= v@.subrange(i as int, j - 1));
        }
        j = j - 1;
    }
    substring(&v, i, j)
}

/// `s` without any `c` at its start.
pub fn trim_start_char(s: &str, c: char) -> (r: String)
    ensures
        r@ == without_leading(s@, c),
{
    let v = to_chars(s);
    let mut i: usize = 0;
    proof {
        assert(v@.skip(0) =~= v@);
    }
    while i < v.len() && v[i] == c
        invariant
            i <= v@.len(),
            without_leading(v@, c) == without_leading(v@.skip(i as int), c),
        decreases v@.len() - i,
    {
        proof {
            assert(v@.skip(i as int).skip(1) =~= v@.skip(i + 1));
        }
        i = i + 1;
    }
    proof {
        assert(v@.skip(i as int) =~= v@.subrange(i as int, v@.len() as int));
    }
    substring(&v, i, v.len())
}

/// `s` without any `c` at its end.
pub fn trim_end_char(s: &str, c: char) -> (r: String)
    ensures
        r@ == without_trailing(s@, c),
{
    let v = to_chars(s);
    let mut j: usize = v.len();
    proof {
        assert(v@.take(j as int) =~= v@);
    }
    while j > 0 && v[j - 1] == c
        invariant
            j <= v@.len(),
            without_trailing(v@, c) == without_trailing(v@.take(j as int), c),
        decreases j,
    {
        proof {
            assert(v@.take(j as int).drop_last() =~= v@.take(j - 1));
        }
        j = j - 1;
    }
    substring(&v, 0, j)
}

/// `s` with every repetition of the non-empty `prefix` taken off its start.
pub fn trim_start_text(s: &str, prefix: &str) -> (r: String)
    ensures
        r@ == without_prefix(s@, prefix@),
{
    let v = to_chars(s);
    let p = to_chars(prefix);
    if p.len() == 0 {
        return s.to_owned();
    }
    let mut i: usize = 0;
    proof {
        assert(v@.skip(0) =~= v@);
    }
    while v.len() - i >= p.len() && matches_at(&v, i, &p)
        invariant
            i <= v@.len(),
            p@.len() > 0,
            without_prefix(v@, p@) == without_prefix(v@.skip(i as int), p@),
        decreases v@.len() - i,
    {
        proof {
            let t = v@.skip(i as int);
            assert(t.subrange(0, p@.len() as int) =~= v@.subrange(i as int, i + p@.len()));
            assert(t.skip(p@.len() as int) =~= v@.skip(i + p@.len()));
        }
        i = i + p.len();
    }
    proof {
        let t = v@.skip(i as int);
        if p@.is_prefix_of(t) {
            assert(t.subrange(0, p@.len() as int) =~= v@.subrange(i as int, i + p@.len()));
        }
        assert(t =~= v@.subrange(i as int, v@.len() as int));
    }
    substring(&v, i, v.len())
}

/// `s` with every repetition of the non-empty `suffix` taken off its end.
pub fn trim_end_text(s: &str, suffix: &str) -> (r: String)
    ensures
        r@ == without_suffix(s@, suffix@),
{
    let v = to_chars(s);
    let p = to_chars(suffix);
    if p.len() == 0 {
        return s.to_owned();
    }
    let mut j: usize = v.len();
    proof {
        assert(v@.take(j as int) =~= v@);
    }
    while j >= p.len() && matches_at(&v, j - p.len(), &p)
        invariant
            j <= v@.len(),
            p@.len() > 0,
            without_suffix(v@, p@) == without_suffix(v@.take(j as int), p@),
        decreases j,
    {
        proof {
            let t = v@.take(j as int);
            assert(t.subrange(t.len() - p@.len(), t.len() as int) =~= v@.subrange(
                j - p@.len(),
                j - p@.len() + p@.len(),
            ));
            assert(t.take(t.len() - p@.len()) =~= v@.take(j - p@.len()));
        }
        j = j - p.len();
    }
    proof {
        let t = v@.take(j as int);
        if p@.is_suffix_of(t) {
            assert(t.subrange(t.len() - p@.len(), t.len() as int) =~= v@.subrange(
                j - p@.len(),
                j - p@.len() + p@.len(),
            ));
        }
    }
    substring(&v, 0, j)
}

// ---------------------------------------------------------------------------
// Splitting and joining
// ---------------------------------------------------------------------------

/// The pieces of `s` between the occurrences of `c`.
pub open spec fn pieces(s: Seq<char>, c: char) -> Seq<Seq<char>>
    decreases s.len(),
{
    let n = position(s, c) as int;
    if n < s.len() {
        seq![s.take(n)] + pieces(s.skip(n + 1), c)
    } else {
        seq![s]
    }
}

/// The texts of `parts`, one after the other, with `separator` between neighbours.
pub open spec fn joined(parts: Seq<Seq<char>>, separator: Seq<char>) -> Seq<char>
    decreases parts.len(),
{
    if parts.len() == 0 {
        Seq::empty()
    } else if parts.len() == 1 {
        parts[0]
    } else {
        joined(parts.drop_last(), separator) + separator + parts.last()
    }
}

/// The first line of `s`, without its line ending; `None` if `s` is empty.
pub open spec fn first_line(s: Seq<char>) -> Option<Seq<char>> {
    if s.len() == 0 {
        None
    } else {
        let line = before(s, '\n');
        if line.len() < s.len() && line.len() > 0 && line.last() == '\r' {
            Some(line.drop_last())
        } else {
            Some(line)
        }
    }
}

/// The pieces of `s` between the occurrences of `c`.
pub fn split(s: &str, c: char) -> (r: Vec<String>)
    ensures
        views(r@) == pieces(s@, c),
{
    let v = to_chars(s);
    let mut out: Vec<String> = Vec::new();
    let mut start: usize = 0;
    let mut end: usize = find_char(&v, 0, c);
    proof {
        assert(v@.skip(0) =~= v@);
        assert(views(out@) + pieces(v@, c) =~= pieces(v@, c));
    }
    while end < v.len()
        invariant
            start <= end <= v@.len(),
            end == start + position(v@.skip(start as int), c),
            views(out@) + pieces(v@.skip(start as int), c) == pieces(v@, c),
        decreases v@.len() - start,
    {
        let ghost rest = v@.skip(start as int);
        let ghost done = views(out@);
        let piece = substring(&v, start, end);
        proof {
            assert(rest.take(end - start) =~= piece@);
            assert(rest.skip(end - start + 1) =~= v@.skip(end + 1));
        }
        out.push(piece);
        proof {
            assert(views(out@) =~= done.push(piece@));
            assert(done.push(piece@) + pieces(v@.skip(end + 1), c) =~= done + pieces(rest, c));
        }
        start = end + 1;
        end = find_char(&v, start, c);
    }
    let ghost done = views(out@);
    let piece = substring(&v, start, v.len());
    proof {
        assert(v@.skip(start as int) =~= piece@);
    }
    out.push(piece);
    proof {
        assert(views(out@) =~= done + seq![piece@]);
    }
    out
}

/// The texts of `parts`, one after the other, with `separator` between neighbours.
pub fn join(parts: &Vec<String>, separator: &str) -> (r: String)
    ensures
        r@ == joined(views(parts@), separator@),
{
    let mut s = String::new();
    let mut i: usize = 0;
    while i < parts.len()
        invariant
            i <= parts@.len(),
            s@ == joined(views(parts@).take(i as int), separator@),
        decreases parts@.len() - i,
    {
        if i > 0 {
            s.append(separator);
        }
        s.append(parts[i].as_str());
        proof {
            let all = views(parts@);
            assert(all.take(i + 1).drop_last() =~= all.take(i as int));
            assert(all.take(i + 1).last() == parts@[i as int]@);
            if i == 0 {
                assert(s@ =~= all.take(1)[0]);
            }
        }
        i = i + 1;
    }
    proof {
        assert(views(parts@).take(i as int) =~= views(parts@));
    }
    s
}

/// Joining starts with the first of two or more parts.
proof fn lemma_joined(first: Seq<char>, rest: Seq<Seq<char>>, separator: Seq<char>)
    requires
        rest.len() > 0,
    ensures
        joined(seq![first] + rest, separator) == first + separator + joined(rest, separator),
    decreases rest.len(),
{
    let all = seq![first] + rest;
    assert(all.last() == rest.last());
    if rest.len() == 1 {
        assert(all.drop_last() =~= seq![first]);
        assert(joined(all.drop_last(), separator) == first);
    } else {
        lemma_joined(first, rest.drop_last(), separator);
        assert(all.drop_last() =~= seq![first] + rest.drop_last());
        assert(joined(all, separator) =~= first + separator + joined(rest, separator));
    }
}

/// A text is its pieces, joined by the character that they were cut at.
pub proof fn law_join_of_split(s: Seq<char>, c: char)
    ensures
        joined(pieces(s, c), seq![c]) == s,
    decreases s.len(),
{
    lemma_position(s, c);
    let n = position(s, c) as int;
    if n < s.len() {
        let rest = s.skip(n + 1);
        law_join_of_split(rest, c);
        lemma_joined(s.take(n), pieces(rest, c), seq![c]);
        assert(s.take(n) + seq![c] + rest =~= s);
    }
}

/// The first line of `s`, without its line ending; `None` if `s` is empty.
pub fn head_line(s: &str) -> (r: Option<String>)
    ensures
        option_view(r) == first_line(s@),
{
    let v = to_chars(s);
    if v.len() == 0 {
        return None;
    }
    let end: usize = find_char(&v, 0, '\n');
    proof {
        assert(v@.skip(0) =~= v@);
    }
    if end < v.len() && end > 0 && v[end - 1] == '\r' {
        proof {
            assert(before(s@, '\n').drop_last() =~= v@.subrange(0, end - 1));
        }
        Some(substring(&v, 0, end - 1))
    } else {
        Some(substring(&v, 0, end))
    }
}

// ---------------------------------------------------------------------------
// Character by character
// ---------------------------------------------------------------------------

/// `c` with an upper-case ASCII letter made lower-case.
pub open spec fn lower(c: char) -> char {
    if 'A' <= c <= 'Z' {
        (c as u8 + 32) as char
    } else {
        c
    }
}

/// `s` with every upper-case ASCII letter made lower-case.
pub open spec fn lowered(s: Seq<char>) -> Seq<char> {
    s.map_values(|c: char| lower(c))
}

/// `s` with every `c` replaced by the text `with`.
pub open spec fn substituted(s: Seq<char>, c: char, with: Seq<char>) -> Seq<char>
    decreases s.len(),
{
    if s.len() == 0 {
        Seq::empty()
    } else {
        substituted(s.drop_last(), c, with) + if s.last() == c { with } else { seq![s.last()] }
    }
}

/// Replacing goes on from one text to the next.
pub proof fn lemma_substituted_concat(a: Seq<char>, b: Seq<char>, c: char, with: Seq<char>)
    ensures
        substituted(a + b, c, with) == substituted(a, c, with) + substituted(b, c, with),
    decreases b.len(),
{
    if b.len() == 0 {
        assert(a + b =~= a);
        assert(substituted(a, c, with) + substituted(b, c, with) =~= substituted(a, c, with));
    } else {
        lemma_substituted_concat(a, b.drop_last(), c, with);
        assert((a + b).drop_last() =~= a + b.drop_last());
        assert((a + b).last() == b.last());
        assert(substituted(a + b, c, with) =~= substituted(a, c, with) + substituted(b, c, with));
    }
}

/// Replacing starts with the first character.
pub proof fn lemma_substituted_front(s: Seq<char>, c: char, with: Seq<char>)
    requires
        s.len() > 0,
    ensures
        substituted(s, c, with) == (if s[0] == c { with } else { seq![s[0]] }) + substituted(s.skip(1), c, with),
{
    let first = seq![s[0]];
    assert(first + s.skip(1) =~= s);
    lemma_substituted_concat(first, s.skip(1), c, with);
    assert(first.drop_last() =~= Seq::<char>::empty());
    assert(substituted(first.drop_last(), c, with) =~= Seq::<char>::empty());
    assert(substituted(first, c, with) =~= if s[0] == c { with } else { seq![s[0]] });
}

/// A text without the character stays as it is.
pub proof fn lemma_substituted_without(s: Seq<char>, c: char, with: Seq<char>)
    requires
        !s.contains(c),
    ensures
        substituted(s, c, with) == s,
    decreases s.len(),
{
    if s.len() > 0 {
        let rest = s.drop_last();
        assert(!rest.contains(c)) by {
            if rest.contains(c) {
                let i = choose|i: int| 0 <= i < rest.len() && rest[i] == c;
                assert(s[i] == c);
            }
        }
        lemma_substituted_without(rest, c, with);
        assert(s.contains(s.last()));
        assert(rest + seq![s.last()] =~= s);
    } else {
        assert(s =~= Seq::<char>::empty());
    }
}

/// A character that was replaced by a text without it is gone.
pub proof fn law_substituted_is_gone(s: Seq<char>, c: char, with: Seq<char>)
    requires
        !with.contains(c),
    ensures
        !substituted(s, c, with).contains(c),
    decreases s.len(),
{
    if s.len() > 0 {
        law_substituted_is_gone(s.drop_last(), c, with);
        let earlier = substituted(s.drop_last(), c, with);
        let whole = substituted(s, c, with);
        assert forall|i: int| 0 <= i < whole.len() implies #[trigger] whole[i] != c by {
            if i < earlier.len() {
                assert(earlier.contains(earlier[i]));
            } else if s.last() == c {
                assert(with.contains(with[i - earlier.len()]));
            }
        }
    }
}

/// `n` spaces.
pub open spec fn spaces(n: nat) -> Seq<char> {
    Seq::new(n, |i: int| ' ')
}

/// `s`, filled up with spaces to `width` characters where it is shorter.
pub open spec fn padded(s: Seq<char>, width: nat) -> Seq<char> {
    if s.len() < width {
        s + spaces((width - s.len()) as nat)
    } else {
        s
    }
}

/// `s` with every upper-case ASCII letter made lower-case.
pub fn to_lower(s: &str) -> (r: String)
    ensures
        r@ == lowered(s@),
{
    let v = to_chars(s);
    let mut out = String::new();
    let mut i: usize = 0;
    while i < v.len()
        invariant
            i <= v@.len(),
            out@ == lowered(v@.take(i as int)),
        decreases v@.len() - i,
    {
        let c = v[i];
        if 'A' <= c && c <= 'Z' {
            out.push((c as u8 + 32) as char);
        } else {
            out.push(c);
        }
        proof {
            assert(lowered(v@.take(i + 1)) =~= lowered(v@.take(i as int)).push(lower(c)));
        }
        i = i + 1;
    }
    proof {
        assert(v@.take(i as int) =~= v@);
    }
    out
}

/// `s` with every `c` replaced by the text `with`.
pub fn replace_char(s: &str, c: char, with: &str) -> (r: String)
    ensures
        r@ == substituted(s@, c, with@),
{
    let v = to_chars(s);
    let mut out = String::new();
    let mut i: usize = 0;
    while i < v.len()
        invariant
            i <= v@.len(),
            out@ == substituted(v@.take(i as int), c, with@),
        decreases v@.len() - i,
    {
        let ghost before_push = out@;
        if v[i] == c {
            out.append(with);
        } else {
            out.push(v[i]);
        }
        proof {
            assert(v@.take(i + 1).drop_last() =~= v@.take(i as int));
            if v@[i as int] != c {
                assert(out@ =~= before_push + seq![v@[i as int]]);
            }
        }
        i = i + 1;
    }
    proof {
        assert(v@.take(i as int) =~= v@);
    }
    out
}

/// `s`, filled up with spaces to `width` characters where it is shorter.
pub fn pad(s: &str, width: usize) -> (r: String)
    ensures
        r@ == padded(s@, width as nat),
{
    let mut n: usize = to_chars(s).len();
    let mut out = s.to_owned();
    let ghost len = s@.len();
    while n < width
        invariant
            len == s@.len(),
            len <= n,
            n <= width || n == len,
            out@ == s@ + spaces((n - len) as nat),
        decreases width - n,
    {
        out.push(' ');
        n = n + 1;
        proof {
            assert(out@ =~= s@ + spaces((n - len) as nat));
        }
    }
    proof {
        if len >= width {
            assert(out@ =~= s@);
        }
    }
    out
}

// ---------------------------------------------------------------------------
// Decimal numbers
// ---------------------------------------------------------------------------

/// The character of a digit below ten.
pub open spec fn digit(d: nat) -> char {
    (d as u8 + 48) as char
}

/// The decimal digits of `n`.
pub open spec fn decimal(n: nat) -> Seq<char>
    decreases n,
{
    if n < 10 {
        seq![digit(n)]
    } else {
        decimal(n / 10).push(digit(n % 10))
    }
}

/// The number that a sequence of digits stands for.
pub open spec fn number(s: Seq<char>) -> nat
    decreases s.len(),
{
    if s.len() == 0 {
        0
    } else {
        10 * number(s.drop_last()) + ((s.last() as int) - 48) as nat
    }
}

pub open spec fn is_digit(c: char) -> bool {
    '0' <= c <= '9'
}

pub open spec fn all_digits(s: Seq<char>) -> bool {
    forall|i: int| 0 <= i < s.len() ==> is_digit(#[trigger] s[i])
}

/// The unsigned 64-bit number that `s` spells: digits, at least one, after an optional
/// `+`. `None` where `s` spells none or one that is too large.
pub open spec fn parsed_u64(s: Seq<char>) -> Option<u64> {
    let digits = if s.len() > 0 && s[0] == '+' { s.skip(1) } else { s };
    if digits.len() > 0 && all_digits(digits) && number(digits) <= u64::MAX {
        Some(number(digits) as u64)
    } else {
        None
    }
}

/// The decimal digits of a number are digits, and stand for that number.
pub proof fn lemma_decimal(n: nat)
    ensures
        decimal(n).len() > 0,
        all_digits(decimal(n)),
        number(decimal(n)) == n,
    decreases n,
{
    reveal_with_fuel(number, 2);
    if n < 10 {
        assert(decimal(n).drop_last() =~= Seq::<char>::empty());
        assert(digit(n) as int == n + 48);
    } else {
        lemma_decimal(n / 10);
        assert(digit(n % 10) as int == n % 10 + 48);
        assert(decimal(n).drop_last() =~= decimal(n / 10));
        assert forall|i: int| 0 <= i < decimal(n).len() implies is_digit(#[trigger] decimal(n)[i]) by {
            if i < decimal(n / 10).len() {
                assert(decimal(n)[i] == decimal(n / 10)[i]);
            }
        }
    }
}

/// Reading back the digits that are written for a number gives that number.
pub proof fn law_parse_of_decimal(n: u64)
    ensures
        parsed_u64(decimal(n as nat)) == Some(n),
{
    lemma_decimal(n as nat);
    assert(is_digit(decimal(n as nat)[0]));
}

/// A digit sequence stands for at least as much as any of its prefixes.
proof fn lemma_number_grows(s: Seq<char>, k: int)
    requires
        0 <= k <= s.len(),
    ensures
        number(s.take(k)) <= number(s),
    decreases s.len(),
{
    if k < s.len() {
        assert(s.drop_last().take(k) =~= s.take(k));
        lemma_number_grows(s.drop_last(), k);
    } else {
        assert(s.take(k) =~= s);
    }
}

/// The decimal digits of `n`.
pub fn show_u64(n: u64) -> (r: String)
    ensures
        r@ == decimal(n as nat),
    decreases n,
{
    let d: u8 = (n % 10) as u8;
    let c: char = (d + 48) as char;
    let mut s = if n < 10 {
        String::new()
    } else {
        show_u64(n / 10)
    };
    s.push(c);
    proof {
        if n < 10 {
            assert(s@ =~= seq![digit(n as nat)]);
        }
    }
    s
}

/// The unsigned 64-bit number that `s` spells, if it spells one.
pub fn parse_u64(s: &str) -> (r: Option<u64>)
    ensures
        r == parsed_u64(s@),
{
    let v = to_chars(s);
    let start: usize = if v.len() > 0 && v[0] == '+' {
        1
    } else {
        0
    };
    let ghost digits = v@.skip(start as int);
    proof {
        assert(v@.skip(0) =~= v@);
    }
    if start == v.len() {
        return None;
    }
    let mut n: u64 = 0;
    let mut i: usize = start;
    while i < v.len()
        invariant
            start <= i <= v@.len(),
            digits == v@.skip(start as int),
            parsed_u64(s@) == if all_digits(digits) && number(digits) <= u64::MAX {
                Some(number(digits) as u64)
            } else {
                None
            },
            all_digits(digits.take(i - start)),
            n == number(digits.take(i - start)),
        decreases v@.len() - i,
    {
        let c = v[i];
        proof {
            assert(digits[i - start] == c);
        }
        if !('0' <= c && c <= '9') {
            proof {
                assert(!is_digit(digits[i - start]));
            }
            return None;
        }
        let d: u64 = (c as u8 - 48) as u64;
        proof {
            let next = digits.take(i + 1 - start);
            assert(next.drop_last() =~= digits.take(i - start));
            assert(number(next) == 10 * n + d);
            lemma_number_grows(digits, i + 1 - start);
            assert forall|k: int| 0 <= k < next.len() implies is_digit(#[trigger] next[k]) by {
                if k < i - start {
                    assert(next[k] == digits.take(i - start)[k]);
                }
            }
        }
        if n > (u64::MAX - d) / 10 {
            proof {
                assert(10 * n + d > u64::MAX);
            }
            return None;
        }
        n = n * 10 + d;
        i = i + 1;
    }
    proof {
        assert(digits.take(i - start) =~= digits);
    }
    Some(n)
}

// ---------------------------------------------------------------------------
// Laws
// ---------------------------------------------------------------------------

/// A text is cut exactly where it holds the character. What stands before the cut holds none,
/// and the two parts with the character between them are the text.
pub proof fn law_cut(s: Seq<char>, c: char)
    ensures
        cut(s, c) is Some <==> s.contains(c),
        cut(s, c) matches Some((a, b)) ==> s == a + seq![c] + b && !a.contains(c),
{
    lemma_position(s, c);
    let n = position(s, c) as int;
    if n < s.len() {
        assert(s[n] == c);
        assert(s =~= s.take(n) + seq![c] + s.skip(n + 1));
    }
}

/// What stands before the first of a character is a beginning of the text that holds none, and
/// either the character follows or nothing does.
pub proof fn law_before(s: Seq<char>, c: char)
    ensures
        before(s, c).is_prefix_of(s),
        !before(s, c).contains(c),
        before(s, c).len() < s.len() ==> s[before(s, c).len() as int] == c,
{
    lemma_position(s, c);
}

/// What stands after the last of a character is an end of the text that holds none, and either
/// the character stands before it or nothing does.
pub proof fn law_after_last(s: Seq<char>, c: char)
    ensures
        after_last(s, c).is_suffix_of(s),
        !after_last(s, c).contains(c),
        after_last(s, c).len() < s.len() ==> s[s.len() - after_last(s, c).len() - 1] == c,
{
    lemma_past_last(s, c);
}

/// Blanks, tabs and line ends are white space, and no visible ASCII character is; beyond ASCII
/// the next line, the spaces of all widths and the separators of lines and paragraphs are.
pub proof fn law_white(c: char)
    ensures
        c == ' ' || c == '\t' || c == '\n' || c == '\r' ==> white(c),
        '!' <= c <= '~' ==> !white(c),
        white(c) <==> {
            let n = c as int;
            ||| 9 <= n <= 13 || n == 32
            ||| n == 133 || n == 160 || n == 5760
            ||| 8192 <= n <= 8202
            ||| n == 8232 || n == 8233 || n == 8239 || n == 8287
            ||| n == 12288
        },
{
}

proof fn lemma_trimmed_start(s: Seq<char>)
    ensures
        trimmed_start(s).len() <= s.len(),
        trimmed_start(s) == s.skip(s.len() - trimmed_start(s).len()),
        forall|i: int| 0 <= i < s.len() - trimmed_start(s).len() ==> white(#[trigger] s[i]),
        trimmed_start(s).len() > 0 ==> !white(trimmed_start(s)[0]),
    decreases s.len(),
{
    if s.len() > 0 && white(s[0]) {
        let t = s.skip(1);
        lemma_trimmed_start(t);
        let k = t.len() - trimmed_start(t).len();
        assert(t.skip(k) =~= s.skip(k + 1));
        assert forall|i: int| 0 <= i < k + 1 implies white(#[trigger] s[i]) by {
            if i > 0 {
                assert(s[i] == t[i - 1]);
            }
        }
    } else {
        assert(s.skip(0) =~= s);
    }
}

proof fn lemma_trimmed_end(s: Seq<char>)
    ensures
        trimmed_end(s).len() <= s.len(),
        trimmed_end(s) == s.take(trimmed_end(s).len() as int),
        forall|i: int| trimmed_end(s).len() <= i < s.len() ==> white(#[trigger] s[i]),
        trimmed_end(s).len() > 0 ==> !white(trimmed_end(s).last()),
    decreases s.len(),
{
    if s.len() > 0 && white(s.last()) {
        let t = s.drop_last();
        lemma_trimmed_end(t);
        let k = trimmed_end(t).len() as int;
        assert(t.take(k) =~= s.take(k));
        assert forall|i: int| k <= i < s.len() implies white(#[trigger] s[i]) by {
            if i < t.len() {
                assert(s[i] == t[i]);
            }
        }
    } else {
        assert(s.take(s.len() as int) =~= s);
    }
}

/// Trimming takes white space off both ends, all of it, and nothing else: a text is some white
/// space, the trimmed text and some white space, and the trimmed text neither begins nor ends
/// with any.
pub proof fn law_trimmed(s: Seq<char>)
    ensures
        exists|a: Seq<char>, b: Seq<char>|
            s == #[trigger] (a + trimmed(s) + b) && (forall|i: int| 0 <= i < a.len() ==> white(#[trigger] a[i]))
                && forall|i: int| 0 <= i < b.len() ==> white(#[trigger] b[i]),
        trimmed(s).len() > 0 ==> !white(trimmed(s)[0]) && !white(trimmed(s).last()),
{
    let t = trimmed_start(s);
    lemma_trimmed_start(s);
    lemma_trimmed_end(t);
    let k = s.len() - t.len();
    let n = trimmed(s).len() as int;
    let a = s.take(k);
    let b = s.skip(k + n);
    assert forall|i: int| 0 <= i < b.len() implies white(#[trigger] b[i]) by {
        assert(b[i] == t[n + i]);
    }
    assert forall|i: int| 0 <= i < a.len() implies white(#[trigger] a[i]) by {
        assert(a[i] == s[i]);
    }
    assert(s =~= a + trimmed(s) + b);
    if n > 0 {
        assert(trimmed(s)[0] == t[0]);
    }
}

/// Taking a character off the start of a text takes all of it off there, and nothing else.
pub proof fn law_without_leading(s: Seq<char>, c: char)
    ensures
        without_leading(s, c).is_suffix_of(s),
        forall|i: int| 0 <= i < s.len() - without_leading(s, c).len() ==> #[trigger] s[i] == c,
        without_leading(s, c).len() > 0 ==> without_leading(s, c)[0] != c,
    decreases s.len(),
{
    if s.len() > 0 && s[0] == c {
        let t = s.skip(1);
        law_without_leading(t, c);
        let rest = without_leading(t, c);
        assert(s.subrange(s.len() - rest.len(), s.len() as int) =~= t.subrange(
            t.len() - rest.len(),
            t.len() as int,
        ));
        assert forall|i: int| 0 <= i < s.len() - rest.len() implies #[trigger] s[i] == c by {
            if i > 0 {
                assert(s[i] == t[i - 1]);
            }
        }
    } else {
        assert(s.subrange(0, s.len() as int) =~= s);
    }
}

/// Taking a character off the end of a text takes all of it off there, and nothing else.
pub proof fn law_without_trailing(s: Seq<char>, c: char)
    ensures
        without_trailing(s, c).is_prefix_of(s),
        forall|i: int| without_trailing(s, c).len() <= i < s.len() ==> #[trigger] s[i] == c,
        without_trailing(s, c).len() > 0 ==> without_trailing(s, c).last() != c,
    decreases s.len(),
{
    if s.len() > 0 && s.last() == c {
        let t = s.drop_last();
        law_without_trailing(t, c);
        let rest = without_trailing(t, c);
        assert(s.subrange(0, rest.len() as int) =~= t.subrange(0, rest.len() as int));
        assert forall|i: int| rest.len() <= i < s.len() implies #[trigger] s[i] == c by {
            if i < t.len() {
                assert(s[i] == t[i]);
            }
        }
    } else {
        assert(s.subrange(0, s.len() as int) =~= s);
    }
}

/// A prefix in front of a text makes no difference once it is taken off, and a text that does
/// not begin with it stays as it is.
pub proof fn law_without_prefix(s: Seq<char>, prefix: Seq<char>)
    ensures
        without_prefix(prefix + s, prefix) == without_prefix(s, prefix),
        !prefix.is_prefix_of(s) ==> without_prefix(s, prefix) == s,
        prefix.len() > 0 ==> !prefix.is_prefix_of(without_prefix(s, prefix)),
    decreases s.len(),
{
    let longer = prefix + s;
    if prefix.len() > 0 {
        assert(longer.subrange(0, prefix.len() as int) =~= prefix);
        assert(longer.skip(prefix.len() as int) =~= s);
        if prefix.is_prefix_of(s) {
            law_without_prefix(s.skip(prefix.len() as int), prefix);
        }
    } else {
        assert(longer =~= s);
    }
}

/// A suffix behind a text makes no difference once it is taken off, and a text that does not
/// end with it stays as it is.
pub proof fn law_without_suffix(s: Seq<char>, suffix: Seq<char>)
    ensures
        without_suffix(s + suffix, suffix) == without_suffix(s, suffix),
        !suffix.is_suffix_of(s) ==> without_suffix(s, suffix) == s,
        suffix.len() > 0 ==> !suffix.is_suffix_of(without_suffix(s, suffix)),
    decreases s.len(),
{
    let longer = s + suffix;
    if suffix.len() > 0 {
        assert(longer.subrange(longer.len() - suffix.len(), longer.len() as int) =~= suffix);
        assert(longer.take(longer.len() - suffix.len()) =~= s);
        if suffix.is_suffix_of(s) {
            law_without_suffix(s.take(s.len() - suffix.len()), suffix);
        }
    } else {
        assert(longer =~= s);
    }
}

/// The pieces of a text hold none of the character that they were cut at, and there is at least
/// one.
pub proof fn law_pieces_hold_no_separator(s: Seq<char>, c: char)
    ensures
        pieces(s, c).len() > 0,
        forall|i: int| 0 <= i < pieces(s, c).len() ==> !(#[trigger] pieces(s, c)[i]).contains(c),
    decreases s.len(),
{
    lemma_position(s, c);
    let n = position(s, c) as int;
    if n < s.len() {
        let rest = pieces(s.skip(n + 1), c);
        law_pieces_hold_no_separator(s.skip(n + 1), c);
        assert forall|i: int| 0 <= i < pieces(s, c).len() implies !(#[trigger] pieces(s, c)[i]).contains(c) by {
            if i > 0 {
                assert(pieces(s, c)[i] == rest[i - 1]);
            }
        }
    }
}

/// Joining puts the separator between neighbours and nowhere else: one part stays as it is, and
/// a further part comes behind a separator.
pub proof fn law_joined(parts: Seq<Seq<char>>, separator: Seq<char>, last: Seq<char>)
    ensures
        joined(Seq::empty(), separator) == Seq::<char>::empty(),
        joined(seq![last], separator) == last,
        parts.len() > 0 ==> joined(parts.push(last), separator) == joined(parts, separator) + separator + last,
{
    if parts.len() > 0 {
        assert(parts.push(last).drop_last() =~= parts);
    }
}

/// The first line of a text holds no line feed. The text goes on with a line end, or ends. Only
/// an empty text has no first line.
pub proof fn law_first_line(s: Seq<char>)
    ensures
        first_line(s) is None <==> s.len() == 0,
        first_line(s) matches Some(line) ==> {
            &&& line.is_prefix_of(s)
            &&& !line.contains('\n')
            &&& {
                ||| line == s
                ||| s[line.len() as int] == '\n'
                ||| line.len() + 1 < s.len() && s[line.len() as int] == '\r' && s[line.len() as int + 1] == '\n'
            }
        },
        s.len() > 1 && s[0] == '\r' && s[1] == '\n' ==> first_line(s) == Some(Seq::<char>::empty()),
{
    if s.len() > 0 {
        lemma_position(s, '\n');
        let n = position(s, '\n') as int;
        if n == s.len() {
            assert(s.take(n) =~= s);
        }
        if let Some(line) = first_line(s) {
            assert(s.subrange(0, line.len() as int) =~= line);
        }
        if s.len() > 1 && s[0] == '\r' && s[1] == '\n' {
            lemma_position_is(s, '\n', 1);
            assert(s.take(1).drop_last() =~= Seq::<char>::empty());
        }
    }
}

/// Making a text lower-case leaves no upper-case ASCII letter, turns each into its small one,
/// and leaves everything else.
pub proof fn law_lowered(s: Seq<char>)
    ensures
        lowered(s).len() == s.len(),
        forall|i: int|
            0 <= i < s.len() ==> {
                &&& !('A' <= #[trigger] lowered(s)[i] <= 'Z')
                &&& 'A' <= s[i] <= 'Z' ==> lowered(s)[i] as int == s[i] as int + 32
                &&& !('A' <= s[i] <= 'Z') ==> lowered(s)[i] == s[i]
            },
{
}

/// Replacing a character is cutting at it and joining with the text in its place.
pub proof fn law_substituted_joins_pieces(s: Seq<char>, c: char, with: Seq<char>)
    ensures
        substituted(s, c, with) == joined(pieces(s, c), with),
    decreases s.len(),
{
    lemma_position(s, c);
    let n = position(s, c) as int;
    if n < s.len() {
        let first = s.take(n);
        let rest = s.skip(n + 1);
        assert(s =~= first + (seq![c] + rest));
        assert(!first.contains(c));
        law_substituted_joins_pieces(rest, c, with);
        law_pieces_hold_no_separator(rest, c);
        lemma_substituted_concat(first, seq![c] + rest, c, with);
        lemma_substituted_without(first, c, with);
        lemma_substituted_front(seq![c] + rest, c, with);
        assert((seq![c] + rest).skip(1) =~= rest);
        lemma_joined(first, pieces(rest, c), with);
        assert(first + (with + substituted(rest, c, with)) =~= first + with + joined(pieces(rest, c), with));
    } else {
        assert(!s.contains(c));
        lemma_substituted_without(s, c, with);
    }
}

/// A padded text begins with the text, goes on with spaces and is as wide as asked for, or as
/// the text where that is wider.
pub proof fn law_padded(s: Seq<char>, width: nat)
    ensures
        s.is_prefix_of(padded(s, width)),
        padded(s, width).len() == if s.len() < width { width } else { s.len() },
        forall|i: int| s.len() <= i < padded(s, width).len() ==> #[trigger] padded(s, width)[i] == ' ',
{
    assert(padded(s, width).subrange(0, s.len() as int) =~= s);
}

/// A number is written without leading zeros, and different numbers are written differently.
pub proof fn law_decimal(n: nat, other: nat)
    ensures
        decimal(n).len() > 1 ==> decimal(n)[0] != '0',
        decimal(n) == decimal(other) ==> n == other,
    decreases n,
{
    lemma_decimal(n);
    lemma_decimal(other);
    if n >= 10 {
        law_decimal(n / 10, 0);
        lemma_decimal(n / 10);
        if n / 10 < 10 {
            assert(digit(n / 10) as int == n / 10 + 48);
        } else {
            lemma_decimal(n / 10 / 10);
        }
        assert(decimal(n)[0] == decimal(n / 10)[0]);
    }
}

/// What can be read as a number consists of digits, behind a plus sign or not. Leading zeros and
/// the plus sign make no difference.
pub proof fn law_parsed_u64(s: Seq<char>)
    ensures
        parsed_u64(s) is Some ==> s.len() > 0 && is_digit(s.last()) && (is_digit(s[0]) || s[0] == '+') && forall|i: int|
            0 < i < s.len() ==> is_digit(#[trigger] s[i]),
        s.len() > 0 && s[0] != '+' ==> parsed_u64(seq!['+'] + s) == parsed_u64(s) && parsed_u64(seq!['0'] + s)
            == parsed_u64(s),
{
    if parsed_u64(s) is Some {
        let digits = if s[0] == '+' { s.skip(1) } else { s };
        assert forall|i: int| 0 < i < s.len() implies is_digit(#[trigger] s[i]) by {
            if s[0] == '+' {
                assert(is_digit(digits[i - 1]));
            } else {
                assert(is_digit(digits[i]));
            }
        }
        assert(is_digit(digits[digits.len() - 1]));
        assert(is_digit(digits[0]));
    }
    if s.len() > 0 && s[0] != '+' {
        let signed = seq!['+'] + s;
        let longer = seq!['0'] + s;
        assert(signed.skip(1) =~= s);
        lemma_leading_zero(s);
        assert(all_digits(longer) <==> all_digits(s)) by {
            if all_digits(longer) {
                assert forall|i: int| 0 <= i < s.len() implies is_digit(#[trigger] s[i]) by {
                    assert(is_digit(longer[i + 1]));
                }
            }
            if all_digits(s) {
                assert forall|i: int| 0 <= i < longer.len() implies is_digit(#[trigger] longer[i]) by {
                    if i > 0 {
                        assert(is_digit(s[i - 1]));
                    }
                }
            }
        }
    }
}

proof fn lemma_leading_zero(s: Seq<char>)
    ensures
        number(seq!['0'] + s) == number(s),
    decreases s.len(),
{
    let longer = seq!['0'] + s;
    if s.len() > 0 {
        lemma_leading_zero(s.drop_last());
        assert(longer.drop_last() =~= seq!['0'] + s.drop_last());
    } else {
        assert(longer.drop_last() =~= Seq::<char>::empty());
        assert(number(longer.drop_last()) == 0);
    }
}

/// A number that does not fit into 64 bits is not read.
pub proof fn law_too_large_is_not_read(n: nat)
    ensures
        parsed_u64(decimal(n)) is Some <==> n <= u64::MAX,
{
    lemma_decimal(n);
    assert(is_digit(decimal(n)[0]));
}

/// A text that is put behind another ends it.
pub proof fn lemma_suffix(a: Seq<char>, b: Seq<char>)
    ensures
        b.is_suffix_of(a + b),
{
    let whole = a + b;
    assert(whole.subrange(whole.len() - b.len(), whole.len() as int) =~= b);
}

/// White space round a text makes no difference once it is trimmed, and a text without any at
/// its ends stays as it is.
pub proof fn law_trimmed_ignores_white_space(a: Seq<char>, s: Seq<char>, b: Seq<char>)
    requires
        forall|i: int| 0 <= i < a.len() ==> white(#[trigger] a[i]),
        forall|i: int| 0 <= i < b.len() ==> white(#[trigger] b[i]),
    ensures
        trimmed(a + s + b) == trimmed(s),
        s.len() > 0 && !white(s[0]) && !white(s.last()) ==> trimmed(s) == s,
{
    assert(a + s + b =~= a + (s + b));
    lemma_leading_white(a, s + b);
    lemma_trimmed_start(s);
    if trimmed_start(s).len() == 0 {
        lemma_leading_white(s, b);
        lemma_leading_white(b, Seq::empty());
        assert(b + Seq::<char>::empty() =~= b);
        assert(trimmed_start(Seq::<char>::empty()) =~= Seq::<char>::empty());
    } else {
        let k = s.len() - trimmed_start(s).len();
        let rest = trimmed_start(s);
        assert(s + b =~= s.take(k) + (rest + b));
        assert forall|i: int| 0 <= i < s.take(k).len() implies white(#[trigger] s.take(k)[i]) by {
            assert(white(s[i]));
        }
        lemma_leading_white(s.take(k), rest + b);
        assert((rest + b)[0] == rest[0]);
        lemma_trailing_white(rest, b);
    }
}

proof fn lemma_leading_white(a: Seq<char>, s: Seq<char>)
    requires
        forall|i: int| 0 <= i < a.len() ==> white(#[trigger] a[i]),
    ensures
        trimmed_start(a + s) == trimmed_start(s),
    decreases a.len(),
{
    if a.len() > 0 {
        assert((a + s)[0] == a[0]);
        assert((a + s).skip(1) =~= a.skip(1) + s);
        assert forall|i: int| 0 <= i < a.skip(1).len() implies white(#[trigger] a.skip(1)[i]) by {
            assert(white(a[i + 1]));
        }
        lemma_leading_white(a.skip(1), s);
    } else {
        assert(a + s =~= s);
    }
}

proof fn lemma_trailing_white(s: Seq<char>, b: Seq<char>)
    requires
        forall|i: int| 0 <= i < b.len() ==> white(#[trigger] b[i]),
    ensures
        trimmed_end(s + b) == trimmed_end(s),
    decreases b.len(),
{
    if b.len() > 0 {
        assert((s + b).last() == b[b.len() - 1]);
        assert((s + b).drop_last() =~= s + b.drop_last());
        lemma_trailing_white(s, b.drop_last());
    } else {
        assert(s + b =~= s);
    }
}

/// A text without the character, put behind another with the character between them, is one more
/// piece; alone, it is the only one.
pub proof fn law_pieces_of_joined(s: Seq<char>, last: Seq<char>, c: char)
    requires
        !last.contains(c),
    ensures
        pieces(last, c) == seq![last],
        pieces(s + seq![c] + last, c) == pieces(s, c).push(last),
    decreases s.len(),
{
    lemma_position_is(last, c, last.len());
    assert(pieces(last, c) =~= seq![last]);
    lemma_position(s, c);
    let n = position(s, c);
    let whole = s + seq![c] + last;
    lemma_position_is(whole, c, n);
    if n < s.len() {
        let rest = s.skip(n as int + 1);
        law_pieces_of_joined(rest, last, c);
        assert(whole.take(n as int) =~= s.take(n as int));
        assert(whole.skip(n as int + 1) =~= rest + seq![c] + last);
        assert(pieces(whole, c) =~= pieces(s, c).push(last));
    } else {
        assert(whole.take(n as int) =~= s);
        assert(whole.skip(n as int + 1) =~= last);
        assert(pieces(whole, c) =~= seq![s].push(last));
    }
}

/// A text occurs wherever it stands between two others, and only there: what occurs in a text
/// cuts it into what stands before it, itself, and what stands behind it.
pub proof fn law_occurs(before: Seq<char>, needle: Seq<char>, after: Seq<char>, s: Seq<char>)
    ensures
        occurs(before + needle + after, needle),
        occurs(s, needle) ==> exists|a: Seq<char>, b: Seq<char>| s == #[trigger] (a + needle + b),
        s.len() < needle.len() ==> !occurs(s, needle),
{
    let whole = before + needle + after;
    let at = before.len() as int;
    assert(whole.subrange(at, at + needle.len()) =~= needle);
    if occurs(s, needle) {
        let i = choose|i: int|
            0 <= i <= s.len() - needle.len() && #[trigger] s.subrange(i, i + needle.len()) == needle;
        assert(s =~= s.take(i) + needle + s.skip(i + needle.len()));
    }
}

/// A list of texts, and one of pairs, stands for its texts, one for one and in order.
pub proof fn law_views(list: Seq<String>, pairs: Seq<(String, String)>, s: String)
    ensures
        views(list).len() == list.len(),
        forall|i: int| 0 <= i < list.len() ==> #[trigger] views(list)[i] == list[i]@,
        pair_views(pairs).len() == pairs.len(),
        forall|i: int|
            0 <= i < pairs.len() ==> (#[trigger] pair_views(pairs)[i]).0 == pairs[i].0@ && pair_views(pairs)[i].1
                == pairs[i].1@,
        option_view(Some(s)) == Some(s@),
        option_view(None) is None,
{
}

} // verus!
