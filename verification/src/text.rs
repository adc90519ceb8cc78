//! Plain text: searching, splitting and joining.

use vstd::prelude::*;
use vstd::string::*;
use vstd::utf8::is_ascii_chars;

verus! {

/// `String::push`: appends one character to the end of the string.
pub assume_specification[ String::push ](s: &mut String, c: char)
    ensures
        final(s)@ == old(s)@.push(c),
;

// ---------------------------------------------------------------------------
// Characters
// ---------------------------------------------------------------------------

/// The characters with the Unicode property `White_Space`.
pub open spec fn is_white_space(c: char) -> bool {
    let n = c as u32;
    ||| 0x09 <= n <= 0x0d
    ||| n == 0x20
    ||| n == 0x85
    ||| n == 0xa0
    ||| n == 0x1680
    ||| 0x2000 <= n <= 0x200a
    ||| n == 0x2028
    ||| n == 0x2029
    ||| n == 0x202f
    ||| n == 0x205f
    ||| n == 0x3000
}

/// Whether `c` is white space.
pub fn white_space(c: char) -> (r: bool)
    ensures
        r == is_white_space(c),
{
    let n: u32 = c as u32;
    (0x09 <= n && n <= 0x0d) || n == 0x20 || n == 0x85 || n == 0xa0 || n == 0x1680 || (0x2000 <= n
        && n <= 0x200a) || n == 0x2028 || n == 0x2029 || n == 0x202f || n == 0x205f || n == 0x3000
}

/// The characters of `s`, in order.
pub fn chars_of(s: &str) -> (r: Vec<char>)
    ensures
        r@ == s@,
{
    let mut chars: Vec<char> = Vec::new();
    for c in it: s.chars()
        invariant
            it.seq() == s@,
            chars@ == s@.take(it.index() as int),
    {
        proof {
            assert(s@.take(it.index() as int + 1) =~= s@.take(it.index() as int).push(c));
        }
        chars.push(c);
    }
    assert(s@.take(s@.len() as int) =~= s@);
    chars
}

/// The characters of `chars` from `from` up to `to`, as a string.
pub fn text_between(chars: &Vec<char>, from: usize, to: usize) -> (r: String)
    requires
        from <= to <= chars@.len(),
    ensures
        r@ == chars@.subrange(from as int, to as int),
{
    let mut out = String::new();
    let mut i: usize = from;
    while i < to
        invariant
            from <= i <= to <= chars@.len(),
            out@ == chars@.subrange(from as int, i as int),
        decreases to - i,
    {
        out.push(chars[i]);
        i = i + 1;
        assert(chars@.subrange(from as int, i as int) =~= chars@.subrange(
            from as int,
            i as int - 1,
        ).push(chars@[i as int - 1]));
    }
    out
}

/// Whether the two texts are the same.
pub fn same_text(a: &str, b: &str) -> (r: bool)
    ensures
        r == (a@ == b@),
{
    a.to_owned() == b.to_owned()
}

/// The two texts, one after the other.
pub fn concat2(a: &str, b: &str) -> (r: String)
    ensures
        r@ == a@ + b@,
{
    let mut out = a.to_owned();
    out.append(b);
    out
}

/// The three texts, one after the other.
pub fn concat3(a: &str, b: &str, c: &str) -> (r: String)
    ensures
        r@ == a@ + b@ + c@,
{
    let mut out = concat2(a, b);
    out.append(c);
    out
}

/// The four texts, one after the other.
pub fn concat4(a: &str, b: &str, c: &str, d: &str) -> (r: String)
    ensures
        r@ == a@ + b@ + c@ + d@,
{
    let mut out = concat3(a, b, c);
    out.append(d);
    out
}

/// The five texts, one after the other.
pub fn concat5(a: &str, b: &str, c: &str, d: &str, e: &str) -> (r: String)
    ensures
        r@ == a@ + b@ + c@ + d@ + e@,
{
    let mut out = concat4(a, b, c, d);
    out.append(e);
    out
}

/// A copy of a list of strings.
pub fn copy_of(list: &Vec<String>) -> (r: Vec<String>)
    ensures
        r.deep_view() == list.deep_view(),
{
    let mut out: Vec<String> = Vec::new();
    let mut i: usize = 0;
    while i < list.len()
        invariant
            i <= list@.len(),
            out@.len() == i,
            forall|k: int| 0 <= k < i ==> (#[trigger] out@[k])@ == list@[k]@,
        decreases list@.len() - i,
    {
        out.push(list[i].clone());
        i = i + 1;
    }
    assert(out.deep_view() =~= list.deep_view());
    out
}

// ---------------------------------------------------------------------------
// Searching and splitting
// ---------------------------------------------------------------------------

/// The index of the first `c` in `s` at or after `from`, or the length of `s`
/// if there is none.
pub open spec fn first_index(s: Seq<char>, c: char, from: int) -> int
    decreases s.len() - from,
{
    if from >= s.len() {
        s.len() as int
    } else if s[from] == c {
        from
    } else {
        first_index(s, c, from + 1)
    }
}

pub proof fn lemma_first_index(s: Seq<char>, c: char, from: int)
    requires
        0 <= from <= s.len(),
    ensures
        from <= first_index(s, c, from) <= s.len(),
        first_index(s, c, from) < s.len() ==> s[first_index(s, c, from)] == c,
        forall|i: int| from <= i < first_index(s, c, from) ==> s[i] != c,
    decreases s.len() - from,
{
    if from < s.len() && s[from] != c {
        lemma_first_index(s, c, from + 1);
    }
}

/// Where the first `c` at or after `from` stands.
pub fn find_char(chars: &Vec<char>, c: char, from: usize) -> (r: usize)
    requires
        from <= chars@.len(),
    ensures
        r == first_index(chars@, c, from as int),
        from <= r <= chars@.len(),
{
    let mut i: usize = from;
    while i < chars.len() && chars[i] != c
        invariant
            from <= i <= chars@.len(),
            first_index(chars@, c, from as int) == first_index(chars@, c, i as int),
        decreases chars@.len() - i,
    {
        i = i + 1;
    }
    i
}

/// The text without the slashes that it starts with.
pub open spec fn without_leading_slashes(s: Seq<char>) -> Seq<char>
    decreases s.len(),
{
    if s.len() > 0 && s[0] == '/' {
        without_leading_slashes(s.skip(1))
    } else {
        s
    }
}

/// Removes every slash that `s` starts with.
pub fn trim_leading_slashes(s: &str) -> (r: String)
    ensures
        r@ == without_leading_slashes(s@),
{
    let chars = chars_of(s);
    let mut i: usize = 0;
    assert(chars@.skip(0) =~= chars@);
    while i < chars.len() && chars[i] == '/'
        invariant
            i <= chars@.len(),
            chars@ == s@,
            without_leading_slashes(s@) == without_leading_slashes(chars@.skip(i as int)),
        decreases chars@.len() - i,
    {
        assert(chars@.skip(i as int).skip(1) =~= chars@.skip(i as int + 1));
        i = i + 1;
    }
    let n = chars.len();
    assert(chars@.subrange(i as int, n as int) =~= chars@.skip(i as int));
    text_between(&chars, i, n)
}

/// What is left of `s` behind `prefix`, where `s` starts with it.
pub open spec fn after_prefix(s: Seq<char>, prefix: Seq<char>) -> Option<Seq<char>> {
    if prefix.len() <= s.len() && s.take(prefix.len() as int) == prefix {
        Some(s.skip(prefix.len() as int))
    } else {
        None
    }
}

/// Removes `prefix` from the start of `s`, if `s` starts with it.
pub fn strip_text_prefix(s: &str, prefix: &str) -> (r: Option<String>)
    ensures
        r.deep_view() == after_prefix(s@, prefix@),
{
    let chars = chars_of(s);
    let head = chars_of(prefix);
    if head.len() > chars.len() {
        return None;
    }
    let mut i: usize = 0;
    while i < head.len()
        invariant
            i <= head@.len() <= chars@.len(),
            chars@ == s@,
            head@ == prefix@,
            forall|k: int| 0 <= k < i ==> chars@[k] == head@[k],
        decreases head@.len() - i,
    {
        if chars[i] != head[i] {
            assert(s@.take(prefix@.len() as int)[i as int] != prefix@[i as int]);
            return None;
        }
        i = i + 1;
    }
    assert(s@.take(prefix@.len() as int) =~= prefix@);
    let n = chars.len();
    assert(chars@.subrange(i as int, n as int) =~= chars@.skip(i as int));
    Some(text_between(&chars, i, n))
}

/// Whether `pattern` stands somewhere in `s`.
pub open spec fn contains_text(s: Seq<char>, pattern: Seq<char>) -> bool {
    exists|i: int| occurs_at(s, pattern, i)
}

/// Whether `pattern` stands in `s` at index `i`.
pub open spec fn occurs_at(s: Seq<char>, pattern: Seq<char>, i: int) -> bool {
    0 <= i <= s.len() - pattern.len() && s.subrange(i, i + pattern.len()) == pattern
}

/// Looks for `pattern` in `s`.
pub fn has_text(s: &str, pattern: &str) -> (r: bool)
    ensures
        r == contains_text(s@, pattern@),
{
    let chars = chars_of(s);
    let wanted = chars_of(pattern);
    if wanted.len() > chars.len() {
        return false;
    }
    let n = chars.len();
    let last: usize = n - wanted.len();
    let mut i: usize = 0;
    loop
        invariant
            n == chars@.len(),
            chars@ == s@,
            wanted@ == pattern@,
            last == chars@.len() - wanted@.len(),
            i <= last,
            forall|k: int| 0 <= k < i ==> !#[trigger] occurs_at(s@, pattern@, k),
        decreases last - i,
    {
        let mut j: usize = 0;
        while j < wanted.len() && chars[i + j] == wanted[j]
            invariant
                n == chars@.len(),
                chars@ == s@,
                wanted@ == pattern@,
                last == chars@.len() - wanted@.len(),
                i <= last,
                j <= wanted@.len(),
                forall|k: int| 0 <= k < j ==> chars@[i + k] == wanted@[k],
            decreases wanted@.len() - j,
        {
            j = j + 1;
        }
        if j == wanted.len() {
            assert(s@.subrange(i as int, i + pattern@.len()) =~= pattern@);
            assert(occurs_at(s@, pattern@, i as int));
            return true;
        }
        assert(s@.subrange(i as int, i + pattern@.len())[j as int] != pattern@[j as int]);
        assert(!occurs_at(s@, pattern@, i as int));
        if i == last {
            assert forall|k: int| !occurs_at(s@, pattern@, k) by {
                if 0 <= k < i {
                }
            }
            return false;
        }
        i = i + 1;
    }
}

/// A line's text without the carriage return in front of its line feed.
pub open spec fn without_carriage_return(s: Seq<char>) -> Seq<char> {
    if s.len() > 0 && s.last() == '\r' {
        s.drop_last()
    } else {
        s
    }
}

/// The lines of `s`: each ends at a line feed, which is not part of it, nor is
/// a carriage return just before it. The last line need not be ended.
pub open spec fn lines(s: Seq<char>) -> Seq<Seq<char>>
    decreases s.len(),
{
    let end = first_index(s, '\n', 0);
    if s.len() == 0 {
        Seq::empty()
    } else if end >= s.len() {
        seq![s]
    } else {
        proof {
            lemma_first_index(s, '\n', 0);
        }
        seq![without_carriage_return(s.take(end))] + lines(s.skip(end + 1))
    }
}

proof fn lemma_first_index_shift(s: Seq<char>, c: char, from: int, i: int)
    requires
        0 <= from <= s.len(),
        0 <= i,
    ensures
        first_index(s.skip(from), c, i) + from == first_index(s, c, from + i) || i > s.len()
            - from,
    decreases s.len() - from - i,
{
    if from + i < s.len() && s[from + i] != c {
        lemma_first_index_shift(s, c, from, i + 1);
    }
}

/// Splits `s` into its lines.
pub fn lines_of(s: &str) -> (r: Vec<String>)
    ensures
        r.deep_view() == lines(s@),
{
    let chars = chars_of(s);
    let n = chars.len();
    let mut out: Vec<String> = Vec::new();
    let mut start: usize = 0;
    assert(s@.skip(0) =~= s@);
    assert(out.deep_view() + lines(s@) =~= lines(s@));
    while start < n
        invariant
            start <= n == chars@.len(),
            chars@ == s@,
            out.deep_view() + lines(s@.skip(start as int)) == lines(s@),
        decreases n - start,
    {
        let end = find_char(&chars, '\n', start);
        let ghost rest = s@.skip(start as int);
        let ghost before = out.deep_view();
        proof {
            lemma_first_index_shift(s@, '\n', start as int, 0);
            assert(first_index(rest, '\n', 0) == end - start);
            reveal_with_fuel(lines, 2);
        }
        if end == n {
            out.push(text_between(&chars, start, n));
            proof {
                assert(s@.subrange(start as int, n as int) =~= rest);
                assert(out.deep_view() =~= before.push(rest));
                assert(lines(rest) == seq![rest]);
                assert(s@.skip(n as int) =~= Seq::empty());
                assert(lines(s@.skip(n as int)) =~= Seq::empty());
                assert(before.push(rest) + Seq::<Seq<char>>::empty() =~= before + seq![rest]);
            }
            start = n;
        } else {
            let stop: usize = if end > start && chars[end - 1] == '\r' {
                end - 1
            } else {
                end
            };
            out.push(text_between(&chars, start, stop));
            proof {
                let line = without_carriage_return(rest.take(end - start));
                assert(rest.take(end - start) =~= s@.subrange(start as int, end as int));
                assert(s@.subrange(start as int, stop as int) =~= line);
                assert(out.deep_view() =~= before.push(line));
                assert(rest.skip(end - start + 1) =~= s@.skip(end + 1));
                assert(lines(rest) == seq![line] + lines(s@.skip(end + 1)));
                assert(before.push(line) + lines(s@.skip(end + 1)) =~= before + (seq![line]
                    + lines(s@.skip(end + 1))));
            }
            start = end + 1;
        }
    }
    proof {
        assert(s@.skip(n as int) =~= Seq::empty());
        assert(lines(s@.skip(n as int)) =~= Seq::empty());
        assert(out.deep_view() + Seq::<Seq<char>>::empty() =~= out.deep_view());
    }
    out
}

/// The `k`th piece of `s` between separators, counted from zero.
pub open spec fn field(s: Seq<char>, separator: char, k: nat) -> Option<Seq<char>>
    decreases k,
{
    let end = first_index(s, separator, 0);
    if k == 0 {
        Some(s.take(end))
    } else if end >= s.len() {
        None
    } else {
        field(s.skip(end + 1), separator, (k - 1) as nat)
    }
}

/// Takes the `k`th piece of `s` between separators, if `s` has that many.
pub fn field_of(s: &str, separator: char, k: usize) -> (r: Option<String>)
    ensures
        r.deep_view() == field(s@, separator, k as nat),
{
    let chars = chars_of(s);
    let mut start: usize = 0;
    let mut left: usize = k;
    assert(s@.skip(0) =~= s@);
    loop
        invariant
            chars@ == s@,
            start <= chars@.len(),
            field(s@.skip(start as int), separator, left as nat) == field(
                s@,
                separator,
                k as nat,
            ),
        decreases left,
    {
        let end = find_char(&chars, separator, start);
        let ghost rest = s@.skip(start as int);
        proof {
            lemma_first_index_shift(s@, separator, start as int, 0);
            assert(first_index(rest, separator, 0) == end - start);
        }
        if left == 0 {
            assert(rest.take(end - start) =~= s@.subrange(start as int, end as int));
            return Some(text_between(&chars, start, end));
        }
        if end == chars.len() {
            return None;
        }
        assert(rest.skip(end - start + 1) =~= s@.skip(end + 1));
        start = end + 1;
        left = left - 1;
    }
}

/// The index of the first character at or after `from` that is white space if
/// `white`, and is not if not `white`; the length of `s` if there is none.
pub open spec fn next_of_kind(s: Seq<char>, white: bool, from: int) -> int
    decreases s.len() - from,
{
    if from >= s.len() {
        s.len() as int
    } else if is_white_space(s[from]) == white {
        from
    } else {
        next_of_kind(s, white, from + 1)
    }
}

/// The first word of `s`: its first run of characters that are no white space.
pub open spec fn first_word(s: Seq<char>) -> Option<Seq<char>> {
    let start = next_of_kind(s, false, 0);
    if start >= s.len() {
        None
    } else {
        Some(s.subrange(start, next_of_kind(s, true, start)))
    }
}

fn find_kind(chars: &Vec<char>, white: bool, from: usize) -> (r: usize)
    requires
        from <= chars@.len(),
    ensures
        r == next_of_kind(chars@, white, from as int),
        from <= r <= chars@.len(),
{
    let mut i: usize = from;
    while i < chars.len() && white_space(chars[i]) != white
        invariant
            from <= i <= chars@.len(),
            next_of_kind(chars@, white, from as int) == next_of_kind(chars@, white, i as int),
        decreases chars@.len() - i,
    {
        i = i + 1;
    }
    i
}

/// Takes the first word of `s`, if it has one.
pub fn first_word_of(s: &str) -> (r: Option<String>)
    ensures
        r.deep_view() == first_word(s@),
{
    let chars = chars_of(s);
    let start = find_kind(&chars, false, 0);
    if start == chars.len() {
        return None;
    }
    let end = find_kind(&chars, true, start);
    Some(text_between(&chars, start, end))
}

// ---------------------------------------------------------------------------
// Joining
// ---------------------------------------------------------------------------

/// The parts, each behind a separator.
pub open spec fn each_behind(separator: Seq<char>, parts: Seq<Seq<char>>) -> Seq<char>
    decreases parts.len(),
{
    if parts.len() == 0 {
        Seq::empty()
    } else {
        each_behind(separator, parts.drop_last()) + separator + parts.last()
    }
}

/// The parts with a separator between each two.
pub open spec fn joined(separator: Seq<char>, parts: Seq<Seq<char>>) -> Seq<char> {
    if parts.len() == 0 {
        Seq::empty()
    } else {
        parts[0] + each_behind(separator, parts.skip(1))
    }
}

/// Joins the parts with a separator between each two.
pub fn join_with(separator: &str, parts: &Vec<String>) -> (r: String)
    ensures
        r@ == joined(separator@, parts.deep_view()),
{
    if parts.len() == 0 {
        return String::new();
    }
    let mut out = parts[0].clone();
    let ghost tail = parts.deep_view().skip(1);
    let mut i: usize = 1;
    assert(tail.take(0) =~= Seq::empty());
    assert(out@ + Seq::<char>::empty() =~= out@);
    while i < parts.len()
        invariant
            1 <= i <= parts@.len(),
            tail == parts.deep_view().skip(1),
            out@ == parts@[0]@ + each_behind(separator@, tail.take(i as int - 1)),
        decreases parts@.len() - i,
    {
        let ghost before = tail.take(i as int - 1);
        out.append(separator);
        out.append(parts[i].as_str());
        proof {
            let now = tail.take(i as int);
            assert(now.drop_last() =~= before);
            assert(now.last() == parts@[i as int]@);
            assert(out@ =~= parts@[0]@ + each_behind(separator@, now));
        }
        i = i + 1;
    }
    assert(tail.take(parts@.len() as int - 1) =~= tail);
    out
}

// ---------------------------------------------------------------------------
// What the standard library says of text
// ---------------------------------------------------------------------------

/// An ASCII letter in lower case; any other character as it is.
pub open spec fn ascii_lower(c: char) -> char {
    if 'A' <= c <= 'Z' {
        (c as u32 + 32) as char
    } else {
        c
    }
}

/// The lower-case form of a text, as Unicode defines it.
pub uninterp spec fn lower_case(s: Seq<char>) -> Seq<char>;

/// `str::to_lowercase`: the lower-case form, which depends on the text alone.
/// Of a text in ASCII it is each letter's lower-case letter.
#[verifier::external_body]
pub(crate) fn to_lower_case(s: &str) -> (r: String)
    ensures
        r@ == lower_case(s@),
        is_ascii_chars(s@) ==> r@ == s@.map_values(|c: char| ascii_lower(c)),
{
    s.to_lowercase()
}

/// The text that bytes stand for, with replacement characters where they are
/// no UTF-8.
pub uninterp spec fn lossy_text(bytes: Seq<u8>) -> Seq<char>;

/// `String::from_utf8_lossy`: the text, which depends on the bytes alone. Where
/// they are valid UTF-8 it is what they encode.
#[verifier::external_body]
pub(crate) fn decode_lossy(bytes: &Vec<u8>) -> (r: String)
    ensures
        r@ == lossy_text(bytes@),
        vstd::utf8::valid_utf8(bytes@) ==> r@ == vstd::utf8::decode_utf8(bytes@),
{
    String::from_utf8_lossy(bytes).into_owned()
}

/// How a list of texts is written for debugging.
pub uninterp spec fn debug_list(list: Seq<Seq<char>>) -> Seq<char>;

/// The `Debug` form of a `Vec<String>`, which depends on the strings alone.
#[verifier::external_body]
pub(crate) fn debug_text(list: &Vec<String>) -> (r: String)
    ensures
        r@ == debug_list(list.deep_view()),
{
    format!("{:?}", list)
}

}
