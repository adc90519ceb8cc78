//! Unix paths as text.
//!
//! A path is a root slash or a leading `.` (or neither), and then names
//! between slashes. Empty names, and `.` behind the start, count for nothing;
//! `..` is a name like any other.

use vstd::prelude::*;
use vstd::string::*;

use crate::text::{
    chars_of, concat2, concat3, find_char, first_index, lemma_first_index, same_text, text_between,
    without_leading_slashes,
};

verus! {

// ---------------------------------------------------------------------------
// The parts of a path
// ---------------------------------------------------------------------------

pub open spec fn has_root(p: Seq<char>) -> bool {
    p.len() > 0 && p[0] == '/'
}

/// Whether the path starts with the current directory.
pub open spec fn has_dot(p: Seq<char>) -> bool {
    p.len() > 0 && p[0] == '.' && (p.len() == 1 || p[1] == '/')
}

/// Where the names of the path begin.
pub open spec fn start_of(p: Seq<char>) -> int {
    if has_root(p) || has_dot(p) {
        1
    } else {
        0
    }
}

/// Whether what stands between two slashes counts for nothing.
pub open spec fn is_blank(name: Seq<char>) -> bool {
    name.len() == 0 || (name.len() == 1 && name[0] == '.')
}

/// The names in a text, in order.
pub open spec fn names(s: Seq<char>) -> Seq<Seq<char>>
    decreases s.len(),
{
    let end = first_index(s, '/', 0);
    let name = s.take(end);
    if s.len() == 0 {
        Seq::empty()
    } else {
        proof {
            lemma_first_index(s, '/', 0);
        }
        let rest = if end < s.len() {
            names(s.skip(end + 1))
        } else {
            Seq::empty()
        };
        if is_blank(name) {
            rest
        } else {
            seq![name] + rest
        }
    }
}

/// The names of a path.
pub open spec fn path_names(p: Seq<char>) -> Seq<Seq<char>> {
    names(p.skip(start_of(p)))
}

/// Whether two texts name the same path, part by part.
pub open spec fn same_parts(p: Seq<char>, q: Seq<char>) -> bool {
    &&& has_root(p) == has_root(q)
    &&& has_dot(p) == has_dot(q)
    &&& path_names(p) == path_names(q)
}

// ---------------------------------------------------------------------------
// From the end
// ---------------------------------------------------------------------------

/// The index of the last slash of `p` at or after `from`, or `from - 1`.
pub open spec fn last_slash(p: Seq<char>, from: int) -> int
    decreases p.len(),
{
    if p.len() <= from || p.len() == 0 {
        from - 1
    } else if p.last() == '/' {
        p.len() - 1
    } else {
        last_slash(p.drop_last(), from)
    }
}

/// What stands behind the last slash.
pub open spec fn last_name(p: Seq<char>, from: int) -> Seq<char> {
    p.skip(last_slash(p, from) + 1)
}

/// What stands before the last slash, the first `from` characters included.
pub open spec fn before_last(p: Seq<char>, from: int) -> Seq<char> {
    if last_slash(p, from) < from {
        p.take(from)
    } else {
        p.take(last_slash(p, from))
    }
}

pub proof fn lemma_last_slash(p: Seq<char>, from: int)
    requires
        0 <= from,
    ensures
        from < p.len() ==> from - 1 <= last_slash(p, from) < p.len(),
        last_slash(p, from) >= from ==> p[last_slash(p, from)] == '/',
        forall|i: int| last_slash(p, from) < i < p.len() && from <= i ==> p[i] != '/',
    decreases p.len(),
{
    if p.len() > from && p.last() != '/' {
        let q = p.drop_last();
        lemma_last_slash(q, from);
        assert forall|i: int| last_slash(p, from) < i < p.len() && from <= i implies p[i] != '/' by {
            if i < q.len() {
                assert(q[i] == p[i]);
            }
        }
    }
}

/// The path text without blank names at its end.
pub open spec fn trim_end(p: Seq<char>, from: int) -> Seq<char>
    decreases p.len(),
{
    if from < 0 || p.len() <= from {
        p
    } else {
        proof {
            lemma_last_slash(p, from);
        }
        if is_blank(last_name(p, from)) {
            trim_end(before_last(p, from), from)
        } else {
            p
        }
    }
}

/// The path without its last part, if it has one besides the root.
pub open spec fn parent_text(p: Seq<char>) -> Option<Seq<char>> {
    let from = start_of(p);
    let q = trim_end(p, from);
    if q.len() > from {
        Some(trim_end(before_last(q, from), from))
    } else if has_dot(p) {
        Some(Seq::empty())
    } else {
        None
    }
}

/// The last name of the path, unless that is `..`.
pub open spec fn file_name_text(p: Seq<char>) -> Option<Seq<char>> {
    let from = start_of(p);
    let q = trim_end(p, from);
    if q.len() > from && last_name(q, from) != seq!['.', '.'] {
        Some(last_name(q, from))
    } else {
        None
    }
}

/// The index of the last dot of `s`, or -1.
pub open spec fn last_dot(s: Seq<char>) -> int
    decreases s.len(),
{
    if s.len() == 0 {
        -1
    } else if s.last() == '.' {
        s.len() - 1
    } else {
        last_dot(s.drop_last())
    }
}

/// What stands behind the last dot of the file name, unless the file name has
/// no dot but one in front.
pub open spec fn extension_text(p: Seq<char>) -> Option<Seq<char>> {
    match file_name_text(p) {
        Some(name) => if last_dot(name) > 0 {
            Some(name.skip(last_dot(name) + 1))
        } else {
            None
        },
        None => None,
    }
}

// ---------------------------------------------------------------------------
// From the front
// ---------------------------------------------------------------------------

/// What is left behind the first `n` names.
pub open spec fn behind_names(s: Seq<char>, n: nat) -> Seq<char>
    decreases s.len(),
{
    let end = first_index(s, '/', 0);
    if n == 0 || s.len() == 0 {
        s
    } else if end >= s.len() {
        Seq::empty()
    } else {
        proof {
            lemma_first_index(s, '/', 0);
        }
        let left = if is_blank(s.take(end)) {
            n
        } else {
            (n - 1) as nat
        };
        behind_names(s.skip(end + 1), left)
    }
}

/// The text without blank names at its start.
pub open spec fn trim_start(s: Seq<char>) -> Seq<char>
    decreases s.len(),
{
    let end = first_index(s, '/', 0);
    if s.len() == 0 || !is_blank(s.take(end)) {
        s
    } else if end >= s.len() {
        Seq::empty()
    } else {
        proof {
            lemma_first_index(s, '/', 0);
        }
        trim_start(s.skip(end + 1))
    }
}

/// Whether the parts of `p` begin with those of `base`.
pub open spec fn starts_with_parts(p: Seq<char>, base: Seq<char>) -> bool {
    if !has_root(base) && !has_dot(base) && path_names(base).len() == 0 {
        true
    } else {
        &&& has_root(p) == has_root(base)
        &&& has_dot(p) == has_dot(base)
        &&& path_names(base).len() <= path_names(p).len()
        &&& path_names(p).take(path_names(base).len() as int) == path_names(base)
    }
}

/// What is left of `p` behind the parts of `base`, if it begins with them.
pub open spec fn relative_text(p: Seq<char>, base: Seq<char>) -> Option<Seq<char>> {
    if !starts_with_parts(p, base) {
        None
    } else if !has_root(base) && !has_dot(base) && path_names(base).len() == 0 {
        Some(trim_end(p, start_of(p)))
    } else {
        let rest = behind_names(p.skip(start_of(p)), path_names(base).len());
        Some(trim_end(trim_start(rest), 0))
    }
}

/// `rest` below `base`; `rest` itself if it has a root.
pub open spec fn join_text(base: Seq<char>, rest: Seq<char>) -> Seq<char> {
    if has_root(rest) {
        rest
    } else if base.len() > 0 && base.last() != '/' {
        base + seq!['/'] + rest
    } else {
        base + rest
    }
}

// ---------------------------------------------------------------------------
// Operations
// ---------------------------------------------------------------------------

/// The path `rest` below the path `base`; `rest` itself if it has a root.
pub fn join(base: &str, rest: &str) -> (r: String)
    ensures
        r@ == join_text(base@, rest@),
{
    proof {
        reveal_strlit("/");
        assert("/"@ =~= seq!['/']);
    }
    let head = chars_of(base);
    let tail = chars_of(rest);
    if tail.len() > 0 && tail[0] == '/' {
        rest.to_owned()
    } else if head.len() > 0 && head[head.len() - 1] != '/' {
        concat3(base, "/", rest)
    } else {
        concat2(base, rest)
    }
}

fn start_index(chars: &Vec<char>) -> (r: usize)
    ensures
        r == start_of(chars@),
        r <= chars@.len(),
{
    let n = chars.len();
    if n > 0 && (chars[0] == '/' || (chars[0] == '.' && (n == 1 || chars[1] == '/'))) {
        1
    } else {
        0
    }
}

/// One behind the last slash of the first `end` characters at or after `from`;
/// `from` if there is none.
fn name_start(chars: &Vec<char>, from: usize, end: usize) -> (r: usize)
    requires
        from <= end <= chars@.len(),
    ensures
        r == last_slash(chars@.take(end as int), from as int) + 1,
        from <= r <= end,
{
    let mut i: usize = end;
    while i > from && chars[i - 1] != '/'
        invariant
            from <= i <= end <= chars@.len(),
            last_slash(chars@.take(end as int), from as int) == last_slash(
                chars@.take(i as int),
                from as int,
            ),
        decreases i,
    {
        assert(chars@.take(i as int).drop_last() =~= chars@.take(i as int - 1));
        i = i - 1;
    }
    i
}

/// The length of what stands before the last name, its slash not counted.
fn cut_before(from: usize, name: usize) -> (r: usize)
    requires
        from <= name,
    ensures
        r == (if name - 1 < from {
            from as int
        } else {
            name - 1
        }),
{
    if name > from {
        name - 1
    } else {
        from
    }
}

fn blank_between(chars: &Vec<char>, from: usize, to: usize) -> (r: bool)
    requires
        from <= to <= chars@.len(),
    ensures
        r == is_blank(chars@.subrange(from as int, to as int)),
{
    from == to || (to - from == 1 && chars[from] == '.')
}

fn trimmed_len(chars: &Vec<char>, from: usize, end: usize) -> (r: usize)
    requires
        from <= end <= chars@.len(),
    ensures
        chars@.take(r as int) == trim_end(chars@.take(end as int), from as int),
        from <= r <= end,
    decreases end,
{
    if end == from {
        return end;
    }
    let ghost p = chars@.take(end as int);
    proof {
        lemma_last_slash(p, from as int);
    }
    let name = name_start(chars, from, end);
    assert(p.skip(name as int) =~= chars@.subrange(name as int, end as int));
    if blank_between(chars, name, end) {
        let cut = cut_before(from, name);
        assert(before_last(p, from as int) =~= chars@.take(cut as int));
        trimmed_len(chars, from, cut)
    } else {
        end
    }
}

pub proof fn lemma_trim_end_len(p: Seq<char>, from: int)
    requires
        0 <= from <= p.len(),
    ensures
        from <= trim_end(p, from).len() <= p.len(),
        trim_end(p, from) == p.take(trim_end(p, from).len() as int),
    decreases p.len(),
{
    if p.len() > from {
        lemma_last_slash(p, from);
        if is_blank(last_name(p, from)) {
            let q = before_last(p, from);
            lemma_trim_end_len(q, from);
            assert(q.take(trim_end(q, from).len() as int) =~= p.take(
                trim_end(q, from).len() as int,
            ));
        } else {
            assert(p.take(p.len() as int) =~= p);
        }
    } else {
        assert(p.take(p.len() as int) =~= p);
    }
}

/// A parent's text is a proper prefix of the path's text.
pub proof fn lemma_parent_is_shorter(p: Seq<char>)
    requires
        parent_text(p) is Some,
    ensures
        parent_text(p)->0.len() < p.len(),
        parent_text(p)->0 == p.take(parent_text(p)->0.len() as int),
{
    let from = start_of(p);
    lemma_trim_end_len(p, from);
    let q = trim_end(p, from);
    if q.len() > from {
        lemma_last_slash(q, from);
        let r = before_last(q, from);
        lemma_trim_end_len(r, from);
        assert(r =~= p.take(r.len() as int));
        assert(r.take(trim_end(r, from).len() as int) =~= p.take(trim_end(r, from).len() as int));
    } else {
        assert(p.take(0) =~= Seq::empty());
    }
}

/// The path without its last part, if it has one besides the root.
pub fn parent(path: &str) -> (r: Option<String>)
    ensures
        r.deep_view() == parent_text(path@),
{
    let chars = chars_of(path);
    let n = chars.len();
    let from = start_index(&chars);
    assert(path@.take(n as int) =~= path@);
    let end = trimmed_len(&chars, from, n);
    let ghost q = path@.take(end as int);
    if end > from {
        proof {
            lemma_last_slash(q, from as int);
        }
        let name = name_start(&chars, from, end);
        let cut = cut_before(from, name);
        assert(before_last(q, from as int) =~= path@.take(cut as int));
        let len = trimmed_len(&chars, from, cut);
        assert(path@.subrange(0, len as int) =~= path@.take(len as int));
        Some(text_between(&chars, 0, len))
    } else if n > 0 && chars[0] == '.' && from == 1 {
        Some(String::new())
    } else {
        None
    }
}

/// The last name of the path, unless that is `..`.
pub fn file_name(path: &str) -> (r: Option<String>)
    ensures
        r.deep_view() == file_name_text(path@),
{
    let chars = chars_of(path);
    let n = chars.len();
    let from = start_index(&chars);
    assert(path@.take(n as int) =~= path@);
    let end = trimmed_len(&chars, from, n);
    let ghost q = path@.take(end as int);
    if end == from {
        return None;
    }
    proof {
        lemma_last_slash(q, from as int);
    }
    let start = name_start(&chars, from, end);
    let ghost name = path@.subrange(start as int, end as int);
    assert(last_name(q, from as int) =~= name);
    if end - start == 2 && chars[start] == '.' && chars[start + 1] == '.' {
        assert(name =~= seq!['.', '.']);
        None
    } else {
        proof {
            if name == seq!['.', '.'] {
                assert(name[0] == '.' && name[1] == '.');
            }
        }
        Some(text_between(&chars, start, end))
    }
}

proof fn lemma_last_dot(s: Seq<char>)
    ensures
        -1 <= last_dot(s) < s.len(),
    decreases s.len(),
{
    if s.len() > 0 && s.last() != '.' {
        lemma_last_dot(s.drop_last());
    }
}

/// What stands behind the last dot of the file name, unless the file name has
/// no dot but one in front.
pub fn extension(path: &str) -> (r: Option<String>)
    ensures
        r.deep_view() == extension_text(path@),
{
    let name = match file_name(path) {
        Some(name) => name,
        None => {
            return None;
        },
    };
    let chars = chars_of(name.as_str());
    let n = chars.len();
    let mut i: usize = n;
    assert(name@.take(n as int) =~= name@);
    while i > 0 && chars[i - 1] != '.'
        invariant
            i <= n == chars@.len(),
            chars@ == name@,
            last_dot(name@) == last_dot(name@.take(i as int)),
        decreases i,
    {
        assert(name@.take(i as int).drop_last() =~= name@.take(i as int - 1));
        i = i - 1;
    }
    if i > 1 {
        assert(name@.skip(i as int) =~= name@.subrange(i as int, n as int));
        Some(text_between(&chars, i, n))
    } else {
        None
    }
}

/// The names in the text from `from` on.
fn names_from(chars: &Vec<char>, from: usize) -> (r: Vec<String>)
    requires
        from <= chars@.len(),
    ensures
        r.deep_view() == names(chars@.skip(from as int)),
{
    let n = chars.len();
    let mut out: Vec<String> = Vec::new();
    let mut start: usize = from;
    let ghost all = names(chars@.skip(from as int));
    assert(out.deep_view() + all =~= all);
    while start < n
        invariant
            start <= n == chars@.len(),
            all == out.deep_view() + names(chars@.skip(start as int)),
        decreases n - start,
    {
        let end = find_char(chars, '/', start);
        let ghost rest = chars@.skip(start as int);
        let ghost name = rest.take(end - start);
        let ghost before = out.deep_view();
        let ghost more = if end < n {
            names(chars@.skip(end + 1))
        } else {
            Seq::empty()
        };
        proof {
            lemma_first_index_skip(chars@, start as int);
            assert(name =~= chars@.subrange(start as int, end as int));
            if end < n {
                assert(rest.skip(end - start + 1) =~= chars@.skip(end + 1));
            }
        }
        if !blank_between(chars, start, end) {
            out.push(text_between(chars, start, end));
            proof {
                assert(out.deep_view() =~= before.push(name));
                assert(before.push(name) + more =~= before + (seq![name] + more));
            }
        }
        assert(all == out.deep_view() + more);
        if end < n {
            start = end + 1;
        } else {
            start = n;
            assert(chars@.skip(n as int) =~= Seq::empty());
        }
    }
    proof {
        assert(chars@.skip(n as int) =~= Seq::empty());
        assert(out.deep_view() + Seq::<Seq<char>>::empty() =~= out.deep_view());
    }
    out
}

proof fn lemma_first_index_skip(s: Seq<char>, from: int)
    requires
        0 <= from <= s.len(),
    ensures
        first_index(s.skip(from), '/', 0) + from == first_index(s, '/', from),
{
    lemma_first_index(s, '/', from);
    lemma_first_index(s.skip(from), '/', 0);
    let a = first_index(s.skip(from), '/', 0);
    let b = first_index(s, '/', from);
    if a + from < b {
        assert(s[a + from] != '/');
    }
    if a + from > b {
        assert(s.skip(from)[b - from] != '/');
    }
}

/// Whether the two lists are equal, as far as the shorter of them reaches.
fn same_head(a: &Vec<String>, b: &Vec<String>) -> (r: bool)
    requires
        b@.len() <= a@.len(),
    ensures
        r == (a.deep_view().take(b@.len() as int) == b.deep_view()),
{
    let mut i: usize = 0;
    while i < b.len()
        invariant
            i <= b@.len() <= a@.len(),
            forall|k: int| 0 <= k < i ==> (#[trigger] a@[k])@ == b@[k]@,
        decreases b@.len() - i,
    {
        if !same_text(a[i].as_str(), b[i].as_str()) {
            assert(a.deep_view().take(b@.len() as int)[i as int] != b.deep_view()[i as int]);
            return false;
        }
        i = i + 1;
    }
    assert(a.deep_view().take(b@.len() as int) =~= b.deep_view());
    true
}

/// Whether the two texts name the same path, part by part.
pub fn same_path(p: &str, q: &str) -> (r: bool)
    ensures
        r == same_parts(p@, q@),
{
    let a = chars_of(p);
    let b = chars_of(q);
    let a_start = start_index(&a);
    let b_start = start_index(&b);
    if a_start != b_start || (a_start == 1 && a[0] != b[0]) {
        return false;
    }
    let a_names = names_from(&a, a_start);
    let b_names = names_from(&b, b_start);
    if a_names.len() != b_names.len() {
        assert(a_names.deep_view().len() != b_names.deep_view().len());
        return false;
    }
    let same = same_head(&a_names, &b_names);
    assert(a_names.deep_view().take(b_names@.len() as int) =~= a_names.deep_view());
    same
}

/// How many characters of the text from `from` on stand behind its first
/// `count` names, as the index where they begin.
fn index_behind_names(chars: &Vec<char>, from: usize, count: usize) -> (r: usize)
    requires
        from <= chars@.len(),
    ensures
        from <= r <= chars@.len(),
        chars@.skip(r as int) == behind_names(chars@.skip(from as int), count as nat),
    decreases chars@.len() - from,
{
    let n = chars.len();
    if count == 0 || from == n {
        return from;
    }
    let end = find_char(chars, '/', from);
    let ghost rest = chars@.skip(from as int);
    proof {
        lemma_first_index_skip(chars@, from as int);
        assert(rest.take(end - from) =~= chars@.subrange(from as int, end as int));
        if end < n {
            assert(rest.skip(end - from + 1) =~= chars@.skip(end + 1));
        }
    }
    if end == n {
        assert(chars@.skip(n as int) =~= Seq::empty());
        return n;
    }
    let left: usize = if blank_between(chars, from, end) {
        count
    } else {
        count - 1
    };
    index_behind_names(chars, end + 1, left)
}

fn index_behind_blanks(chars: &Vec<char>, from: usize) -> (r: usize)
    requires
        from <= chars@.len(),
    ensures
        from <= r <= chars@.len(),
        chars@.skip(r as int) == trim_start(chars@.skip(from as int)),
    decreases chars@.len() - from,
{
    let n = chars.len();
    if from == n {
        return from;
    }
    let end = find_char(chars, '/', from);
    let ghost rest = chars@.skip(from as int);
    proof {
        lemma_first_index_skip(chars@, from as int);
        assert(rest.take(end - from) =~= chars@.subrange(from as int, end as int));
        if end < n {
            assert(rest.skip(end - from + 1) =~= chars@.skip(end + 1));
        }
    }
    if !blank_between(chars, from, end) {
        return from;
    }
    if end == n {
        assert(chars@.skip(n as int) =~= Seq::empty());
        return n;
    }
    index_behind_blanks(chars, end + 1)
}

/// What is left of `path` behind the parts of `base`, if it begins with them.
pub fn strip_prefix(path: &str, base: &str) -> (r: Option<String>)
    ensures
        r.deep_view() == relative_text(path@, base@),
{
    let a = chars_of(path);
    let b = chars_of(base);
    let a_start = start_index(&a);
    let b_start = start_index(&b);
    let b_names = names_from(&b, b_start);
    let n = a.len();
    assert(b_names.deep_view() == path_names(base@));
    if b_start == 0 && b_names.len() == 0 {
        assert(path@.take(n as int) =~= path@);
        let end = trimmed_len(&a, a_start, n);
        assert(path@.subrange(0, end as int) =~= path@.take(end as int));
        return Some(text_between(&a, 0, end));
    }
    if a_start != b_start || (a_start == 1 && a[0] != b[0]) {
        return None;
    }
    let a_names = names_from(&a, a_start);
    assert(a_names.deep_view() == path_names(path@));
    if b_names.len() > a_names.len() || !same_head(&a_names, &b_names) {
        return None;
    }
    let behind = index_behind_names(&a, a_start, b_names.len());
    let start = index_behind_blanks(&a, behind);
    let tail = text_between(&a, start, n);
    assert(tail@ =~= path@.skip(start as int));
    let rest = chars_of(tail.as_str());
    let m = rest.len();
    assert(tail@.take(m as int) =~= tail@);
    let end = trimmed_len(&rest, 0, m);
    assert(tail@.subrange(0, end as int) =~= tail@.take(end as int));
    Some(text_between(&rest, 0, end))
}

// ---------------------------------------------------------------------------
// Names of composed paths
// ---------------------------------------------------------------------------

proof fn lemma_first_slash(a: Seq<char>, b: Seq<char>)
    ensures
        first_index(a + seq!['/'] + b, '/', 0) == first_index(a, '/', 0),
{
    let s = a + seq!['/'] + b;
    lemma_first_index(a, '/', 0);
    lemma_first_index(s, '/', 0);
    let i = first_index(a, '/', 0);
    let j = first_index(s, '/', 0);
    assert(s[a.len() as int] == '/');
    if i < a.len() {
        assert(s[i] == '/');
    }
    if j < i {
        assert(s[j] == a[j]);
    }
}

/// The names on both sides of a slash are the names of the whole.
pub proof fn lemma_names_around_slash(a: Seq<char>, b: Seq<char>)
    ensures
        names(a + seq!['/'] + b) == names(a) + names(b),
    decreases a.len(),
{
    let s = a + seq!['/'] + b;
    let end = first_index(a, '/', 0);
    lemma_first_index(a, '/', 0);
    lemma_first_slash(a, b);
    assert(s.take(end) =~= a.take(end));
    if end < a.len() {
        lemma_names_around_slash(a.skip(end + 1), b);
        assert(s.skip(end + 1) =~= a.skip(end + 1) + seq!['/'] + b);
        let rest = names(a.skip(end + 1));
        assert(seq![a.take(end)] + (rest + names(b)) =~= (seq![a.take(end)] + rest) + names(b));
    } else {
        assert(s.skip(end + 1) =~= b);
        assert(Seq::<Seq<char>>::empty() + names(b) =~= names(b));
        if a.len() > 0 {
            assert(seq![a.take(end)] + Seq::<Seq<char>>::empty() =~= seq![a.take(end)]);
        }
    }
}

/// A slash in front adds no name.
pub proof fn lemma_names_behind_slash(s: Seq<char>)
    ensures
        names(seq!['/'] + s) == names(s),
{
    lemma_names_around_slash(Seq::empty(), s);
    assert(Seq::<char>::empty() + seq!['/'] + s =~= seq!['/'] + s);
    assert(Seq::<Seq<char>>::empty() + names(s) =~= names(s));
}

/// A slash at the end adds no name.
pub proof fn lemma_names_before_slash(s: Seq<char>)
    ensures
        names(s + seq!['/']) == names(s),
{
    lemma_names_around_slash(s, Seq::empty());
    assert(s + seq!['/'] + Seq::<char>::empty() =~= s + seq!['/']);
    assert(names(s) + Seq::<Seq<char>>::empty() =~= names(s));
}

/// A root, and a leading dot, are no names.
pub proof fn lemma_path_names(p: Seq<char>)
    ensures
        path_names(p) == names(p),
{
    if has_root(p) {
        lemma_names_behind_slash(p.skip(1));
        assert(seq!['/'] + p.skip(1) =~= p);
    } else if has_dot(p) {
        let dot = seq!['.'];
        assert(names(dot) =~= Seq::empty()) by {
            lemma_first_index(dot, '/', 0);
            assert(dot.take(1) =~= dot);
        }
        if p.len() == 1 {
            assert(p =~= dot);
            assert(p.skip(1) =~= Seq::empty());
        } else {
            lemma_names_around_slash(dot, p.skip(2));
            assert(dot + seq!['/'] + p.skip(2) =~= p);
            lemma_names_behind_slash(p.skip(2));
            assert(seq!['/'] + p.skip(2) =~= p.skip(1));
            assert(names(dot) + names(p.skip(2)) =~= names(p.skip(2)));
        }
    } else {
        assert(p.skip(0) =~= p);
    }
}

/// The names of a joined path are those of its two parts.
pub proof fn lemma_join_names(base: Seq<char>, rest: Seq<char>)
    requires
        !has_root(rest),
    ensures
        names(join_text(base, rest)) == names(base) + names(rest),
        base.len() > 0 ==> has_root(join_text(base, rest)) == has_root(base),
        base.len() > 0 ==> has_dot(join_text(base, rest)) == has_dot(base),
        base.len() == 0 ==> join_text(base, rest) == rest,
{
    if base.len() == 0 {
        assert(base + rest =~= rest);
        assert(names(base) + names(rest) =~= names(rest));
    } else if base.last() != '/' {
        lemma_names_around_slash(base, rest);
    } else {
        let head = base.drop_last();
        assert(head + seq!['/'] =~= base);
        lemma_names_around_slash(head, rest);
        lemma_names_before_slash(head);
    }
}

/// Slashes in front add no name.
pub proof fn lemma_without_leading_slashes(s: Seq<char>)
    ensures
        names(without_leading_slashes(s)) == names(s),
        !has_root(without_leading_slashes(s)),
    decreases s.len(),
{
    if has_root(s) {
        lemma_without_leading_slashes(s.skip(1));
        lemma_names_behind_slash(s.skip(1));
        assert(seq!['/'] + s.skip(1) =~= s);
    }
}

proof fn lemma_blank_names(s: Seq<char>)
    requires
        is_blank(s),
    ensures
        names(s) == Seq::<Seq<char>>::empty(),
{
    lemma_first_index(s, '/', 0);
    assert(s.take(s.len() as int) =~= s);
}

proof fn lemma_single_name(s: Seq<char>)
    requires
        !is_blank(s),
        forall|i: int| 0 <= i < s.len() ==> s[i] != '/',
    ensures
        names(s) == seq![s],
{
    lemma_first_index(s, '/', 0);
    assert(s.take(s.len() as int) =~= s);
    assert(seq![s] + Seq::<Seq<char>>::empty() =~= seq![s]);
}

/// Cutting a text before its last name takes that name's names away.
proof fn lemma_before_last(p: Seq<char>, from: int)
    requires
        from == 0 || from == start_of(p),
        from < p.len(),
    ensures
        names(p) == names(before_last(p, from)) + names(last_name(p, from)),
        from <= before_last(p, from).len() < p.len(),
        before_last(p, from) == p.take(before_last(p, from).len() as int),
        before_last(p, from).len() == from || p[before_last(p, from).len() as int] == '/',
        forall|i: int|
            0 <= i < last_name(p, from).len() ==> (#[trigger] last_name(p, from)[i]) != '/',
{
    lemma_last_slash(p, from);
    let k = last_slash(p, from);
    let b = before_last(p, from);
    let n = last_name(p, from);
    if k >= from {
        assert(b + seq!['/'] + n =~= p);
        lemma_names_around_slash(b, n);
    } else {
        assert(n =~= p.skip(from));
        assert(b =~= p.take(from));
        if from == 0 {
            assert(b =~= Seq::empty());
            assert(n =~= p);
            assert(names(b) + names(n) =~= names(n));
        } else {
            assert(from == 1);
            if has_root(p) {
                assert(b =~= seq!['/'] + Seq::<char>::empty());
                lemma_names_behind_slash(Seq::empty());
                assert(seq!['/'] + n =~= p);
                lemma_names_behind_slash(n);
                assert(names(b) + names(n) =~= names(n));
            } else {
                assert(p[1] == '/');
            }
        }
    }
}

/// Blank names at the end are no names.
pub proof fn lemma_trim_end_names(p: Seq<char>, from: int)
    requires
        from == 0 || from == start_of(p),
        from <= p.len(),
    ensures
        names(trim_end(p, from)) == names(p),
        trim_end(p, from).len() <= from || !is_blank(last_name(trim_end(p, from), from)),
        trim_end(p, from).len() == p.len() || trim_end(p, from).len() <= from || p[trim_end(
            p,
            from,
        ).len() as int] == '/',
    decreases p.len(),
{
    if p.len() > from {
        lemma_last_slash(p, from);
        if is_blank(last_name(p, from)) {
            lemma_before_last(p, from);
            let b = before_last(p, from);
            assert(from == 1 ==> start_of(b) == 1);
            lemma_trim_end_names(b, from);
            lemma_trim_end_len(b, from);
            lemma_blank_names(last_name(p, from));
            assert(names(b) + Seq::<Seq<char>>::empty() =~= names(b));
        }
    }
}

/// The names of a parent are those of the path without the last.
pub proof fn lemma_parent_names(p: Seq<char>)
    requires
        names(p).len() > 0,
    ensures
        parent_text(p) is Some,
        names(parent_text(p)->0) == names(p).drop_last(),
        has_root(parent_text(p)->0) == has_root(p),
        has_dot(parent_text(p)->0) == has_dot(p),
        parent_text(p)->0.len() < p.len(),
        parent_text(p)->0 == p.take(parent_text(p)->0.len() as int),
        parent_text(p)->0.len() <= start_of(p) || p[parent_text(p)->0.len() as int] == '/',
        parent_text(p)->0.len() <= start_of(p) || !is_blank(
            last_name(parent_text(p)->0, start_of(p)),
        ),
{
    let from = start_of(p);
    lemma_trim_end_names(p, from);
    lemma_trim_end_len(p, from);
    let q = trim_end(p, from);
    if q.len() <= from {
        assert(q =~= p.take(from));
        if from == 0 {
            assert(q =~= Seq::empty());
        } else if has_root(p) {
            assert(q =~= seq!['/'] + Seq::<char>::empty());
            lemma_names_behind_slash(Seq::empty());
        } else {
            assert(q =~= seq!['.']);
            lemma_blank_names(q);
        }
        assert(names(q).len() == 0);
    }
    assert(from == 1 ==> start_of(q) == 1);
    lemma_before_last(q, from);
    lemma_single_name(last_name(q, from));
    let b = before_last(q, from);
    assert(from == 1 ==> start_of(b) == 1);
    lemma_trim_end_names(b, from);
    lemma_trim_end_len(b, from);
    assert(names(p).drop_last() =~= names(b));
    let up = trim_end(b, from);
    assert(up =~= p.take(up.len() as int));
    if up.len() > from {
        if up.len() < b.len() {
            assert(b[up.len() as int] == '/');
            assert(p[up.len() as int] == '/');
        } else {
            assert(q[b.len() as int] == '/');
            assert(p[b.len() as int] == '/');
        }
    }
    if has_dot(up) && !has_dot(p) {
        assert(up.len() == 1);
        lemma_last_slash(up, 0);
        assert(last_slash(up, 0) == -1);
        assert(last_name(up, 0) =~= up);
    }
}

/// Blank names at the start are no names.
pub proof fn lemma_trim_start(s: Seq<char>)
    ensures
        names(trim_start(s)) == names(s),
        !has_root(trim_start(s)),
        !has_dot(trim_start(s)),
        !has_root(s) && !has_dot(s) ==> trim_start(s) == s,
    decreases s.len(),
{
    let end = first_index(s, '/', 0);
    lemma_first_index(s, '/', 0);
    if s.len() > 0 {
        let name = s.take(end);
        if is_blank(name) {
            lemma_blank_names(name);
            if end < s.len() {
                lemma_trim_start(s.skip(end + 1));
                assert(name + seq!['/'] + s.skip(end + 1) =~= s);
                lemma_names_around_slash(name, s.skip(end + 1));
                assert(names(name) + names(s.skip(end + 1)) =~= names(s.skip(end + 1)));
                if name.len() == 0 {
                    assert(s[0] == '/');
                } else {
                    assert(name[0] == s[0]);
                }
            } else {
                assert(name =~= s);
            }
        } else {
            if s[0] == '/' {
                assert(end == 0);
            }
            if has_dot(s) {
                assert(s.len() == 1 || end == 1);
                assert(name =~= seq!['.']);
            }
        }
    }
}

/// What is left behind names has the other names.
pub proof fn lemma_behind_names(s: Seq<char>, n: nat)
    requires
        n <= names(s).len(),
    ensures
        names(behind_names(s, n)) == names(s).skip(n as int),
    decreases s.len(),
{
    let end = first_index(s, '/', 0);
    lemma_first_index(s, '/', 0);
    if n == 0 || s.len() == 0 {
        assert(names(s).skip(0) =~= names(s));
    } else {
        let name = s.take(end);
        if end >= s.len() {
            assert(names(s).skip(n as int) =~= Seq::empty());
        } else {
            let rest = s.skip(end + 1);
            let left = if is_blank(name) {
                n
            } else {
                (n - 1) as nat
            };
            lemma_behind_names(rest, left);
            if !is_blank(name) {
                assert((seq![name] + names(rest)).skip(n as int) =~= names(rest).skip(n - 1));
            }
        }
    }
}

/// What is left of a path behind a base with a part has the other names, and neither a
/// root nor a leading dot.
pub proof fn lemma_relative_names(p: Seq<char>, base: Seq<char>)
    requires
        starts_with_parts(p, base),
        has_root(base) || has_dot(base) || path_names(base).len() > 0,
    ensures
        relative_text(p, base) is Some,
        names(relative_text(p, base)->0) == names(p).skip(names(base).len() as int),
        !has_root(relative_text(p, base)->0),
{
    lemma_path_names(p);
    lemma_path_names(base);
    let rest = behind_names(p.skip(start_of(p)), path_names(base).len());
    lemma_behind_names(p.skip(start_of(p)), path_names(base).len());
    lemma_trim_start(rest);
    lemma_trim_end_names(trim_start(rest), 0);
    lemma_trim_end_len(trim_start(rest), 0);
}

// ---------------------------------------------------------------------------
// Ancestors
// ---------------------------------------------------------------------------

/// The path `n` steps up.
pub open spec fn ancestor(p: Seq<char>, n: nat) -> Option<Seq<char>>
    decreases n,
{
    if n == 0 {
        Some(p)
    } else {
        match parent_text(p) {
            Some(up) => ancestor(up, (n - 1) as nat),
            None => None,
        }
    }
}

/// An ancestor's text is a piece of the path's text that ends at a slash, and its names
/// are the path's first names.
pub proof fn lemma_ancestor(p: Seq<char>, n: nat)
    requires
        0 < n <= names(p).len(),
    ensures
        ancestor(p, n) is Some,
        names(ancestor(p, n)->0) == names(p).take(names(p).len() - n),
        has_root(ancestor(p, n)->0) == has_root(p),
        has_dot(ancestor(p, n)->0) == has_dot(p),
        ancestor(p, n)->0.len() < p.len(),
        ancestor(p, n)->0 == p.take(ancestor(p, n)->0.len() as int),
        ancestor(p, n)->0.len() <= start_of(p) || p[ancestor(p, n)->0.len() as int] == '/',
        ancestor(p, n)->0.len() <= start_of(p) || !is_blank(
            last_name(ancestor(p, n)->0, start_of(p)),
        ),
    decreases n,
{
    lemma_parent_names(p);
    let up = parent_text(p)->0;
    if n == 1 {
        assert(ancestor(up, 0) == Some(up));
        assert(names(p).drop_last() =~= names(p).take(names(p).len() - 1));
    } else {
        lemma_ancestor(up, (n - 1) as nat);
        let a = ancestor(up, (n - 1) as nat)->0;
        assert(names(up).take(names(up).len() - (n - 1)) =~= names(p).take(names(p).len() - n));
        assert(a =~= p.take(a.len() as int));
        if a.len() > start_of(p) {
            assert(up[a.len() as int] == p[a.len() as int]);
        }
    }
}

// ---------------------------------------------------------------------------
// Paths below a base
// ---------------------------------------------------------------------------

proof fn lemma_behind_all_names(r: Seq<char>, u: Seq<char>)
    requires
        r.len() == 0 || r.last() == '/',
    ensures
        trim_start(behind_names(r + u, names(r).len())) == trim_start(u),
    decreases r.len(),
{
    let s = r + u;
    if r.len() == 0 {
        assert(s =~= u);
    } else {
        let end = first_index(r, '/', 0);
        lemma_first_index(r, '/', 0);
        lemma_first_index(s, '/', 0);
        assert(r[r.len() - 1] == '/');
        assert(s[end] == '/');
        assert(first_index(s, '/', 0) == end) by {
            if first_index(s, '/', 0) < end {
                assert(s[first_index(s, '/', 0)] == r[first_index(s, '/', 0)]);
            }
        }
        let more = r.skip(end + 1);
        assert(s.skip(end + 1) =~= more + u);
        assert(s.take(end) =~= r.take(end));
        lemma_behind_all_names(more, u);
        if names(r).len() == 0 {
            assert(is_blank(r.take(end)));
            assert(trim_start(s) == trim_start(more + u));
        }
    }
}

/// The part of a path that stands before its piece below `base`.
pub open spec fn base_part(base: Seq<char>) -> Seq<char> {
    if base.len() > 0 && base.last() != '/' {
        base + seq!['/']
    } else {
        base
    }
}

/// A path below `base` that is cut short at a slash, behind the names of `base`, is that
/// piece of it relative to `base`.
pub proof fn lemma_relative_of_piece(base: Seq<char>, rest: Seq<char>, piece: Seq<char>) -> (j: int)
    requires
        !has_root(rest),
        !has_dot(rest),
        piece.len() <= join_text(base, rest).len(),
        piece == join_text(base, rest).take(piece.len() as int),
        piece.len() == join_text(base, rest).len() || join_text(base, rest)[piece.len() as int]
            == '/',
        piece.len() > start_of(piece),
        !is_blank(last_name(piece, start_of(piece))),
        names(base).len() < names(piece).len(),
    ensures
        0 < j <= rest.len(),
        j == rest.len() || rest[j] == '/',
        relative_text(piece, base) == Some(rest.take(j)),
        piece == join_text(base, rest.take(j)),
{
    let whole = join_text(base, rest);
    let r = base_part(base);
    let off = r.len() as int;
    assert(whole =~= r + rest);
    if base.len() > 0 && base.last() != '/' {
        lemma_names_before_slash(base);
    }
    assert(names(r) == names(base));
    if piece.len() <= off {
        if piece.len() < off {
            assert(whole[piece.len() as int] == r[piece.len() as int]);
            assert(r =~= piece + seq!['/'] + r.skip(piece.len() as int + 1));
            lemma_names_around_slash(piece, r.skip(piece.len() as int + 1));
        } else {
            assert(r =~= piece);
        }
    }
    let j = piece.len() - off;
    let u = rest.take(j);
    assert(piece =~= r + u);
    if j < rest.len() {
        assert(whole[piece.len() as int] == rest[j]);
    }
    let from = start_of(piece);
    lemma_last_slash(piece, from);
    lemma_last_slash(u, 0);
    let k = last_slash(piece, from);
    let l = last_slash(u, 0);
    if off > 0 {
        assert(r[off - 1] == '/');
        assert(piece[off - 1] == '/');
        if off - 1 >= from {
            assert(k >= off - 1);
        }
    } else {
        assert(piece =~= u);
        assert(from == 0) by {
            if has_dot(piece) {
                assert(rest[0] == '.');
                assert(rest.len() > 1 ==> piece.len() > 1);
            }
        }
    }
    if l >= 0 {
        assert(piece[off + l] == '/');
        assert(k >= off + l);
    }
    if k >= off {
        assert(u[k - off] == '/');
        assert(l >= k - off);
    }
    assert(k == off + l);
    assert(last_name(piece, from) =~= last_name(u, 0));
    assert(trim_end(u, 0) == u);
    if has_dot(u) {
        assert(rest[0] == '.');
        if j > 1 {
            assert(u[1] == rest[1]);
        }
    }
    if has_root(u) {
        assert(rest[0] == '/');
    }
    lemma_trim_start(u);
    lemma_path_names(base);
    lemma_path_names(piece);
    if !has_root(base) && !has_dot(base) && path_names(base).len() == 0 {
        assert(base.len() == 0) by {
            if base.len() > 0 {
                lemma_first_index(base, '/', 0);
                let name = base.take(first_index(base, '/', 0));
                if name.len() == 1 {
                    assert(name[0] == base[0]);
                }
            }
        }
        assert(piece =~= u);
    } else {
        lemma_join_names(r, u);
        assert(join_text(r, u) == r + u);
        assert(names(piece).take(names(base).len() as int) =~= names(base));
        assert(piece[0] == base[0]);
        assert(has_root(piece) == has_root(base));
        assert(has_dot(piece) == has_dot(base)) by {
            if base.len() > 1 {
                assert(piece[1] == base[1]);
            } else {
                assert(base.last() != '/' ==> piece[1] == '/');
            }
        }
        assert(starts_with_parts(piece, base));
        assert(start_of(r) == from) by {
            assert(r[0] == piece[0]);
            if off > 1 {
                assert(r[1] == piece[1]);
            }
        }
        lemma_path_names(r);
        assert(piece.skip(from) =~= r.skip(from) + u);
        lemma_behind_all_names(r.skip(from), u);
    }
    j
}

// ---------------------------------------------------------------------------
// Laws
// ---------------------------------------------------------------------------

/// A path with a root takes the place of its base. Any other goes behind the base, and one
/// slash parts them, unless there is no base or it ends with one.
pub proof fn law_join_puts_one_path_below_the_other(base: Seq<char>, rest: Seq<char>)
    ensures
        join_text(base, seq!['/'] + rest) == seq!['/'] + rest,
        !has_root(rest) ==> join_text(Seq::empty(), rest) == rest,
        !has_root(rest) ==> join_text(base.push('/'), rest) == base + seq!['/'] + rest,
        !has_root(rest) && base.len() > 0 && base.last() != '/' ==> join_text(base, rest) == base
            + seq!['/'] + rest,
        has_root(rest) <==> rest.len() > 0 && rest[0] == '/',
{
    assert(Seq::<char>::empty() + rest =~= rest);
    assert(base.push('/') + rest =~= base + seq!['/'] + rest);
}

/// The names of a path stand between its slashes, in order; what is empty there, and a
/// single dot, is no name.
pub proof fn law_names_stand_between_slashes(a: Seq<char>, name: Seq<char>, b: Seq<char>)
    requires
        forall|i: int| 0 <= i < name.len() ==> name[i] != '/',
    ensures
        names(a + seq!['/'] + b) == names(a) + names(b),
        names(Seq::empty()) == Seq::<Seq<char>>::empty(),
        names(seq!['.']) == Seq::<Seq<char>>::empty(),
        name.len() > 0 && name != seq!['.'] ==> names(name) == seq![name],
        path_names(a) == names(a),
{
    lemma_names_around_slash(a, b);
    lemma_blank_names(Seq::empty());
    lemma_blank_names(seq!['.']);
    if name.len() > 0 && name != seq!['.'] {
        if name.len() == 1 && name[0] == '.' {
            assert(name =~= seq!['.']);
        }
        lemma_single_name(name);
    }
    lemma_path_names(a);
}

/// A path starts with the current directory if it is a single dot, alone or in front of a
/// slash.
pub proof fn law_dot_stands_alone(rest: Seq<char>, c: char)
    ensures
        has_dot(seq!['.']),
        has_dot(seq!['.', '/'] + rest),
        c != '/' ==> !has_dot(seq!['.', c] + rest),
        c != '.' ==> !has_dot(seq![c] + rest),
        !has_dot(Seq::empty()),
{
}

/// Two texts name the same path just if both or neither start at the root, both or neither
/// start with the current directory, and they have the same names.
pub proof fn law_same_path_has_the_same_names(p: Seq<char>, q: Seq<char>)
    ensures
        same_parts(p, q) <==> (has_root(p) <==> has_root(q)) && (has_dot(p) <==> has_dot(q))
            && names(p) == names(q),
{
    lemma_path_names(p);
    lemma_path_names(q);
}

proof fn lemma_trimmed(p: Seq<char>)
    ensures
        trim_end(p, start_of(p)).len() <= start_of(p) ==> names(p).len() == 0,
        trim_end(p, start_of(p)).len() > start_of(p) ==> names(p).len() > 0 && names(p).last()
            == last_name(trim_end(p, start_of(p)), start_of(p)),
{
    let from = start_of(p);
    lemma_trim_end_names(p, from);
    lemma_trim_end_len(p, from);
    let q = trim_end(p, from);
    if q.len() <= from {
        assert(q =~= p.take(from));
        if from == 0 {
            assert(q =~= Seq::empty());
        } else if has_root(p) {
            assert(q =~= seq!['/'] + Seq::<char>::empty());
            lemma_names_behind_slash(Seq::empty());
        } else {
            assert(q =~= seq!['.']);
            lemma_blank_names(q);
        }
    } else {
        assert(from == 1 ==> start_of(q) == 1);
        lemma_before_last(q, from);
        lemma_single_name(last_name(q, from));
    }
}

/// The file name is the last name of the path, unless that is `..`; there is none without
/// a name.
pub proof fn law_file_name_is_the_last_name(p: Seq<char>)
    ensures
        match file_name_text(p) {
            Some(name) => names(p).len() > 0 && names(p).last() == name && name != seq!['.', '.'],
            None => names(p).len() == 0 || names(p).last() == seq!['.', '.'],
        },
{
    lemma_trimmed(p);
}

proof fn lemma_last_dot_before(a: Seq<char>, b: Seq<char>)
    requires
        forall|i: int| 0 <= i < b.len() ==> b[i] != '.',
    ensures
        last_dot(a + seq!['.'] + b) == a.len(),
        last_dot(b) == -1,
    decreases b.len(),
{
    let s = a + seq!['.'] + b;
    if b.len() == 0 {
        assert(s =~= a.push('.'));
    } else {
        let c = b.drop_last();
        assert(forall|i: int| 0 <= i < c.len() ==> c[i] == b[i]);
        lemma_last_dot_before(a, c);
        assert(s.drop_last() =~= a + seq!['.'] + c);
    }
}

/// The extension is what stands behind the last dot of the file name. There is none without
/// a dot, and none where the only dot stands in front.
pub proof fn law_extension_stands_behind_the_last_dot(
    p: Seq<char>,
    stem: Seq<char>,
    extension: Seq<char>,
)
    requires
        forall|i: int| 0 <= i < extension.len() ==> extension[i] != '.',
    ensures
        file_name_text(p) == Some(stem + seq!['.'] + extension) ==> extension_text(p) == (
        if stem.len() > 0 {
            Some(extension)
        } else {
            None
        }),
        file_name_text(p) == Some(extension) ==> extension_text(p) is None,
        file_name_text(p) is None ==> extension_text(p) is None,
{
    lemma_last_dot_before(stem, extension);
    let name = stem + seq!['.'] + extension;
    assert(name.skip(stem.len() as int + 1) =~= extension);
}

/// A path with a name has a parent: the text up to the slash in front of its last name, with
/// all names but that, and with the path's root or leading dot. Without a name there is no
/// parent, unless the path is the current directory, whose parent is the empty path.
pub proof fn law_parent_has_all_names_but_the_last(p: Seq<char>)
    ensures
        names(p).len() > 0 ==> {
            &&& parent_text(p) is Some
            &&& names(parent_text(p)->0) == names(p).drop_last()
            &&& has_root(parent_text(p)->0) == has_root(p)
            &&& has_dot(parent_text(p)->0) == has_dot(p)
            &&& parent_text(p)->0.len() < p.len()
            &&& parent_text(p)->0 == p.take(parent_text(p)->0.len() as int)
        },
        names(p).len() == 0 ==> parent_text(p) == (if has_dot(p) {
            Some(Seq::<char>::empty())
        } else {
            None
        }),
{
    lemma_trimmed(p);
    if names(p).len() > 0 {
        lemma_parent_names(p);
    }
}

proof fn lemma_behind_names_suffix(s: Seq<char>, n: nat) -> (k: int)
    ensures
        0 <= k <= s.len(),
        behind_names(s, n) == s.skip(k),
    decreases s.len(),
{
    let end = first_index(s, '/', 0);
    lemma_first_index(s, '/', 0);
    if n == 0 || s.len() == 0 {
        assert(s.skip(0) =~= s);
        0
    } else if end >= s.len() {
        assert(s.skip(s.len() as int) =~= Seq::empty());
        s.len() as int
    } else {
        let left = if is_blank(s.take(end)) {
            n
        } else {
            (n - 1) as nat
        };
        let k = lemma_behind_names_suffix(s.skip(end + 1), left);
        assert(s.skip(end + 1).skip(k) =~= s.skip(end + 1 + k));
        end + 1 + k
    }
}

proof fn lemma_trim_start_suffix(s: Seq<char>) -> (k: int)
    ensures
        0 <= k <= s.len(),
        trim_start(s) == s.skip(k),
    decreases s.len(),
{
    let end = first_index(s, '/', 0);
    lemma_first_index(s, '/', 0);
    if s.len() == 0 || !is_blank(s.take(end)) {
        assert(s.skip(0) =~= s);
        0
    } else if end >= s.len() {
        assert(s.skip(s.len() as int) =~= Seq::empty());
        s.len() as int
    } else {
        let k = lemma_trim_start_suffix(s.skip(end + 1));
        assert(s.skip(end + 1).skip(k) =~= s.skip(end + 1 + k));
        end + 1 + k
    }
}

/// A path has a rest behind a base just if the base is empty, or both agree on the root and
/// on the leading dot and the base's names come first. The rest is the piece of the path's
/// text with the other names.
pub proof fn law_rest_of_a_path_has_the_other_names(p: Seq<char>, base: Seq<char>) -> (from: int)
    ensures
        relative_text(p, base) is Some <==> (!has_root(base) && !has_dot(base) && names(base).len()
            == 0) || ((has_root(p) <==> has_root(base)) && (has_dot(p) <==> has_dot(base))
            && names(base).is_prefix_of(names(p))),
        relative_text(p, base) is Some ==> {
            let rest = relative_text(p, base)->0;
            &&& names(rest) == names(p).skip(names(base).len() as int)
            &&& 0 <= from <= from + rest.len() <= p.len()
            &&& rest == p.subrange(from, from + rest.len())
            &&& has_root(base) || has_dot(base) || names(base).len() > 0 ==> !has_root(rest)
            &&& !has_root(base) && !has_dot(base) && names(base).len() == 0 ==> from == 0 && (
            has_root(rest) <==> has_root(p))
        },
{
    lemma_path_names(p);
    lemma_path_names(base);
    let n = path_names(base).len();
    if n <= path_names(p).len() {
        assert(path_names(p).take(n as int) == path_names(base) <==> path_names(
            base,
        ).is_prefix_of(path_names(p)));
    }
    if !starts_with_parts(p, base) {
        0
    } else if !has_root(base) && !has_dot(base) && n == 0 {
        let from = start_of(p);
        lemma_trim_end_names(p, from);
        lemma_trim_end_len(p, from);
        let rest = trim_end(p, from);
        assert(names(p).skip(0) =~= names(p));
        assert(rest =~= p.subrange(0, rest.len() as int));
        0
    } else {
        lemma_relative_names(p, base);
        let s = p.skip(start_of(p));
        let i = lemma_behind_names_suffix(s, n);
        let behind = behind_names(s, n);
        let j = lemma_trim_start_suffix(behind);
        let t = trim_start(behind);
        lemma_trim_end_len(t, 0);
        let rest = trim_end(t, 0);
        let from = start_of(p) + i + j;
        assert(rest =~= p.subrange(from, from + rest.len()));
        from
    }
}

}
