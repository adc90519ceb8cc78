//! What the texts of the two status files say, and that they lose nothing.

use vstd::prelude::*;
use vstd::string::*;

use crate::effect::{follows, reason_of, EffectView, OutcomeView};
use crate::error::InitramfsErrorView;
use crate::factory_reset::status::{
    each_quoted, null_status_progress, optional_member, status_progress, FactoryResetStatusView,
};
use crate::json::{escaped, escaped_char, quoted};
use crate::number::{
    all_digits, decimal, decimal_value, is_digit, lemma_decimal, signed_decimal,
};
use crate::omnect_device_service::{fsck_entry_json, ods_json, FsckStatusView};
use crate::text::{each_behind, joined};
use crate::text_laws::law_parts_are_joined_in_order;

verus! {

// ---------------------------------------------------------------------------
// Pieces of text
// ---------------------------------------------------------------------------

proof fn lemma_cancel(p: Seq<char>, x: Seq<char>, y: Seq<char>)
    requires
        p + x == p + y,
    ensures
        x == y,
{
    assert(x =~= (p + x).skip(p.len() as int));
    assert(y =~= (p + y).skip(p.len() as int));
}

/// A character as it stands in a JSON string does not start with a quote, and is told from
/// any other by how it is written.
proof fn lemma_escaped_char(c: char, d: char, x: Seq<char>, y: Seq<char>)
    requires
        escaped_char(c) + x == escaped_char(d) + y,
    ensures
        c == d,
        x == y,
{
    let s = escaped_char(c) + x;
    let t = escaped_char(d) + y;
    assert(s[0] == escaped_char(c)[0]);
    assert(t[0] == escaped_char(d)[0]);
    if escaped_char(c).len() > 1 && escaped_char(d).len() > 1 {
        assert(s[1] == escaped_char(c)[1]);
        assert(t[1] == escaped_char(d)[1]);
        if escaped_char(c).len() > 2 && escaped_char(d).len() > 2 {
            assert(s[4] == escaped_char(c)[4]);
            assert(t[4] == escaped_char(d)[4]);
            assert(s[5] == escaped_char(c)[5]);
            assert(t[5] == escaped_char(d)[5]);
        }
    }
    lemma_cancel(escaped_char(c), x, y);
}

proof fn lemma_escaped_front(c: char, s: Seq<char>)
    ensures
        escaped(seq![c] + s) == escaped_char(c) + escaped(s),
    decreases s.len(),
{
    let t = seq![c] + s;
    if s.len() == 0 {
        assert(t.drop_last() =~= Seq::empty());
        assert(escaped(t.drop_last()) =~= Seq::empty());
        assert(escaped(t) =~= escaped_char(c) + escaped(s));
    } else {
        assert(t.drop_last() =~= seq![c] + s.drop_last());
        lemma_escaped_front(c, s.drop_last());
        assert(escaped(t) =~= escaped_char(c) + escaped(s));
    }
}

/// A JSON string ends at its first bare quote.
proof fn lemma_escaped(a: Seq<char>, b: Seq<char>, x: Seq<char>, y: Seq<char>)
    requires
        escaped(a) + seq!['"'] + x == escaped(b) + seq!['"'] + y,
    ensures
        a == b,
        x == y,
    decreases a.len(),
{
    let s = escaped(a) + seq!['"'] + x;
    let t = escaped(b) + seq!['"'] + y;
    if a.len() > 0 {
        assert(a =~= seq![a[0]] + a.skip(1));
        lemma_escaped_front(a[0], a.skip(1));
        assert(s =~= escaped_char(a[0]) + (escaped(a.skip(1)) + seq!['"'] + x));
        assert(s[0] == escaped_char(a[0])[0]);
    } else {
        assert(escaped(a) =~= Seq::empty());
        assert(s =~= seq!['"'] + x);
        assert(s[0] == '"');
    }
    if b.len() > 0 {
        assert(b =~= seq![b[0]] + b.skip(1));
        lemma_escaped_front(b[0], b.skip(1));
        assert(t =~= escaped_char(b[0]) + (escaped(b.skip(1)) + seq!['"'] + y));
        assert(t[0] == escaped_char(b[0])[0]);
    } else {
        assert(escaped(b) =~= Seq::empty());
        assert(t =~= seq!['"'] + y);
        assert(t[0] == '"');
    }
    if a.len() > 0 {
        assert(b.len() > 0);
        lemma_escaped_char(
            a[0],
            b[0],
            escaped(a.skip(1)) + seq!['"'] + x,
            escaped(b.skip(1)) + seq!['"'] + y,
        );
        lemma_escaped(a.skip(1), b.skip(1), x, y);
    } else {
        assert(a =~= b);
        lemma_cancel(seq!['"'], x, y);
    }
}

/// A JSON string at the start of a text tells what it stands for, and where it ends.
pub proof fn law_quoted_text_reads_back(a: Seq<char>, b: Seq<char>, x: Seq<char>, y: Seq<char>)
    requires
        quoted(a) + x == quoted(b) + y,
    ensures
        a == b,
        x == y,
{
    assert(quoted(a) + x =~= seq!['"'] + (escaped(a) + seq!['"'] + x));
    assert(quoted(b) + y =~= seq!['"'] + (escaped(b) + seq!['"'] + y));
    lemma_cancel(seq!['"'], escaped(a) + seq!['"'] + x, escaped(b) + seq!['"'] + y);
    lemma_escaped(a, b, x, y);
}

/// Whether a text goes on behind a number: there is nothing, or no digit.
pub open spec fn ends_number(x: Seq<char>) -> bool {
    x.len() == 0 || !is_digit(x[0])
}

proof fn lemma_digits_end(s: Seq<char>, t: Seq<char>, x: Seq<char>, y: Seq<char>)
    requires
        all_digits(s),
        all_digits(t),
        ends_number(x),
        ends_number(y),
        s + x == t + y,
    ensures
        s == t,
        x == y,
{
    let a = s + x;
    let b = t + y;
    if s.len() < t.len() {
        assert(is_digit(t[s.len() as int]));
        assert(b[s.len() as int] == t[s.len() as int]);
        assert(a[s.len() as int] == x[0]);
        assert(false);
    }
    if t.len() < s.len() {
        assert(is_digit(s[t.len() as int]));
        assert(a[t.len() as int] == s[t.len() as int]);
        assert(b[t.len() as int] == y[0]);
        assert(false);
    }
    assert(s =~= a.take(s.len() as int));
    assert(t =~= b.take(s.len() as int));
    lemma_cancel(s, x, y);
}

/// The value of a text of decimal digits, with or without a minus sign in front.
pub open spec fn signed_value(s: Seq<char>) -> int {
    if s.len() > 0 && s[0] == '-' {
        -(decimal_value(s.skip(1)) as int)
    } else {
        decimal_value(s) as int
    }
}

/// A number at the start of a text tells its value, and where it ends: the longest run of
/// digits, behind a minus sign or not, has the number's value.
pub proof fn law_written_number_reads_back(n: int, m: int, x: Seq<char>, y: Seq<char>)
    ensures
        signed_value(signed_decimal(n)) == n,
        ends_number(x) && ends_number(y) && signed_decimal(n) + x == signed_decimal(m) + y ==> n
            == m && x == y,
{
    let a = if n < 0 { -n } else { n };
    let b = if m < 0 { -m } else { m };
    lemma_decimal(a as nat);
    lemma_decimal(b as nat);
    assert(is_digit(decimal(a as nat)[0]));
    assert(is_digit(decimal(b as nat)[0]));
    let s = signed_decimal(n) + x;
    let t = signed_decimal(m) + y;
    if n < 0 {
        assert(signed_decimal(n).skip(1) =~= decimal(a as nat));
        assert(s =~= seq!['-'] + (decimal(a as nat) + x));
    }
    if m < 0 {
        assert(t =~= seq!['-'] + (decimal(b as nat) + y));
    }
    if ends_number(x) && ends_number(y) && s == t {
        assert(s[0] == signed_decimal(n)[0]);
        assert(t[0] == signed_decimal(m)[0]);
        assert((n < 0) == (m < 0));
        if n < 0 {
            lemma_cancel(seq!['-'], decimal(a as nat) + x, decimal(b as nat) + y);
        }
        lemma_digits_end(decimal(a as nat), decimal(b as nat), x, y);
    }
}

// ---------------------------------------------------------------------------
// The status that the device service reads
// ---------------------------------------------------------------------------

/// The text of a member for a partition, its code and its output.
#[verifier::rlimit(50)]
proof fn lemma_member(
    e: (Seq<char>, FsckStatusView),
    f: (Seq<char>, FsckStatusView),
    x: Seq<char>,
    y: Seq<char>,
)
    requires
        fsck_entry_json(e) + x == fsck_entry_json(f) + y,
    ensures
        e == f,
        x == y,
{
    reveal_strlit(",\n      \"output\": ");
    let head = "\n    "@;
    let code = ": {\n      \"code\": "@;
    let output = ",\n      \"output\": "@;
    let end = "\n    }"@;
    let e3 = end + x;
    let f3 = end + y;
    let e2 = output + (quoted(e.1.output) + e3);
    let f2 = output + (quoted(f.1.output) + f3);
    let e1 = code + (signed_decimal(e.1.code as int) + e2);
    let f1 = code + (signed_decimal(f.1.code as int) + f2);
    assert(fsck_entry_json(e) + x =~= head + (quoted(e.0) + e1));
    assert(fsck_entry_json(f) + y =~= head + (quoted(f.0) + f1));
    lemma_cancel(head, quoted(e.0) + e1, quoted(f.0) + f1);
    law_quoted_text_reads_back(e.0, f.0, e1, f1);
    lemma_cancel(
        code,
        signed_decimal(e.1.code as int) + e2,
        signed_decimal(f.1.code as int) + f2,
    );
    assert(e2[0] == ',');
    assert(f2[0] == ',');
    law_written_number_reads_back(e.1.code as int, f.1.code as int, e2, f2);
    lemma_cancel(output, quoted(e.1.output) + e3, quoted(f.1.output) + f3);
    law_quoted_text_reads_back(e.1.output, f.1.output, e3, f3);
    lemma_cancel(end, x, y);
    assert(e.1 =~= f.1);
}

proof fn lemma_each_behind_front(separator: Seq<char>, first: Seq<char>, rest: Seq<Seq<char>>)
    ensures
        each_behind(separator, seq![first] + rest) == separator + first + each_behind(
            separator,
            rest,
        ),
    decreases rest.len(),
{
    let all = seq![first] + rest;
    if rest.len() == 0 {
        assert(all.drop_last() =~= Seq::empty());
        assert(each_behind(separator, all.drop_last()) =~= Seq::empty());
        assert(each_behind(separator, all) =~= separator + first + each_behind(separator, rest));
    } else {
        assert(all.drop_last() =~= seq![first] + rest.drop_last());
        lemma_each_behind_front(separator, first, rest.drop_last());
        assert(each_behind(separator, all) =~= separator + first + each_behind(separator, rest));
    }
}

/// The members of the entries, each behind a comma.
spec fn further(entries: Seq<(Seq<char>, FsckStatusView)>) -> Seq<char> {
    each_behind(","@, entries.map_values(|e: (Seq<char>, FsckStatusView)| fsck_entry_json(e)))
}

proof fn lemma_further_front(entries: Seq<(Seq<char>, FsckStatusView)>)
    requires
        entries.len() > 0,
    ensures
        further(entries) == ","@ + fsck_entry_json(entries[0]) + further(entries.skip(1)),
{
    let f = |e: (Seq<char>, FsckStatusView)| fsck_entry_json(e);
    assert(entries.map_values(f) =~= seq![fsck_entry_json(entries[0])] + entries.skip(
        1,
    ).map_values(f));
    lemma_each_behind_front(","@, fsck_entry_json(entries[0]), entries.skip(1).map_values(f));
}

proof fn lemma_chain(a: Seq<char>, b: Seq<char>, c: Seq<char>, d: Seq<char>)
    ensures
        a + b + c + d == a + (b + (c + d)),
{
    assert(a + b + c + d =~= a + (b + (c + d)));
}

/// How the members go on: with a comma and the first of them, or with the end.
proof fn lemma_further_starts(entries: Seq<(Seq<char>, FsckStatusView)>, end: Seq<char>)
    ensures
        entries.len() == 0 ==> further(entries) + end == end,
        entries.len() > 0 ==> further(entries) + end == ","@ + (fsck_entry_json(entries[0]) + (
        further(entries.skip(1)) + end)),
{
    if entries.len() == 0 {
        assert(further(entries) =~= Seq::empty());
        assert(Seq::<char>::empty() + end =~= end);
    } else {
        lemma_further_front(entries);
        lemma_chain(","@, fsck_entry_json(entries[0]), further(entries.skip(1)), end);
    }
}

proof fn lemma_first_of_two(a: Seq<char>, b: Seq<char>)
    requires
        a.len() > 0,
    ensures
        (a + b)[0] == a[0],
{
}

proof fn lemma_further(
    a: Seq<(Seq<char>, FsckStatusView)>,
    b: Seq<(Seq<char>, FsckStatusView)>,
)
    requires
        further(a) + "\n  }\n}"@ == further(b) + "\n  }\n}"@,
    ensures
        a == b,
    decreases a.len(),
{
    let end = "\n  }\n}"@;
    let x = further(a.skip(1)) + end;
    let y = further(b.skip(1)) + end;
    assert(","@[0] == ',' && ","@.len() == 1) by {
        reveal_strlit(",");
    }
    assert(end[0] == '\n') by {
        reveal_strlit("\n  }\n}");
    }
    lemma_further_starts(a, end);
    lemma_further_starts(b, end);
    if a.len() > 0 {
        lemma_first_of_two(","@, fsck_entry_json(a[0]) + x);
    }
    if b.len() > 0 {
        lemma_first_of_two(","@, fsck_entry_json(b[0]) + y);
    }
    assert((a.len() > 0) == (b.len() > 0));
    if a.len() > 0 {
        lemma_cancel(","@, fsck_entry_json(a[0]) + x, fsck_entry_json(b[0]) + y);
        lemma_member(a[0], b[0], x, y);
        lemma_further(a.skip(1), b.skip(1));
        assert(a =~= seq![a[0]] + a.skip(1));
        assert(b =~= seq![b[0]] + b.skip(1));
    } else {
        assert(a =~= b);
    }
}

proof fn lemma_ods_json(entries: Seq<(Seq<char>, FsckStatusView)>)
    requires
        entries.len() > 0,
    ensures
        ods_json(entries) == "{\n  \"fsck\": {"@ + fsck_entry_json(entries[0]) + further(
            entries.skip(1),
        ) + "\n  }\n}"@,
{
    let f = |e: (Seq<char>, FsckStatusView)| fsck_entry_json(e);
    assert(entries.map_values(f).skip(1) =~= entries.skip(1).map_values(f));
    assert(ods_json(entries) =~= "{\n  \"fsck\": {"@ + fsck_entry_json(entries[0]) + further(
        entries.skip(1),
    ) + "\n  }\n}"@);
}

/// The text of the status determines what is on record: statuses that differ in a
/// partition, in a code, in an output, in their number or in their order have different
/// texts.
#[verifier::rlimit(50)]
pub proof fn law_status_text_tells_what_is_on_record(
    a: Seq<(Seq<char>, FsckStatusView)>,
    b: Seq<(Seq<char>, FsckStatusView)>,
)
    ensures
        ods_json(a) == ods_json(b) ==> a == b,
{
    reveal_strlit("{}");
    reveal_strlit("{\n  \"fsck\": {");
    let end = "\n  }\n}"@;
    let head = "{\n  \"fsck\": {"@;
    if a.len() > 0 {
        lemma_ods_json(a);
        assert(ods_json(a) =~= head + (fsck_entry_json(a[0]) + (further(a.skip(1)) + end)));
        assert(ods_json(a)[1] == '\n');
    } else {
        assert(ods_json(a)[1] == '}');
    }
    if b.len() > 0 {
        lemma_ods_json(b);
        assert(ods_json(b) =~= head + (fsck_entry_json(b[0]) + (further(b.skip(1)) + end)));
        assert(ods_json(b)[1] == '\n');
    } else {
        assert(ods_json(b)[1] == '}');
    }
    if ods_json(a) == ods_json(b) {
        if a.len() > 0 {
            let x = further(a.skip(1)) + end;
            let y = further(b.skip(1)) + end;
            lemma_cancel(head, fsck_entry_json(a[0]) + x, fsck_entry_json(b[0]) + y);
            lemma_member(a[0], b[0], x, y);
            lemma_further(a.skip(1), b.skip(1));
            assert(a =~= seq![a[0]] + a.skip(1));
            assert(b =~= seq![b[0]] + b.skip(1));
        } else {
            assert(a =~= b);
        }
    }
}

/// The parts of a partition's member, between what stands before it and the end.
proof fn lemma_member_parts(start: Seq<char>, e: (Seq<char>, FsckStatusView), end: Seq<char>)
    ensures
        start + fsck_entry_json(e) + end == start + "\n    "@ + quoted(e.0)
            + ": {\n      \"code\": "@ + signed_decimal(e.1.code as int)
            + ",\n      \"output\": "@ + quoted(e.1.output) + "\n    }"@ + end,
{
    assert(start + fsck_entry_json(e) =~= start + "\n    "@ + quoted(e.0)
        + ": {\n      \"code\": "@ + signed_decimal(e.1.code as int)
        + ",\n      \"output\": "@ + quoted(e.1.output) + "\n    }"@);
}

/// Without results the status is an empty object. With one it is an object with the member
/// `fsck`, which has the partition's member; and each result that comes last adds its
/// partition's member behind a comma, and changes nothing else. A partition's member holds
/// the number that reads as its code, and its output.
#[verifier::rlimit(50)]
pub proof fn law_status_text_has_a_member_for_each_result(
    entries: Seq<(Seq<char>, FsckStatusView)>,
    partition: Seq<char>,
    status: FsckStatusView,
) -> (body: Seq<char>)
    ensures
        entries.len() == 0 ==> ods_json(entries) == "{}"@,
        entries.len() > 0 ==> ods_json(entries) == body + "\n  }\n}"@,
        signed_value(signed_decimal(status.code as int)) == status.code,
        ods_json(entries.push((partition, status))) == (if entries.len() == 0 {
            "{\n  \"fsck\": {"@
        } else {
            body + ","@
        }) + "\n    "@ + quoted(partition) + ": {\n      \"code\": "@ + signed_decimal(
            status.code as int,
        ) + ",\n      \"output\": "@ + quoted(status.output) + "\n    }"@ + "\n  }\n}"@,
{
    let e = (partition, status);
    let new = entries.push(e);
    law_written_number_reads_back(status.code as int, 0, seq![], seq![]);
    lemma_ods_json(new);
    let f = |e: (Seq<char>, FsckStatusView)| fsck_entry_json(e);
    if entries.len() == 0 {
        let start = "{\n  \"fsck\": {"@;
        assert(new.skip(1) =~= Seq::empty());
        assert(further(new.skip(1)) =~= Seq::empty());
        assert(ods_json(new) =~= start + fsck_entry_json(e) + "\n  }\n}"@);
        lemma_member_parts(start, e, "\n  }\n}"@);
        start
    } else {
        lemma_ods_json(entries);
        let body = "{\n  \"fsck\": {"@ + fsck_entry_json(entries[0]) + further(entries.skip(1));
        let more = new.skip(1).map_values(f);
        assert(more.drop_last() =~= entries.skip(1).map_values(f));
        assert(more.last() == fsck_entry_json(e));
        assert(ods_json(new) =~= body + ","@ + fsck_entry_json(e) + "\n  }\n}"@);
        lemma_member_parts(body + ","@, e, "\n  }\n}"@);
        body
    }
}

proof fn lemma_further_parts(
    a: Seq<(Seq<char>, FsckStatusView)>,
    b: Seq<(Seq<char>, FsckStatusView)>,
)
    ensures
        further(a + b) == further(a) + further(b),
    decreases b.len(),
{
    let f = |e: (Seq<char>, FsckStatusView)| fsck_entry_json(e);
    let all = (a + b).map_values(f);
    if b.len() == 0 {
        assert(a + b =~= a);
        assert(further(b) =~= Seq::empty());
        assert(further(a) + further(b) =~= further(a));
    } else {
        lemma_further_parts(a, b.drop_last());
        assert(all.drop_last() =~= (a + b.drop_last()).map_values(f));
        assert(b.map_values(f).drop_last() =~= b.drop_last().map_values(f));
        assert(all.last() == fsck_entry_json(b.last()));
        assert(further(a + b) =~= further(a) + further(b));
    }
}

proof fn lemma_regroup(
    a: Seq<char>,
    b: Seq<char>,
    c: Seq<char>,
    d: Seq<char>,
    e: Seq<char>,
    f: Seq<char>,
)
    ensures
        a + (b + (c + d + e)) + f == a + b + c + d + (e + f),
{
    assert(a + (b + (c + d + e)) + f =~= a + b + c + d + (e + f));
}

/// Every partition's member stands in the text of the status: behind the partition's name,
/// the number that reads as its code on record, and its output on record.
#[verifier::rlimit(50)]
pub proof fn law_member_of_every_partition(
    entries: Seq<(Seq<char>, FsckStatusView)>,
    i: int,
) -> (around: (Seq<char>, Seq<char>))
    requires
        0 <= i < entries.len(),
    ensures
        signed_value(signed_decimal(entries[i].1.code as int)) == entries[i].1.code,
        ods_json(entries) == around.0 + "\n    "@ + quoted(entries[i].0)
            + ": {\n      \"code\": "@ + signed_decimal(entries[i].1.code as int)
            + ",\n      \"output\": "@ + quoted(entries[i].1.output) + "\n    }"@ + around.1,
{
    let e = entries[i];
    let head = "{\n  \"fsck\": {"@;
    let end = "\n  }\n}"@;
    law_written_number_reads_back(e.1.code as int, 0, seq![], seq![]);
    lemma_ods_json(entries);
    let behind = further(entries.skip(i + 1)) + end;
    let before = if i == 0 {
        head
    } else {
        head + fsck_entry_json(entries[0]) + further(entries.subrange(1, i)) + ","@
    };
    if i == 0 {
        assert(ods_json(entries) =~= before + fsck_entry_json(e) + behind);
    } else {
        let first = entries.subrange(1, i);
        let last = entries.skip(i);
        assert(entries.skip(1) =~= first + last);
        lemma_further_parts(first, last);
        lemma_further_front(last);
        assert(last.skip(1) =~= entries.skip(i + 1));
        lemma_regroup(
            head + fsck_entry_json(entries[0]),
            further(first),
            ","@,
            fsck_entry_json(e),
            further(entries.skip(i + 1)),
            end,
        );
    }
    lemma_member_parts(before, e, behind);
    (before, behind)
}

// ---------------------------------------------------------------------------
// The status of a factory reset
// ---------------------------------------------------------------------------

/// A further member tells its value: it is there or not by how the text goes on.
proof fn lemma_optional_member(
    start: Seq<char>,
    v: Option<Seq<char>>,
    w: Option<Seq<char>>,
    x: Seq<char>,
    y: Seq<char>,
)
    requires
        start.len() > 2,
        start[0] == ',',
        x.len() > 0 && (x[0] == ',' ==> x.len() > 2 && x[2] != start[2]),
        y.len() > 0 && (y[0] == ',' ==> y.len() > 2 && y[2] != start[2]),
        optional_member(start, v) + x == optional_member(start, w) + y,
    ensures
        v == w,
        x == y,
{
    let s = optional_member(start, v) + x;
    let t = optional_member(start, w) + y;
    if v is Some {
        assert(s =~= start + (quoted(v->Some_0) + x));
        assert(s[0] == ',' && s[2] == start[2]);
    } else {
        assert(s =~= x);
    }
    if w is Some {
        assert(t =~= start + (quoted(w->Some_0) + y));
        assert(t[0] == ',' && t[2] == start[2]);
    } else {
        assert(t =~= y);
    }
    if v is Some {
        assert(w is Some);
        lemma_cancel(start, quoted(v->Some_0) + x, quoted(w->Some_0) + y);
        law_quoted_text_reads_back(v->Some_0, w->Some_0, x, y);
    }
}

/// The texts as JSON strings, each behind a comma, up to the closing bracket.
#[verifier::rlimit(50)]
proof fn lemma_quoted_list(a: Seq<Seq<char>>, b: Seq<Seq<char>>, x: Seq<char>, y: Seq<char>)
    requires
        each_behind(","@, each_quoted(a)) + "]"@ + x == each_behind(","@, each_quoted(b)) + "]"@
            + y,
    ensures
        a == b,
        x == y,
    decreases a.len(),
{
    reveal_strlit(",");
    reveal_strlit("]");
    let s = each_behind(","@, each_quoted(a)) + "]"@ + x;
    let t = each_behind(","@, each_quoted(b)) + "]"@ + y;
    let c = a.skip(1);
    let d = b.skip(1);
    if a.len() > 0 {
        assert(each_quoted(a) =~= seq![quoted(a[0])] + each_quoted(c));
        lemma_each_behind_front(","@, quoted(a[0]), each_quoted(c));
        assert(s =~= ","@ + (quoted(a[0]) + (each_behind(","@, each_quoted(c)) + "]"@ + x)));
        assert(s[0] == ',');
    } else {
        assert(each_behind(","@, each_quoted(a)) =~= Seq::empty());
        assert(s =~= "]"@ + x);
        assert(s[0] == ']');
    }
    if b.len() > 0 {
        assert(each_quoted(b) =~= seq![quoted(b[0])] + each_quoted(d));
        lemma_each_behind_front(","@, quoted(b[0]), each_quoted(d));
        assert(t =~= ","@ + (quoted(b[0]) + (each_behind(","@, each_quoted(d)) + "]"@ + y)));
        assert(t[0] == ',');
    } else {
        assert(each_behind(","@, each_quoted(b)) =~= Seq::empty());
        assert(t =~= "]"@ + y);
        assert(t[0] == ']');
    }
    if a.len() > 0 {
        let u = each_behind(","@, each_quoted(c)) + "]"@ + x;
        let v = each_behind(","@, each_quoted(d)) + "]"@ + y;
        lemma_cancel(","@, quoted(a[0]) + u, quoted(b[0]) + v);
        law_quoted_text_reads_back(a[0], b[0], u, v);
        lemma_quoted_list(c, d, x, y);
        assert(a =~= seq![a[0]] + c);
        assert(b =~= seq![b[0]] + d);
    } else {
        assert(a =~= b);
        lemma_cancel("]"@, x, y);
    }
}

/// The member for the paths, left out where there are none.
spec fn paths_member(paths: Seq<Seq<char>>) -> Seq<char> {
    if paths.len() == 0 {
        Seq::empty()
    } else {
        ",\"paths\":["@ + joined(","@, each_quoted(paths)) + "]"@
    }
}

#[verifier::rlimit(50)]
proof fn lemma_paths_member(a: Seq<Seq<char>>, b: Seq<Seq<char>>)
    requires
        paths_member(a) + "}"@ == paths_member(b) + "}"@,
    ensures
        a == b,
{
    reveal_strlit(",\"paths\":[");
    reveal_strlit("}");
    let start = ",\"paths\":["@;
    let s = paths_member(a) + "}"@;
    let t = paths_member(b) + "}"@;
    let x = each_behind(","@, each_quoted(a.skip(1))) + "]"@ + "}"@;
    let y = each_behind(","@, each_quoted(b.skip(1))) + "]"@ + "}"@;
    if a.len() > 0 {
        assert(each_quoted(a).skip(1) =~= each_quoted(a.skip(1)));
        assert(s =~= start + (quoted(a[0]) + x));
        assert(s[0] == ',');
    } else {
        assert(s =~= "}"@);
    }
    if b.len() > 0 {
        assert(each_quoted(b).skip(1) =~= each_quoted(b.skip(1)));
        assert(t =~= start + (quoted(b[0]) + y));
        assert(t[0] == ',');
    } else {
        assert(t =~= "}"@);
    }
    if a.len() > 0 {
        lemma_cancel(start, quoted(a[0]) + x, quoted(b[0]) + y);
        law_quoted_text_reads_back(a[0], b[0], x, y);
        lemma_quoted_list(a.skip(1), b.skip(1), "}"@, "}"@);
        assert(a =~= seq![a[0]] + a.skip(1));
        assert(b =~= seq![b[0]] + b.skip(1));
    } else {
        assert(a =~= b);
    }
}

/// How the text of a status goes on behind its code and behind its error.
#[verifier::rlimit(50)]
proof fn lemma_status_text(s: FactoryResetStatusView)
    ensures
        s.json() == "{\"status\":"@ + (decimal(s.status as nat) + (optional_member(
            ",\"error\":"@,
            s.error,
        ) + (optional_member(",\"context\":"@, s.context) + (paths_member(s.paths) + "}"@)))),
        ({
            let rest = paths_member(s.paths) + "}"@;
            let context = optional_member(",\"context\":"@, s.context) + rest;
            let error = optional_member(",\"error\":"@, s.error) + context;
            &&& rest.len() > 0 && (rest[0] == ',' ==> rest.len() > 2 && rest[2] == 'p')
            &&& context.len() > 0 && (context[0] == ',' ==> context.len() > 2 && (context[2]
                == 'p' || context[2] == 'c'))
            &&& error.len() > 0 && !is_digit(error[0])
        }),
{
    reveal_strlit(",\"paths\":[");
    reveal_strlit(",\"context\":");
    reveal_strlit(",\"error\":");
    reveal_strlit("}");
    let rest = paths_member(s.paths) + "}"@;
    let context = optional_member(",\"context\":"@, s.context) + rest;
    let error = optional_member(",\"error\":"@, s.error) + context;
    assert(s.json() =~= "{\"status\":"@ + (decimal(s.status as nat) + error));
    if s.paths.len() == 0 {
        assert(rest =~= "}"@);
    } else {
        assert(rest[0] == ',' && rest[2] == 'p');
    }
    if s.context is None {
        assert(context =~= rest);
    } else {
        assert(context[0] == ',' && context[2] == 'c');
    }
    if s.error is None {
        assert(error =~= context);
    } else {
        assert(error[0] == ',');
    }
    assert(rest[0] == ',' || rest[0] == '}');
    assert(context[0] == ',' || context[0] == '}');
}

/// The text of a factory-reset status determines the status: its code, its error and its
/// context, there or not, and its paths in order.
#[verifier::rlimit(50)]
pub proof fn law_reset_status_text_tells_the_status(
    a: FactoryResetStatusView,
    b: FactoryResetStatusView,
)
    ensures
        a.json() == b.json() ==> a == b,
{
    reveal_strlit(",\"context\":");
    reveal_strlit(",\"error\":");
    lemma_status_text(a);
    lemma_status_text(b);
    if a.json() == b.json() {
        let ra = paths_member(a.paths) + "}"@;
        let rb = paths_member(b.paths) + "}"@;
        let ca = optional_member(",\"context\":"@, a.context) + ra;
        let cb = optional_member(",\"context\":"@, b.context) + rb;
        let ea = optional_member(",\"error\":"@, a.error) + ca;
        let eb = optional_member(",\"error\":"@, b.error) + cb;
        lemma_cancel(
            "{\"status\":"@,
            decimal(a.status as nat) + ea,
            decimal(b.status as nat) + eb,
        );
        law_written_number_reads_back(a.status as int, b.status as int, ea, eb);
        lemma_optional_member(",\"error\":"@, a.error, b.error, ca, cb);
        lemma_optional_member(",\"context\":"@, a.context, b.context, ra, rb);
        lemma_paths_member(a.paths, b.paths);
        assert(a =~= b);
    }
}

/// A reset without an error has the code zero and its paths, and nothing else; one with an
/// error has the code, the error, the context and the paths that it is made of.
pub proof fn law_reset_status_has_what_it_is_made_of(
    code: u32,
    error: Seq<char>,
    context: Option<Seq<char>>,
    paths: Seq<Seq<char>>,
)
    ensures
        ({
            let success = FactoryResetStatusView::of_success(paths);
            let failure = FactoryResetStatusView::of_error(code, error, context, paths);
            &&& success.status == 0
            &&& success.error is None && success.context is None
            &&& success.paths == paths
            &&& failure.status == code
            &&& failure.error == Some(error) && failure.context == context
            &&& failure.paths == paths
        }),
{
}

impl FactoryResetStatusView {
    /// The status with one path more.
    pub open spec fn and_path(self, path: Seq<char>) -> FactoryResetStatusView {
        FactoryResetStatusView {
            status: self.status,
            error: self.error,
            context: self.context,
            paths: self.paths.push(path),
        }
    }
}

/// The status up to its paths.
spec fn opening(s: FactoryResetStatusView) -> Seq<char> {
    "{\"status\":"@ + decimal(s.status as nat) + (if s.error is Some {
        ",\"error\":"@ + quoted(s.error->Some_0)
    } else {
        ""@
    }) + (if s.context is Some {
        ",\"context\":"@ + quoted(s.context->Some_0)
    } else {
        ""@
    })
}

proof fn lemma_closing()
    ensures
        "]}"@ == "]"@ + "}"@,
        ""@ == Seq::<char>::empty(),
{
    reveal_strlit("");
    reveal_strlit("]");
    reveal_strlit("}");
    reveal_strlit("]}");
    assert("]}"@ =~= "]"@ + "}"@);
    assert(""@ =~= Seq::<char>::empty());
}

proof fn lemma_list_closes(start: Seq<char>, name: Seq<char>, list: Seq<char>)
    ensures
        start + (name + list + "]"@) + "}"@ == start + name + list + "]}"@,
{
    lemma_closing();
    assert(start + (name + list + "]"@) + "}"@ =~= start + name + list + ("]"@ + "}"@));
}

proof fn lemma_quoted_push(paths: Seq<Seq<char>>, path: Seq<char>)
    ensures
        joined(","@, each_quoted(paths.push(path))) == (if paths.len() == 0 {
            quoted(path)
        } else {
            joined(","@, each_quoted(paths)) + ","@ + quoted(path)
        }),
{
    law_parts_are_joined_in_order(","@, each_quoted(paths), quoted(path));
    assert(each_quoted(paths.push(path)) =~= each_quoted(paths).push(quoted(path)));
}

/// A factory-reset status is an object with the number that reads as its code, and with
/// its error and its context where it has them; with paths it has the list of them, to which
/// each path that comes last adds its string behind a comma.
#[verifier::rlimit(50)]
pub proof fn law_reset_status_text_has_its_members(
    s: FactoryResetStatusView,
    path: Seq<char>,
) -> (body: Seq<char>)
    ensures
        signed_value(decimal(s.status as nat)) == s.status,
        s.paths.len() == 0 ==> s.json() == body + "}"@,
        s.paths.len() == 0 ==> body == "{\"status\":"@ + decimal(s.status as nat) + (
        if s.error is Some {
            ",\"error\":"@ + quoted(s.error->Some_0)
        } else {
            ""@
        }) + (if s.context is Some {
            ",\"context\":"@ + quoted(s.context->Some_0)
        } else {
            ""@
        }),
        s.paths.len() > 0 ==> s.json() == body + "]}"@,
        s.paths.len() == 0 ==> s.and_path(path).json() == body + ",\"paths\":["@ + quoted(path)
            + "]}"@,
        s.paths.len() > 0 ==> s.and_path(path).json() == body + ","@ + quoted(path) + "]}"@,
{
    law_written_number_reads_back(s.status as int, 0, seq![], seq![]);
    lemma_closing();
    let start = opening(s);
    let list = joined(","@, each_quoted(s.paths));
    let more = joined(","@, each_quoted(s.paths.push(path)));
    lemma_quoted_push(s.paths, path);
    assert(opening(s.and_path(path)) == start);
    if s.paths.len() == 0 {
        assert(start + Seq::<char>::empty() =~= start);
        lemma_list_closes(start, ",\"paths\":["@, more);
        start
    } else {
        let body = start + ",\"paths\":["@ + list;
        lemma_list_closes(start, ",\"paths\":["@, list);
        lemma_list_closes(start, ",\"paths\":["@, more);
        assert(start + ",\"paths\":["@ + more =~= body + ","@ + quoted(path));
        body
    }
}

/// The status of a factory reset is written to its file by one effect: `null` when the
/// reset starts, and what it came to when it ends.
pub proof fn law_reset_status_is_written_to_its_file(
    status: FactoryResetStatusView,
    outcomes: Seq<OutcomeView>,
    at: int,
)
    requires
        0 <= at <= outcomes.len(),
    ensures
        follows(
            null_status_progress(outcomes, at),
            seq![EffectView::WriteText { path: "/tmp/factory-reset.json"@, text: "null"@ }],
            |k: int, o: OutcomeView| o is Done,
            |k: int, o: OutcomeView|
                InitramfsErrorView::Io(
                    "Failed to write null status to "@ + "/tmp/factory-reset.json"@ + ": "@
                        + reason_of(o),
                ),
            outcomes,
            at,
        ),
        follows(
            status_progress(status, outcomes, at),
            seq![EffectView::WriteText { path: "/tmp/factory-reset.json"@, text: status.json() }],
            |k: int, o: OutcomeView| o is Done,
            |k: int, o: OutcomeView|
                InitramfsErrorView::Io(
                    "Failed to write status to "@ + "/tmp/factory-reset.json"@ + ": "@
                        + reason_of(o),
                ),
            outcomes,
            at,
        ),
{
}

}
