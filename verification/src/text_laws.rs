//! What searching, splitting, joining, reading and writing text come to.

use vstd::prelude::*;
use vstd::string::*;

use crate::error::{FactoryResetErrorView, InitramfsErrorView, ResizeDataErrorView};
use crate::json::{member, strings_among, strings_in, strings_under, JsonTree};
use crate::number::{
    all_digits, decimal, decimal_value, digits_of, is_digit, lemma_leading_digits,
    number, signed_decimal, trailing_digits, NumberFault,
};
use crate::text::{
    after_prefix, contains_text, each_behind, field, first_index, first_word, is_white_space,
    joined, lemma_first_index, lines, next_of_kind, occurs_at, without_leading_slashes,
};

verus! {

// ---------------------------------------------------------------------------
// Searching and splitting
// ---------------------------------------------------------------------------

/// White space are the characters that Unicode lists as such.
pub proof fn law_white_space_is_listed(c: char)
    ensures
        is_white_space(c) <==> seq![
            0x09u32,
            0x0au32,
            0x0bu32,
            0x0cu32,
            0x0du32,
            0x20u32,
            0x85u32,
            0xa0u32,
            0x1680u32,
            0x2000u32,
            0x2001u32,
            0x2002u32,
            0x2003u32,
            0x2004u32,
            0x2005u32,
            0x2006u32,
            0x2007u32,
            0x2008u32,
            0x2009u32,
            0x200au32,
            0x2028u32,
            0x2029u32,
            0x202fu32,
            0x205fu32,
            0x3000u32,
        ].contains(c as u32),
{
    let list = seq![
        0x09u32,
        0x0au32,
        0x0bu32,
        0x0cu32,
        0x0du32,
        0x20u32,
        0x85u32,
        0xa0u32,
        0x1680u32,
        0x2000u32,
        0x2001u32,
        0x2002u32,
        0x2003u32,
        0x2004u32,
        0x2005u32,
        0x2006u32,
        0x2007u32,
        0x2008u32,
        0x2009u32,
        0x200au32,
        0x2028u32,
        0x2029u32,
        0x202fu32,
        0x205fu32,
        0x3000u32,
    ];
    let n = c as u32;
    let i: int = if n <= 0x0d {
        n - 0x09
    } else if n == 0x20 {
        5
    } else if n == 0x85 {
        6
    } else if n == 0xa0 {
        7
    } else if n == 0x1680 {
        8
    } else if n <= 0x200a {
        n - 0x2000 + 9
    } else if n == 0x2028 {
        20
    } else if n == 0x2029 {
        21
    } else if n == 0x202f {
        22
    } else if n == 0x205f {
        23
    } else {
        24
    };
    if is_white_space(c) {
        assert(list[i] == n);
    }
}

/// What is left without leading slashes is the text from its first character on that is no
/// slash.
pub proof fn law_only_leading_slashes_are_gone(s: Seq<char>) -> (k: int)
    ensures
        0 <= k <= s.len(),
        without_leading_slashes(s) == s.skip(k),
        forall|i: int| 0 <= i < k ==> s[i] == '/',
        k < s.len() ==> s[k] != '/',
    decreases s.len(),
{
    if s.len() > 0 && s[0] == '/' {
        let j = law_only_leading_slashes_are_gone(s.skip(1));
        assert(s.skip(1).skip(j) =~= s.skip(j + 1));
        assert forall|i: int| 0 <= i < j + 1 implies s[i] == '/' by {
            if i > 0 {
                assert(s.skip(1)[i - 1] == '/');
            }
        }
        if j + 1 < s.len() {
            assert(s.skip(1)[j] == s[j + 1]);
        }
        j + 1
    } else {
        assert(s.skip(0) =~= s);
        0
    }
}

/// A prefix is cut off just where the text starts with it.
pub proof fn law_prefix_is_cut_off(s: Seq<char>, prefix: Seq<char>, rest: Seq<char>)
    ensures
        after_prefix(s, prefix) == Some(rest) <==> s == prefix + rest,
{
    if s == prefix + rest {
        assert(s.take(prefix.len() as int) =~= prefix);
        assert(s.skip(prefix.len() as int) =~= rest);
    }
    if after_prefix(s, prefix) == Some(rest) {
        assert(s =~= s.take(prefix.len() as int) + s.skip(prefix.len() as int));
    }
}

/// A text is found wherever it stands.
pub proof fn law_text_is_found_where_it_stands(before: Seq<char>, text: Seq<char>, behind: Seq<char>)
    ensures
        contains_text(before + text + behind, text),
{
    let s = before + text + behind;
    let i = before.len() as int;
    assert(s.subrange(i, i + text.len()) =~= text);
    assert(occurs_at(s, text, i));
}

/// A text that is found stands between what is before it and what is behind it.
pub proof fn law_text_that_is_found_is_there(s: Seq<char>, text: Seq<char>) -> (around: (
    Seq<char>,
    Seq<char>,
))
    requires
        contains_text(s, text),
    ensures
        s == around.0 + text + around.1,
{
    let i = choose|i: int| occurs_at(s, text, i);
    assert(s =~= s.take(i) + s.subrange(i, i + text.len()) + s.skip(i + text.len()));
    (s.take(i), s.skip(i + text.len()))
}

/// Whether `c` stands nowhere in `s`.
pub open spec fn is_without(s: Seq<char>, c: char) -> bool {
    forall|i: int| 0 <= i < s.len() ==> #[trigger] s[i] != c
}

proof fn lemma_first_index_between(a: Seq<char>, c: char, b: Seq<char>)
    requires
        is_without(a, c),
    ensures
        first_index(a + seq![c] + b, c, 0) == a.len(),
        first_index(a, c, 0) == a.len(),
{
    let s = a + seq![c] + b;
    lemma_first_index(s, c, 0);
    lemma_first_index(a, c, 0);
    let i = first_index(s, c, 0);
    assert(s[a.len() as int] == c);
    if i < a.len() {
        assert(s[i] == a[i]);
    }
}

/// A line ends at its line feed, a carriage return in front of that is not part of it, and
/// the other lines are those behind it. The last line ends with the text; there is none in
/// an empty text.
pub proof fn law_line_ends_at_its_line_feed(line: Seq<char>, rest: Seq<char>)
    requires
        is_without(line, '\n'),
    ensures
        line.len() == 0 || line.last() != '\r' ==> lines(line + seq!['\n'] + rest) == seq![line]
            + lines(rest),
        lines(line + seq!['\r', '\n'] + rest) == seq![line] + lines(rest),
        line.len() > 0 ==> lines(line) == seq![line],
        line.len() == 0 ==> lines(line) == Seq::<Seq<char>>::empty(),
{
    let s = line + seq!['\n'] + rest;
    lemma_first_index_between(line, '\n', rest);
    assert(s.take(line.len() as int) =~= line);
    assert(s.skip(line.len() as int + 1) =~= rest);
    let more = line.push('\r');
    let t = more + seq!['\n'] + rest;
    assert(is_without(more, '\n'));
    lemma_first_index_between(more, '\n', rest);
    assert(t =~= line + seq!['\r', '\n'] + rest);
    assert(t.take(more.len() as int) =~= more);
    assert(t.skip(more.len() as int + 1) =~= rest);
    assert(more.drop_last() =~= line);
}

/// The pieces of a text are what stands up to the first separator, and then the pieces of
/// what stands behind it. A text without the separator is its only piece.
pub proof fn law_pieces_stand_between_separators(
    piece: Seq<char>,
    separator: char,
    rest: Seq<char>,
    k: nat,
)
    requires
        is_without(piece, separator),
    ensures
        field(piece + seq![separator] + rest, separator, 0) == Some(piece),
        field(piece + seq![separator] + rest, separator, k + 1) == field(rest, separator, k),
        field(piece, separator, 0) == Some(piece),
        field(piece, separator, k + 1) is None,
{
    let s = piece + seq![separator] + rest;
    lemma_first_index_between(piece, separator, rest);
    assert(s.take(piece.len() as int) =~= piece);
    assert(piece.take(piece.len() as int) =~= piece);
    assert(s.skip(piece.len() as int + 1) =~= rest);
}

proof fn lemma_next_of_kind(s: Seq<char>, white: bool, from: int, to: int)
    requires
        0 <= from <= to <= s.len(),
        forall|i: int| from <= i < to ==> is_white_space(#[trigger] s[i]) != white,
        to < s.len() ==> is_white_space(s[to]) == white,
    ensures
        next_of_kind(s, white, from) == to,
    decreases to - from,
{
    if from < to {
        assert(is_white_space(s[from]) != white);
        lemma_next_of_kind(s, white, from + 1, to);
    }
}

/// The first word stands behind any white space and ends at the next. A text of white space
/// alone has none.
pub proof fn law_first_word_stands_between_white_space(
    blank: Seq<char>,
    word: Seq<char>,
    rest: Seq<char>,
)
    requires
        forall|i: int| 0 <= i < blank.len() ==> is_white_space(#[trigger] blank[i]),
        forall|i: int| 0 <= i < word.len() ==> !is_white_space(#[trigger] word[i]),
        rest.len() > 0 ==> is_white_space(rest[0]),
    ensures
        word.len() > 0 ==> first_word(blank + word + rest) == Some(word),
        first_word(blank) is None,
{
    lemma_next_of_kind(blank, false, 0, blank.len() as int);
    if word.len() > 0 {
        let s = blank + word + rest;
        let a = blank.len() as int;
        let b = a + word.len();
        assert forall|i: int| 0 <= i < a implies is_white_space(#[trigger] s[i]) != false by {
            assert(s[i] == blank[i]);
        }
        assert(s[a] == word[0]);
        assert forall|i: int| a <= i < b implies is_white_space(#[trigger] s[i]) != true by {
            assert(s[i] == word[i - a]);
        }
        if b < s.len() {
            assert(s[b] == rest[0]);
        }
        lemma_next_of_kind(s, false, 0, a);
        lemma_next_of_kind(s, true, a, b);
        assert(s.subrange(a, b) =~= word);
    }
}

// ---------------------------------------------------------------------------
// Joining
// ---------------------------------------------------------------------------

/// A part that comes last stands behind a separator, unless it is the only one.
pub proof fn law_parts_are_joined_in_order(
    separator: Seq<char>,
    parts: Seq<Seq<char>>,
    last: Seq<char>,
)
    ensures
        joined(separator, Seq::empty()) == Seq::<char>::empty(),
        parts.len() == 0 ==> joined(separator, parts.push(last)) == last,
        parts.len() > 0 ==> joined(separator, parts.push(last)) == joined(separator, parts)
            + separator + last,
{
    let all = parts.push(last);
    if parts.len() == 0 {
        assert(all.skip(1) =~= Seq::empty());
        assert(each_behind(separator, all.skip(1)) =~= Seq::empty());
        assert(joined(separator, all) =~= last);
    } else {
        assert(all.skip(1).drop_last() =~= parts.skip(1));
        assert(joined(separator, all) =~= joined(separator, parts) + separator + last);
    }
}

// ---------------------------------------------------------------------------
// Numbers
// ---------------------------------------------------------------------------

/// The ten digits are the digits, and each has its value.
pub proof fn law_digits_are_ten(c: char, d: nat)
    ensures
        is_digit(c) <==> "0123456789"@.contains(c),
        d < 10 ==> is_digit("0123456789"@[d as int]),
        d < 10 ==> decimal(d) == seq!["0123456789"@[d as int]],
        d < 10 ==> decimal_value(seq!["0123456789"@[d as int]]) == d,
{
    reveal_strlit("0123456789");
    let s = "0123456789"@;
    if is_digit(c) {
        assert(s[c as int - 48] == c);
    }
    if d < 10 {
        let one = seq![s[d as int]];
        assert(one.drop_last() =~= Seq::empty());
        assert(decimal_value(one.drop_last()) == 0);
        assert(s[d as int] == (48 + d) as char);
    }
}

/// Numbers are written and read by place: a digit behind others makes ten times as much and
/// its own value.
pub proof fn law_numbers_are_written_by_place(n: nat, s: Seq<char>, d: nat)
    requires
        d < 10,
    ensures
        n > 0 ==> decimal(n * 10 + d) == decimal(n).push("0123456789"@[d as int]),
        decimal_value(s.push("0123456789"@[d as int])) == decimal_value(s) * 10 + d,
        decimal_value(Seq::empty()) == 0,
{
    reveal_strlit("0123456789");
    let m = n * 10 + d;
    assert(m / 10 == n && m % 10 == d);
    let t = s.push("0123456789"@[d as int]);
    assert(t.drop_last() =~= s);
}

/// A negative number is written with a minus sign in front of its magnitude.
pub proof fn law_minus_sign_stands_in_front(n: nat)
    ensures
        signed_decimal(n as int) == decimal(n),
        n > 0 ==> signed_decimal(-(n as int)) == "-"@ + decimal(n),
{
    reveal_strlit("-");
    assert("-"@ =~= seq!['-']);
}

/// A text of digits reads as the number that it spells, with a plus sign in front or not,
/// if that fits into 32 bits. It does not read otherwise: without any text, without digits,
/// with a number that is too large, or with another character behind the digits.
pub proof fn law_number_is_read_from_its_digits(digits: Seq<char>, c: char, rest: Seq<char>)
    requires
        all_digits(digits),
        !is_digit(c),
    ensures
        ({
            let n = decimal_value(digits);
            let fits = n <= u32::MAX;
            let too_large = Err::<u32, NumberFault>(NumberFault::TooLarge);
            let invalid = Err::<u32, NumberFault>(NumberFault::InvalidDigit);
            &&& number(Seq::empty()) == Err::<u32, NumberFault>(NumberFault::Empty)
            &&& number(seq!['+'] + digits) == (if digits.len() == 0 {
                invalid
            } else if fits {
                Ok(n as u32)
            } else {
                too_large
            })
            &&& digits.len() > 0 ==> number(digits) == number(seq!['+'] + digits)
            &&& digits.len() > 0 || c != '+' ==> number(digits + seq![c] + rest) == (if fits {
                invalid
            } else {
                too_large
            })
            &&& number(seq!['+'] + digits + seq![c] + rest) == (if fits {
                invalid
            } else {
                too_large
            })
        }),
{
    let k = digits.len() as int;
    let plain = seq!['+'] + digits;
    let wrong = digits + seq![c] + rest;
    let signed = seq!['+'] + digits + seq![c] + rest;
    assert(digits.take(k) =~= digits);
    lemma_leading_digits(digits, k);
    assert(plain.skip(1) =~= digits);
    assert(wrong.take(k) =~= digits);
    assert(wrong[k] == c);
    lemma_leading_digits(wrong, k);
    assert(signed.skip(1) =~= wrong);
    if k > 0 {
        assert(is_digit(digits[0]));
        assert(wrong[0] == digits[0]);
    } else {
        assert(digits =~= Seq::empty());
    }
    assert(digits_of(plain) == digits);
    assert(digits_of(signed) == wrong);
}

/// The trailing digits are those at the end of the text, and no digit stands before them.
pub proof fn law_trailing_digits_are_all_at_the_end(s: Seq<char>) -> (base: Seq<char>)
    ensures
        s == base + trailing_digits(s),
        all_digits(trailing_digits(s)),
        base.len() == 0 || !is_digit(base.last()),
    decreases s.len(),
{
    if s.len() > 0 && is_digit(s.last()) {
        let base = law_trailing_digits_are_all_at_the_end(s.drop_last());
        assert(s =~= s.drop_last().push(s.last()));
        assert((base + trailing_digits(s.drop_last())).push(s.last()) =~= base
            + trailing_digits(s.drop_last()).push(s.last()));
        base
    } else {
        assert(s =~= s + trailing_digits(s));
        s
    }
}

/// Why a text is no number, in words.
pub proof fn law_number_faults_in_words()
    ensures
        NumberFault::Empty.text() == "cannot parse integer from empty string"@,
        NumberFault::InvalidDigit.text() == "invalid digit found in string"@,
        NumberFault::TooLarge.text() == "number too large to fit in target type"@,
{
}

// ---------------------------------------------------------------------------
// Lists of strings
// ---------------------------------------------------------------------------

/// The strings of an array are its elements that are strings, each in its place; under a
/// key that is missing there is no list, and where no array stands it is empty.
pub proof fn law_strings_of_a_list(
    items: Seq<JsonTree>,
    text: Seq<char>,
    other: JsonTree,
    members: Map<Seq<char>, JsonTree>,
    key: Seq<char>,
)
    requires
        !(other is Text),
    ensures
        strings_among(Seq::empty()) == Seq::<Seq<char>>::empty(),
        strings_among(items.push(JsonTree::Text(text))) == strings_among(items).push(text),
        strings_among(items.push(other)) == strings_among(items),
        strings_in(JsonTree::Array(items)) == strings_among(items),
        !(other is Array) ==> strings_in(other) == Seq::<Seq<char>>::empty(),
        !members.contains_key(key) ==> strings_under(JsonTree::Object(members), key) is None,
        members.contains_key(key) ==> strings_under(JsonTree::Object(members), key) == Some(
            strings_in(members[key]),
        ),
        !(other is Object) ==> strings_under(other, key) is None,
        !(other is Object) ==> member(other, key) is None,
{
    assert(items.push(JsonTree::Text(text)).drop_last() =~= items);
    assert(items.push(other).drop_last() =~= items);
}

// ---------------------------------------------------------------------------
// Errors in words
// ---------------------------------------------------------------------------

/// Each error says what it is of, and then what went wrong.
pub proof fn law_errors_say_what_went_wrong(
    what: Seq<char>,
    reason: Seq<char>,
    code: i32,
    reset: FactoryResetErrorView,
    resize: ResizeDataErrorView,
)
    ensures
        FactoryResetErrorView::InvalidConfig(what).text() == "invalid factory-reset config: "@
            + what,
        FactoryResetErrorView::MissingField(what).text() == "missing field: "@ + what,
        (FactoryResetErrorView::BackupFailed { path: what, reason }).text() == "backup of "@ + what
            + " failed: "@ + reason,
        (FactoryResetErrorView::RestoreFailed { path: what, reason }).text() == "restore of "@
            + what + " failed: "@ + reason,
        (FactoryResetErrorView::ReformatFailed { device: what, reason }).text() == "reformat of "@
            + what + " failed: "@ + reason,
        FactoryResetErrorView::MountError(what).text() == "mount error: "@ + what,
        FactoryResetErrorView::Io(what).text() == "I/O error: "@ + what,
        ResizeDataErrorView::InvalidDevicePath(what).text() == "invalid device path: "@ + what,
        ResizeDataErrorView::ExtendedPartitionNotFound(what).text() == "no extended partition on "@
            + what,
        (ResizeDataErrorView::CommandFailed { command: what, code, output: reason }).text() == what
            + " failed with code "@ + signed_decimal(code as int) + ": "@ + reason,
        ResizeDataErrorView::Io(what).text() == "I/O error: "@ + what,
        InitramfsErrorView::Io(what).text() == "I/O error: "@ + what,
        InitramfsErrorView::Bootloader(what).text() == "bootloader error: "@ + what,
        InitramfsErrorView::FactoryReset(reset).text() == "factory reset: "@ + reset.text(),
        InitramfsErrorView::ResizeData(resize).text() == "data resize: "@ + resize.text(),
{
}

}
