//! Text: decimal numbers, substring search, splitting, trimming and padding.

use vstd::prelude::*;
use vstd::string::{StrSliceExecFns, StringExecFns};

verus! {

/// The decimal digit of a number below ten.
pub open spec fn digit_char(d: nat) -> char {
    (0x30 + d) as char
}

/// A number in decimal, without leading zeros.
pub open spec fn decimal(n: nat) -> Seq<char>
    decreases n,
{
    if n < 10 {
        seq![digit_char(n)]
    } else {
        decimal(n / 10).push(digit_char(n % 10))
    }
}

fn digit_text(d: u64) -> (r: &'static str)
    requires
        d < 10,
    ensures
        r@ == seq![digit_char(d as nat)],
{
    proof {
        reveal_strlit("0");
        reveal_strlit("1");
        reveal_strlit("2");
        reveal_strlit("3");
        reveal_strlit("4");
        reveal_strlit("5");
        reveal_strlit("6");
        reveal_strlit("7");
        reveal_strlit("8");
        reveal_strlit("9");
    }
    let r = match d {
        0 => "0",
        1 => "1",
        2 => "2",
        3 => "3",
        4 => "4",
        5 => "5",
        6 => "6",
        7 => "7",
        8 => "8",
        _ => "9",
    };
    assert(r@ =~= seq![digit_char(d as nat)]);
    r
}

/// Appends a number in decimal.
pub fn push_decimal(text: &mut String, n: u64)
    ensures
        final(text)@ == old(text)@ + decimal(n as nat),
    decreases n,
{
    if n < 10 {
        text.append(digit_text(n));
    } else {
        push_decimal(text, n / 10);
        let ghost before = text@;
        text.append(digit_text(n % 10));
        assert(text@ =~= old(text)@ + decimal(n as nat));
    }
}

/// `needle` stands in `hay` from character `at` on.
pub open spec fn occurs_at(hay: Seq<char>, needle: Seq<char>, at: int) -> bool {
    0 <= at && at + needle.len() <= hay.len() && hay.subrange(at, at + needle.len()) == needle
}

/// `needle` stands somewhere in `hay`.
pub open spec fn contains_text(hay: Seq<char>, needle: Seq<char>) -> bool {
    exists|at: int| occurs_at(hay, needle, at)
}

fn matches_at(hay: &str, needle: &str, at: usize, len: usize) -> (r: bool)
    requires
        len == needle@.len(),
        at + len <= hay@.len() <= usize::MAX,
    ensures
        r == occurs_at(hay@, needle@, at as int),
{
    let mut i: usize = 0;
    while i < len
        invariant
            i <= len,
            len == needle@.len(),
            at + len <= hay@.len() <= usize::MAX,
            forall|k: int| 0 <= k < i ==> hay@[at + k] == needle@[k],
        decreases len - i,
    {
        if hay.get_char(at + i) != needle.get_char(i) {
            assert(hay@.subrange(at as int, at + len)[i as int] != needle@[i as int]);
            return false;
        }
        i += 1;
    }
    assert(hay@.subrange(at as int, at + len) =~= needle@);
    true
}

/// Whether `needle` stands somewhere in `hay`.
pub fn text_contains(hay: &str, needle: &str) -> (r: bool)
    ensures
        r == contains_text(hay@, needle@),
{
    let n: usize = hay.unicode_len();
    let m: usize = needle.unicode_len();
    if m > n {
        return false;
    }
    let last: usize = n - m;
    let mut at: usize = 0;
    loop
        invariant
            at <= last,
            n == hay@.len(),
            m == needle@.len(),
            last == n - m,
            forall|k: int| 0 <= k < at ==> !occurs_at(hay@, needle@, k),
        decreases last - at,
    {
        if matches_at(hay, needle, at, m) {
            return true;
        }
        if at == last {
            return false;
        }
        at += 1;
    }
}

/// Whether two texts are equal.
pub fn same_text(a: &str, b: &str) -> (r: bool)
    ensures
        r == (a@ == b@),
{
    let n: usize = a.unicode_len();
    if n != b.unicode_len() {
        return false;
    }
    let r = matches_at(a, b, 0, n);
    assert(a@.subrange(0, n as int) =~= a@);
    r
}

/// The pieces of a text between the separators. There is one piece more than there are separators.
pub open spec fn pieces(text: Seq<char>, separator: char) -> Seq<Seq<char>>
    decreases text.len(),
{
    if text.len() == 0 {
        seq![Seq::empty()]
    } else {
        let before = pieces(text.drop_last(), separator);
        if text.last() == separator {
            before.push(Seq::empty())
        } else {
            before.drop_last().push(before.last().push(text.last()))
        }
    }
}

/// The texts that a list of strings holds.
pub open spec fn text_views(list: Seq<String>) -> Seq<Seq<char>> {
    list.map_values(|s: String| s@)
}

/// Cuts a text at its separators.
pub fn split_text(text: &str, separator: char) -> (r: Vec<String>)
    ensures
        text_views(r@) == pieces(text@, separator),
{
    let n: usize = text.unicode_len();
    let mut r: Vec<String> = Vec::new();
    let mut start: usize = 0;
    let mut i: usize = 0;
    assert(text@.subrange(0, 0) =~= Seq::<char>::empty());
    assert(pieces(text@.take(0), separator) =~= seq![Seq::<char>::empty()]);
    assert(text_views(r@).push(text@.subrange(0, 0)) =~= pieces(text@.take(0), separator));
    while i < n
        invariant
            start <= i <= n,
            n == text@.len(),
            text_views(r@).push(text@.subrange(start as int, i as int)) == pieces(
                text@.take(i as int),
                separator,
            ),
        decreases n - i,
    {
        let ghost before = pieces(text@.take(i as int), separator);
        let ghost done = text_views(r@);
        proof {
            assert(text@.take(i + 1).drop_last() =~= text@.take(i as int));
            assert(before.drop_last() =~= done);
        }
        if text.get_char(i) == separator {
            let piece = text.substring_char(start, i).to_owned();
            r.push(piece);
            start = i + 1;
            assert(text_views(r@) =~= before);
            assert(text@.subrange(start as int, i + 1) =~= Seq::<char>::empty());
        } else {
            assert(text@.subrange(start as int, i + 1) =~= text@.subrange(
                start as int,
                i as int,
            ).push(text@[i as int]));
        }
        i += 1;
        assert(text_views(r@).push(text@.subrange(start as int, i as int)) =~= pieces(
            text@.take(i as int),
            separator,
        ));
    }
    let piece = text.substring_char(start, n).to_owned();
    r.push(piece);
    assert(text@.take(n as int) =~= text@);
    assert(text_views(r@) =~= pieces(text@, separator));
    r
}

/// A character is Unicode white space.
pub open spec fn white_space(c: char) -> bool {
    let n = c as u32;
    ||| 0x09 <= n <= 0x0d
    ||| n == 0x20
    ||| n == 0x85
    ||| n == 0xa0
    ||| n == 0x1680
    ||| 0x2000 <= n <= 0x200a
    ||| n == 0x2028
    ||| n == 0x2029
    ||| n == 0x202f
    ||| n == 0x205f
    ||| n == 0x3000
}

/// Whether a character is Unicode white space.
pub fn is_white_space(c: char) -> (r: bool)
    ensures
        r == white_space(c),
{
    let n: u32 = c as u32;
    (0x09 <= n && n <= 0x0d) || n == 0x20 || n == 0x85 || n == 0xa0 || n == 0x1680 || (0x2000 <= n
        && n <= 0x200a) || n == 0x2028 || n == 0x2029 || n == 0x202f || n == 0x205f || n == 0x3000
}

/// A text without the white space at its front.
pub open spec fn trimmed_front(text: Seq<char>) -> Seq<char>
    decreases text.len(),
{
    if text.len() > 0 && white_space(text[0]) {
        trimmed_front(text.drop_first())
    } else {
        text
    }
}

/// A text without the white space at its back.
pub open spec fn trimmed_back(text: Seq<char>) -> Seq<char>
    decreases text.len(),
{
    if text.len() > 0 && white_space(text.last()) {
        trimmed_back(text.drop_last())
    } else {
        text
    }
}

/// A text without the white space around it.
pub open spec fn trimmed(text: Seq<char>) -> Seq<char> {
    trimmed_back(trimmed_front(text))
}

/// A text without the white space around it.
pub fn trim_text<'a>(text: &'a str) -> (r: &'a str)
    ensures
        r@ == trimmed(text@),
{
    let n: usize = text.unicode_len();
    let mut from: usize = 0;
    let mut to: usize = n;
    assert(text@.subrange(0, n as int) =~= text@);
    while from < n && is_white_space(text.get_char(from))
        invariant
            from <= n,
            n == text@.len(),
            trimmed_front(text@.subrange(from as int, n as int)) == trimmed_front(text@),
        decreases n - from,
    {
        assert(text@.subrange(from as int, n as int).drop_first() =~= text@.subrange(
            from + 1,
            n as int,
        ));
        from += 1;
    }
    while from < to && is_white_space(text.get_char(to - 1))
        invariant
            from <= to <= n,
            n == text@.len(),
            trimmed_front(text@) == text@.subrange(from as int, n as int),
            trimmed_back(text@.subrange(from as int, to as int)) == trimmed_back(
                text@.subrange(from as int, n as int),
            ),
        decreases to - from,
    {
        assert(text@.subrange(from as int, to as int).drop_last() =~= text@.subrange(
            from as int,
            to - 1,
        ));
        to -= 1;
    }
    text.substring_char(from, to)
}

/// A character is a decimal digit.
pub open spec fn is_digit(c: char) -> bool {
    0x30 <= c as u32 <= 0x39
}

/// The number that a text of decimal digits stands for.
pub open spec fn digits_value(digits: Seq<char>) -> nat
    decreases digits.len(),
{
    if digits.len() == 0 {
        0
    } else {
        digits_value(digits.drop_last()) * 10 + (digits.last() as u32 - 0x30) as nat
    }
}

/// The digits of an unsigned number: the text without a plus sign at its front.
pub open spec fn unsigned_digits(text: Seq<char>) -> Seq<char> {
    if text.len() > 0 && text[0] == '+' {
        text.skip(1)
    } else {
        text
    }
}

/// The number up to `max` that a text stands for: an optional plus sign, then decimal digits and
/// nothing else, at least one.
pub open spec fn unsigned_value(text: Seq<char>, max: u64) -> Option<u64> {
    let digits = unsigned_digits(text);
    if digits.len() > 0 && (forall|i: int| 0 <= i < digits.len() ==> is_digit(#[trigger] digits[i]))
        && digits_value(digits) <= max {
        Some(digits_value(digits) as u64)
    } else {
        None
    }
}

proof fn lemma_digits_value_grows(digits: Seq<char>, n: int)
    requires
        0 <= n <= digits.len(),
    ensures
        digits_value(digits.take(n)) <= digits_value(digits),
    decreases digits.len() - n,
{
    if n < digits.len() {
        lemma_digits_value_grows(digits, n + 1);
        assert(digits.take(n + 1).drop_last() =~= digits.take(n));
    } else {
        assert(digits.take(n) =~= digits);
    }
}

/// Reads an unsigned number up to `max`.
pub fn parse_unsigned(text: &str, max: u64) -> (r: Option<u64>)
    ensures
        r == unsigned_value(text@, max),
{
    let n: usize = text.unicode_len();
    let ghost digits = unsigned_digits(text@);
    let from: usize = if n > 0 && text.get_char(0) == '+' {
        1
    } else {
        0
    };
    if from == n {
        return None;
    }
    let mut value: u64 = 0;
    let mut i: usize = from;
    assert(digits.take(0) =~= Seq::<char>::empty());
    while i < n
        invariant
            from <= i <= n,
            from <= 1,
            n == text@.len(),
            digits == unsigned_digits(text@),
            digits.len() == n - from,
            forall|k: int| 0 <= k < digits.len() ==> #[trigger] digits[k] == text@[from + k],
            forall|k: int| 0 <= k < i - from ==> is_digit(#[trigger] digits[k]),
            value == digits_value(digits.take(i - from)),
            value <= max,
        decreases n - i,
    {
        let c: u32 = text.get_char(i) as u32;
        assert(digits[i - from] == text@[i as int]);
        if c < 0x30 || c > 0x39 {
            assert(!is_digit(digits[i - from]));
            return None;
        }
        let d: u64 = (c - 0x30) as u64;
        proof {
            assert(digits.take(i - from + 1).drop_last() =~= digits.take(i - from));
            lemma_digits_value_grows(digits, i - from + 1);
        }
        let scaled: u64 = match value.checked_mul(10) {
            Some(v) => v,
            None => {
                return None;
            },
        };
        let next: u64 = match scaled.checked_add(d) {
            Some(v) => v,
            None => {
                return None;
            },
        };
        if next > max {
            return None;
        }
        value = next;
        i += 1;
    }
    assert(digits.take(n - from) =~= digits);
    Some(value)
}

/// `count` spaces.
pub open spec fn spaces(count: nat) -> Seq<char> {
    Seq::new(count, |i: int| ' ')
}

/// A text, filled up with spaces behind it to a width. A longer text stays as it is.
pub open spec fn padded(text: Seq<char>, width: nat) -> Seq<char> {
    if text.len() < width {
        text + spaces((width - text.len()) as nat)
    } else {
        text
    }
}

/// Appends a text, filled up with spaces behind it to a width.
pub fn push_padded(line: &mut String, text: &str, width: usize)
    ensures
        final(line)@ == old(line)@ + padded(text@, width as nat),
{
    let len: usize = text.unicode_len();
    line.append(text);
    let ghost start = line@;
    let mut filled: usize = len;
    while filled < width
        invariant
            len == text@.len(),
            len <= filled,
            filled <= width || filled == len,
            start == old(line)@ + text@,
            line@ == start + spaces((filled - len) as nat),
        decreases width - filled,
    {
        proof {
            reveal_strlit(" ");
        }
        line.append(" ");
        assert(line@ =~= start + spaces((filled + 1 - len) as nat));
        filled += 1;
    }
    assert(line@ =~= old(line)@ + padded(text@, width as nat));
}

/// Different numbers have different decimal forms.
pub proof fn lemma_decimal_is_unique(m: nat, n: nat)
    requires
        decimal(m) == decimal(n),
    ensures
        m == n,
    decreases m,
{
    reveal_with_fuel(decimal, 2);
    assert(decimal(m).last() == digit_char(m % 10));
    assert(decimal(n).last() == digit_char(n % 10));
    assert(m % 10 == n % 10);
    if m >= 10 && n >= 10 {
        assert(decimal(m).drop_last() =~= decimal(m / 10));
        assert(decimal(n).drop_last() =~= decimal(n / 10));
        lemma_decimal_is_unique(m / 10, n / 10);
    }
}

proof fn lemma_decimal_is_digits(n: nat)
    ensures
        decimal(n).len() > 0,
        forall|i: int| 0 <= i < decimal(n).len() ==> is_digit(#[trigger] decimal(n)[i]),
    decreases n,
{
    if n >= 10 {
        lemma_decimal_is_digits(n / 10);
    }
}

/// A decimal number tells where it ends, when what follows it does not start with a digit.
pub proof fn lemma_decimal_delimits(m: nat, n: nat, x: Seq<char>, y: Seq<char>)
    requires
        decimal(m) + x == decimal(n) + y,
        x.len() == 0 || !is_digit(x[0]),
        y.len() == 0 || !is_digit(y[0]),
    ensures
        m == n,
        x == y,
{
    lemma_decimal_is_digits(m);
    lemma_decimal_is_digits(n);
    let a = decimal(m) + x;
    let b = decimal(n) + y;
    let lm = decimal(m).len() as int;
    let ln = decimal(n).len() as int;
    if lm < ln {
        assert(a[lm] == decimal(n)[lm]);
        assert(a[lm] == x[0]);
    }
    if ln < lm {
        assert(b[ln] == decimal(m)[ln]);
        assert(b[ln] == y[0]);
    }
    assert(a.take(lm) =~= decimal(m));
    assert(b.take(ln) =~= decimal(n));
    lemma_decimal_is_unique(m, n);
    assert(a.skip(lm) =~= x);
    assert(b.skip(ln) =~= y);
}

/// A text contains another exactly when the other stands somewhere in it.
pub proof fn law_containing_text_is_having_it_in_the_middle(hay: Seq<char>, needle: Seq<char>)
    ensures
        contains_text(hay, needle) <==> exists|front: Seq<char>, back: Seq<char>|
            hay == #[trigger] (front + needle + back),
{
    if contains_text(hay, needle) {
        let at = choose|at: int| #[trigger] occurs_at(hay, needle, at);
        let front = hay.take(at);
        let back = hay.skip(at + needle.len());
        assert(hay =~= front + needle + back);
    }
    if exists|front: Seq<char>, back: Seq<char>| hay == #[trigger] (front + needle + back) {
        let (front, back) = choose|front: Seq<char>, back: Seq<char>|
            hay == #[trigger] (front + needle + back);
        assert(hay.subrange(front.len() as int, (front.len() + needle.len()) as int) =~= needle);
        assert(occurs_at(hay, needle, front.len() as int));
    }
}

/// A number below ten is its digit, and a larger one is the number without its last digit and then
/// that digit.
pub proof fn law_decimal_numbers_grow_digit_by_digit(n: nat, digit: nat)
    requires
        digit < 10,
    ensures
        decimal(digit) == seq![(0x30 + digit) as char],
        n > 0 ==> decimal(10 * n + digit) == decimal(n).push((0x30 + digit) as char),
{
    if n > 0 {
        assert((10 * n + digit) / 10 == n && (10 * n + digit) % 10 == digit);
    }
}

/// Texts joined by a separator.
pub open spec fn joined(parts: Seq<Seq<char>>, separator: char) -> Seq<char>
    decreases parts.len(),
{
    if parts.len() == 0 {
        seq![]
    } else if parts.len() == 1 {
        parts[0]
    } else {
        joined(parts.drop_last(), separator).push(separator) + parts.last()
    }
}

/// The pieces of a text, joined again by the separator, are the text, and no piece holds a separator.
pub proof fn law_pieces_are_what_stands_between_the_separators(text: Seq<char>, separator: char)
    ensures
        pieces(text, separator).len() > 0,
        joined(pieces(text, separator), separator) == text,
        forall|i: int|
            0 <= i < pieces(text, separator).len() ==> !(#[trigger] pieces(
                text,
                separator,
            )[i]).contains(separator),
    decreases text.len(),
{
    let all = pieces(text, separator);
    if text.len() == 0 {
        assert(joined(all, separator) =~= text);
    } else {
        let shorter = text.drop_last();
        let before = pieces(shorter, separator);
        law_pieces_are_what_stands_between_the_separators(shorter, separator);
        if text.last() == separator {
            assert(all.drop_last() =~= before);
            assert(all.last() =~= Seq::<char>::empty());
            assert(joined(all, separator) =~= text);
        } else {
            let longer = before.last().push(text.last());
            assert(all.drop_last() =~= before.drop_last());
            assert(all.last() == longer);
            assert(joined(all, separator) =~= text) by {
                if before.len() == 1 {
                    assert(all[0] == longer);
                    assert(before[0] == before.last());
                    assert(longer =~= text);
                } else {
                    assert(joined(before, separator) == joined(
                        before.drop_last(),
                        separator,
                    ).push(separator) + before.last());
                    assert(joined(all, separator) =~= joined(before, separator).push(text.last()));
                }
            }
            assert forall|i: int| 0 <= i < all.len() implies !(#[trigger] all[i]).contains(
                separator,
            ) by {
                if i < before.len() - 1 {
                    assert(all[i] == before[i]);
                } else {
                    assert(all[i] == longer);
                    if longer.contains(separator) {
                        let k = choose|k: int| 0 <= k < longer.len() && longer[k] == separator;
                        assert(before.last()[k] == separator);
                        assert(before[before.len() - 1].contains(separator));
                    }
                }
            }
        }
    }
}

proof fn lemma_trimmed_front(text: Seq<char>)
    ensures
        trimmed_front(text).len() <= text.len(),
        text.skip(text.len() - trimmed_front(text).len()) == trimmed_front(text),
        forall|i: int|
            0 <= i < text.len() - trimmed_front(text).len() ==> white_space(#[trigger] text[i]),
        trimmed_front(text).len() > 0 ==> !white_space(trimmed_front(text)[0]),
    decreases text.len(),
{
    if text.len() > 0 && white_space(text[0]) {
        let rest = text.drop_first();
        lemma_trimmed_front(rest);
        let n = text.len() - trimmed_front(text).len();
        assert(text.skip(n) =~= rest.skip(n - 1));
        assert forall|i: int| 0 <= i < n implies white_space(#[trigger] text[i]) by {
            if i > 0 {
                assert(text[i] == rest[i - 1]);
            }
        }
    } else {
        assert(text.skip(0) =~= text);
    }
}

proof fn lemma_trimmed_back(text: Seq<char>)
    ensures
        trimmed_back(text).len() <= text.len(),
        text.take(trimmed_back(text).len() as int) == trimmed_back(text),
        forall|i: int|
            trimmed_back(text).len() <= i < text.len() ==> white_space(#[trigger] text[i]),
        trimmed_back(text).len() > 0 ==> !white_space(trimmed_back(text).last()),
    decreases text.len(),
{
    if text.len() > 0 && white_space(text.last()) {
        let rest = text.drop_last();
        lemma_trimmed_back(rest);
        let n = trimmed_back(text).len() as int;
        assert(text.take(n) =~= rest.take(n));
        assert forall|i: int| n <= i < text.len() implies white_space(#[trigger] text[i]) by {
            if i < rest.len() {
                assert(text[i] == rest[i]);
            }
        }
    } else {
        assert(text.take(text.len() as int) =~= text);
    }
}

/// What is trimmed off a text at its two ends is white space, and what is left neither starts nor ends
/// with any.
pub proof fn law_trimming_takes_the_white_space_at_the_ends(text: Seq<char>)
    ensures
        exists|front: Seq<char>, back: Seq<char>|
            text == #[trigger] (front + trimmed(text) + back) && (forall|i: int|
                0 <= i < front.len() ==> white_space(#[trigger] front[i])) && (forall|i: int|
                0 <= i < back.len() ==> white_space(#[trigger] back[i])),
        trimmed(text).len() > 0 ==> !white_space(trimmed(text)[0]) && !white_space(
            trimmed(text).last(),
        ),
{
    let a = trimmed_front(text);
    let b = trimmed(text);
    lemma_trimmed_front(text);
    lemma_trimmed_back(a);
    let n = text.len() - a.len();
    let front = text.take(n);
    let back = a.skip(b.len() as int);
    assert(b == trimmed_back(a));
    assert(a =~= b + back);
    assert(text =~= front + a);
    assert(text =~= front + b + back);
    if b.len() > 0 {
        assert(b[0] == a[0]);
    }
}

/// The number of a row of digits: each further digit is worth its value more than ten times what
/// stands before it.
pub proof fn law_digits_are_worth_ten_times_the_next(digits: Seq<char>, c: char)
    ensures
        digits_value(Seq::<char>::empty()) == 0,
        digits_value(digits.push(c)) == 10 * digits_value(digits) + (c as nat - 0x30) as nat,
{
    assert(digits.push(c).drop_last() =~= digits);
}

/// A text is a number exactly when it is digits alone, at least one, with or without a plus sign before
/// them, that are worth no more than the limit; and it is that number.
pub proof fn law_numbers_are_digits_within_the_limit(text: Seq<char>, max: u64, value: u64)
    ensures
        unsigned_value(text, max) == Some(value) <==> exists|digits: Seq<char>|
            (text == digits || text == seq!['+'] + digits) && is_number_of(digits, value)
                && value <= max,
{
    if unsigned_value(text, max) == Some(value) {
        let digits = unsigned_digits(text);
        if text.len() > 0 && text[0] == '+' {
            assert(text =~= seq!['+'] + digits);
        }
        assert forall|i: int| 0 <= i < digits.len() implies 0x30 <= (#[trigger] digits[i]) as u32
            <= 0x39 by {
            assert(is_digit(digits[i]));
        }
        assert(is_number_of(digits, value));
    }
    if exists|digits: Seq<char>|
        (text == digits || text == seq!['+'] + digits) && is_number_of(digits, value) && value
            <= max {
        let digits = choose|digits: Seq<char>|
            (text == digits || text == seq!['+'] + digits) && is_number_of(digits, value) && value
                <= max;
        if text == digits {
            assert(0x30 <= digits[0] as u32);
            assert(unsigned_digits(text) == digits);
        } else {
            assert(text.drop_first() =~= digits);
            assert(text.skip(1) =~= digits);
            assert(unsigned_digits(text) =~= digits);
        }
    }
}

/// At least one character, all of them decimal digits, worth `value`.
pub open spec fn is_number_of(digits: Seq<char>, value: u64) -> bool {
    &&& digits.len() > 0
    &&& forall|i: int| 0 <= i < digits.len() ==> 0x30 <= (#[trigger] digits[i]) as u32 <= 0x39
    &&& digits_value(digits) == value
}

/// A padded text starts with the text and goes on with spaces up to the width, no further.
pub proof fn law_padding_adds_spaces_up_to_the_width(text: Seq<char>, width: nat)
    ensures
        padded(text, width).len() == (if text.len() < width {
            width
        } else {
            text.len()
        }),
        padded(text, width).take(text.len() as int) == text,
        forall|i: int|
            text.len() <= i < padded(text, width).len() ==> #[trigger] padded(text, width)[i]
                == ' ',
{
    assert(padded(text, width).take(text.len() as int) =~= text);
}

/// Texts are seen whole, one by one.
pub proof fn law_texts_are_seen_whole(texts: Seq<String>)
    ensures
        text_views(texts).len() == texts.len(),
        forall|i: int| 0 <= i < texts.len() ==> #[trigger] text_views(texts)[i] == texts[i]@,
{
}

/// The white space characters: the five controls from the tab to the carriage return, the space, the
/// next-line control, and the spaces and separators of Unicode. There are no others.
pub proof fn law_white_space_characters(c: char)
    ensures
        white_space(c) <==> seq![
            0x09u32,
            0x0au32,
            0x0bu32,
            0x0cu32,
            0x0du32,
            0x20u32,
            0x85u32,
            0xa0u32,
            0x1680u32,
            0x2000u32,
            0x2001u32,
            0x2002u32,
            0x2003u32,
            0x2004u32,
            0x2005u32,
            0x2006u32,
            0x2007u32,
            0x2008u32,
            0x2009u32,
            0x200au32,
            0x2028u32,
            0x2029u32,
            0x202fu32,
            0x205fu32,
            0x3000u32,
        ].contains(c as u32),
{
    let all = seq![
        0x09u32,
        0x0au32,
        0x0bu32,
        0x0cu32,
        0x0du32,
        0x20u32,
        0x85u32,
        0xa0u32,
        0x1680u32,
        0x2000u32,
        0x2001u32,
        0x2002u32,
        0x2003u32,
        0x2004u32,
        0x2005u32,
        0x2006u32,
        0x2007u32,
        0x2008u32,
        0x2009u32,
        0x200au32,
        0x2028u32,
        0x2029u32,
        0x202fu32,
        0x205fu32,
        0x3000u32,
    ];
    let n = c as u32;
    if 0x09 <= n <= 0x0d {
        assert(all[n - 0x09] == n);
    } else if n == 0x20 {
        assert(all[5] == n);
    } else if n == 0x85 {
        assert(all[6] == n);
    } else if n == 0xa0 {
        assert(all[7] == n);
    } else if n == 0x1680 {
        assert(all[8] == n);
    } else if 0x2000 <= n <= 0x200a {
        assert(all[n - 0x2000 + 9] == n);
    } else if n == 0x2028 {
        assert(all[20] == n);
    } else if n == 0x2029 {
        assert(all[21] == n);
    } else if n == 0x202f {
        assert(all[22] == n);
    } else if n == 0x205f {
        assert(all[23] == n);
    } else if n == 0x3000 {
        assert(all[24] == n);
    }
}

} // verus!
