//! Texts: integers in decimal, lists of parts, and the number at the start of a value.
use vstd::prelude::*;
use vstd::string::*;

verus! {

/// Whether a character is a decimal digit.
pub open spec fn is_digit(c: char) -> bool {
    '0' <= c && c <= '9'
}

/// The number that a digit stands for.
pub open spec fn digit_value(c: char) -> int {
    c as int - '0' as int
}

/// Every character is a digit.
pub open spec fn all_digits(s: Seq<char>) -> bool {
    forall|i: int| 0 <= i < s.len() ==> is_digit(#[trigger] s[i])
}

/// The number that digits stand for, most significant first.
pub open spec fn digits_value(s: Seq<char>) -> int
    decreases s.len(),
{
    if s.len() == 0 {
        0
    } else {
        10 * digits_value(s.drop_last()) + digit_value(s.last())
    }
}

/// The integer that a text writes in decimal: a sign or none, then at least one digit.
pub open spec fn integer_text(s: Seq<char>) -> Option<int> {
    let signed = s.len() > 0 && (s[0] == '-' || s[0] == '+');
    let digits = if signed { s.drop_first() } else { s };
    if digits.len() > 0 && all_digits(digits) {
        Some(if signed && s[0] == '-' { -digits_value(digits) } else { digits_value(digits) })
    } else {
        None
    }
}

/// The integer that a text writes in decimal, where it fits 64 signed bits.
pub open spec fn parsed_i64(s: Seq<char>) -> Option<i64> {
    match integer_text(s) {
        Some(value) if i64::MIN <= value <= i64::MAX => Some(value as i64),
        _ => None,
    }
}

/// The integer that a text writes in decimal, where it fits 64 signed bits.
pub fn parse_i64(text: &str) -> (r: Option<i64>)
    ensures
        r == parsed_i64(text@),
{
    let n = text.unicode_len();
    if n == 0 {
        return None;
    }
    let first = text.get_char(0);
    let negative = first == '-';
    let signed = negative || first == '+';
    let start: usize = if signed { 1 } else { 0 };
    let ghost digits = if signed { text@.drop_first() } else { text@ };
    if start == n {
        return None;
    }
    let mut value: i128 = 0;
    let mut overflow = false;
    let mut i = start;
    assert(digits.take(0).len() == 0);
    while i < n
        invariant
            n == text@.len(),
            start <= i <= n,
            start == if signed { 1int } else { 0int },
            digits == if signed { text@.drop_first() } else { text@ },
            signed == (text@[0] == '-' || text@[0] == '+'),
            n > start,
            all_digits(digits.take(i - start)),
            !overflow ==> value == digits_value(digits.take(i - start)),
            !overflow ==> 0 <= value <= i64::MAX + 1,
            overflow ==> digits_value(digits.take(i - start)) > i64::MAX + 1,
        decreases n - i,
    {
        let c = text.get_char(i);
        assert(digits[i - start] == c);
        if c < '0' || c > '9' {
            assert(!is_digit(digits[i - start]));
            return None;
        }
        assert(digits.take(i + 1 - start).drop_last() == digits.take(i - start));
        assert forall|j: int| 0 <= j < i + 1 - start implies is_digit(
            #[trigger] digits.take(i + 1 - start)[j],
        ) by {
            if j < i - start {
                assert(digits.take(i - start)[j] == digits[j]);
            }
        }
        if !overflow {
            value = value * 10 + (c as u32 - '0' as u32) as i128;
            if value > i64::MAX as i128 + 1 {
                overflow = true;
            }
        }
        i = i + 1;
    }
    assert(digits.take(n - start) == digits);
    if overflow || (!negative && value > i64::MAX as i128) {
        return None;
    }
    if negative {
        Some((-value) as i64)
    } else {
        Some(value as i64)
    }
}

/// A digit as text.
pub open spec fn digit_char(d: int) -> char {
    ('0' as int + d) as char
}

/// A number in decimal, without leading zeros.
pub open spec fn decimal(n: nat) -> Seq<char>
    decreases n,
{
    if n < 10 {
        seq![digit_char(n as int)]
    } else {
        decimal(n / 10).push(digit_char((n % 10) as int))
    }
}

fn digit_text(d: usize) -> (r: &'static str)
    requires
        d < 10,
    ensures
        r@ == seq![digit_char(d as int)],
{
    proof {
        reveal_strlit("0");
        reveal_strlit("1");
        reveal_strlit("2");
        reveal_strlit("3");
        reveal_strlit("4");
        reveal_strlit("5");
        reveal_strlit("6");
        reveal_strlit("7");
        reveal_strlit("8");
        reveal_strlit("9");
    }
    if d == 0 {
        "0"
    } else if d == 1 {
        "1"
    } else if d == 2 {
        "2"
    } else if d == 3 {
        "3"
    } else if d == 4 {
        "4"
    } else if d == 5 {
        "5"
    } else if d == 6 {
        "6"
    } else if d == 7 {
        "7"
    } else if d == 8 {
        "8"
    } else {
        "9"
    }
}

/// A number in decimal.
pub fn decimal_text(n: usize) -> (r: String)
    ensures
        r@ == decimal(n as nat),
    decreases n,
{
    if n < 10 {
        digit_text(n).to_owned()
    } else {
        let mut r = decimal_text(n / 10);
        r.append(digit_text(n % 10));
        r
    }
}

/// Decimal text reads back as the number that it was written from.
pub proof fn decimal_reads_back(n: nat)
    ensures
        decimal(n).len() > 0,
        all_digits(decimal(n)),
        digits_value(decimal(n)) == n,
        integer_text(decimal(n)) == Some(n as int),
    decreases n,
{
    if n >= 10 {
        decimal_reads_back(n / 10);
        assert(decimal(n).drop_last() == decimal(n / 10));
        assert forall|i: int| 0 <= i < decimal(n).len() implies is_digit(#[trigger] decimal(n)[i]) by {
            if i < decimal(n).len() - 1 {
                assert(decimal(n)[i] == decimal(n / 10)[i]);
            }
        }
    } else {
        assert(decimal(n).drop_last().len() == 0);
        assert(digits_value(decimal(n).drop_last()) == 0);
    }
    assert(is_digit(decimal(n)[0]));
}

/// The parts of a text between commas: one part more than there are commas.
pub open spec fn comma_parts(s: Seq<char>) -> Seq<Seq<char>>
    decreases s.len(),
{
    if s.len() == 0 {
        seq![Seq::empty()]
    } else {
        let before = comma_parts(s.drop_last());
        if s.last() == ',' {
            before.push(Seq::empty())
        } else {
            before.update(before.len() - 1, before.last().push(s.last()))
        }
    }
}

/// A list of texts, as what they say.
pub open spec fn texts(parts: Seq<String>) -> Seq<Seq<char>> {
    parts.map_values(|p: String| p@)
}

proof fn lemma_comma_parts_nonempty(s: Seq<char>)
    ensures
        comma_parts(s).len() > 0,
    decreases s.len(),
{
    if s.len() > 0 {
        lemma_comma_parts_nonempty(s.drop_last());
    }
}

/// Splits a text at its commas.
pub fn split_commas(text: &str) -> (r: Vec<String>)
    ensures
        texts(r@) == comma_parts(text@),
{
    let n = text.unicode_len();
    let mut done: Vec<String> = Vec::new();
    let mut start: usize = 0;
    let mut i: usize = 0;
    assert(text@.take(0).len() == 0);
    assert(comma_parts(text@.take(0)) == seq![Seq::<char>::empty()]);
    assert(texts(done@).push(text@.subrange(0, 0)) == seq![Seq::<char>::empty()]) by {
        assert(text@.subrange(0, 0) == Seq::<char>::empty());
    }
    while i < n
        invariant
            n == text@.len(),
            start <= i <= n,
            comma_parts(text@.take(i as int)) == texts(done@).push(
                text@.subrange(start as int, i as int),
            ),
        decreases n - i,
    {
        assert(text@.take(i + 1).drop_last() == text@.take(i as int));
        let ghost before = texts(done@).push(text@.subrange(start as int, i as int));
        if text.get_char(i) == ',' {
            done.push(text.substring_char(start, i).to_owned());
            start = i + 1;
            assert(texts(done@) == before);
            assert(text@.subrange(start as int, i + 1) == Seq::<char>::empty());
        } else {
            assert(before.last().push(text@[i as int]) == text@.subrange(start as int, i + 1));
            assert(before.update(before.len() - 1, before.last().push(text@[i as int]))
                == texts(done@).push(text@.subrange(start as int, i + 1)));
        }
        i = i + 1;
    }
    assert(text@.take(n as int) == text@);
    let ghost parts = texts(done@);
    done.push(text.substring_char(start, n).to_owned());
    assert(texts(done@) == parts.push(text@.subrange(start as int, n as int)));
    done
}

/// The texts with commas between them.
pub open spec fn joined(parts: Seq<Seq<char>>) -> Seq<char>
    decreases parts.len(),
{
    if parts.len() == 0 {
        Seq::empty()
    } else if parts.len() == 1 {
        parts[0]
    } else {
        joined(parts.drop_last()) + seq![','] + parts.last()
    }
}

/// Joining the parts of a text gives the text back.
pub proof fn parts_join_back(s: Seq<char>)
    ensures
        comma_parts(s).len() > 0,
        joined(comma_parts(s)) == s,
    decreases s.len(),
{
    lemma_comma_parts_nonempty(s);
    if s.len() > 0 {
        let rest = s.drop_last();
        let before = comma_parts(rest);
        parts_join_back(rest);
        if s.last() == ',' {
            assert(comma_parts(s).drop_last() == before);
            assert(joined(comma_parts(s)) == rest + seq![','] + Seq::<char>::empty());
            assert(joined(comma_parts(s)) == s);
        } else {
            let after = comma_parts(s);
            assert(after.drop_last() == before.drop_last());
            if before.len() == 1 {
                assert(joined(after) == before[0].push(s.last()));
            } else {
                assert(joined(after) == joined(before.drop_last()) + seq![','] + before.last().push(
                    s.last(),
                ));
                assert(rest == joined(before.drop_last()) + seq![','] + before.last());
                assert(joined(after) == rest.push(s.last()));
            }
            assert(rest.push(s.last()) == s);
        }
    } else {
        assert(joined(comma_parts(s)) == s);
    }
}

/// The text has no comma.
pub open spec fn comma_free(s: Seq<char>) -> bool {
    forall|i: int| 0 <= i < s.len() ==> #[trigger] s[i] != ','
}

proof fn lemma_comma_free_tail(before: Seq<char>, p: Seq<char>)
    requires
        comma_free(p),
    ensures
        comma_parts(before).len() > 0,
        comma_parts(before + p) == comma_parts(before).update(
            comma_parts(before).len() - 1,
            comma_parts(before).last() + p,
        ),
    decreases p.len(),
{
    lemma_comma_parts_nonempty(before);
    let parts = comma_parts(before);
    if p.len() == 0 {
        assert(before + p == before);
        assert(parts.last() + p == parts.last());
        assert(parts.update(parts.len() - 1, parts.last()) == parts);
    } else {
        let q = p.drop_last();
        assert forall|i: int| 0 <= i < q.len() implies #[trigger] q[i] != ',' by {
            assert(p[i] != ',');
        }
        lemma_comma_free_tail(before, q);
        assert(p[p.len() - 1] != ',');
        assert((before + p).drop_last() == before + q);
        assert((before + p).last() == p.last());
        assert((parts.last() + q).push(p.last()) == parts.last() + p);
        assert(comma_parts(before + p) == parts.update(parts.len() - 1, parts.last() + p));
    }
}

/// Texts without commas that are joined by commas split into the same texts again.
pub proof fn joined_parts_split_back(parts: Seq<Seq<char>>)
    requires
        parts.len() > 0,
        forall|i: int| 0 <= i < parts.len() ==> comma_free(#[trigger] parts[i]),
    ensures
        comma_parts(joined(parts)) == parts,
    decreases parts.len(),
{
    let p = parts.last();
    assert(comma_free(parts[parts.len() - 1]));
    if parts.len() == 1 {
        lemma_comma_free_tail(Seq::empty(), p);
        assert(Seq::<char>::empty() + p == p);
        assert(comma_parts(p) == parts);
    } else {
        let rest = parts.drop_last();
        assert forall|i: int| 0 <= i < rest.len() implies comma_free(#[trigger] rest[i]) by {
            assert(comma_free(parts[i]));
        }
        joined_parts_split_back(rest);
        let before = joined(rest) + seq![','];
        assert(before.drop_last() == joined(rest));
        lemma_comma_free_tail(before, p);
        assert(Seq::<char>::empty() + p == p);
        assert(comma_parts(joined(parts)) == parts);
    }
}

/// Whether a character is white space, as Unicode's `White_Space` property has it.
pub open spec fn is_blank(c: char) -> bool {
    let code = c as u32;
    ||| 0x9 <= code <= 0xd
    ||| code == 0x20
    ||| code == 0x85
    ||| code == 0xa0
    ||| code == 0x1680
    ||| 0x2000 <= code <= 0x200a
    ||| code == 0x2028
    ||| code == 0x2029
    ||| code == 0x202f
    ||| code == 0x205f
    ||| code == 0x3000
}

fn blank(c: char) -> (r: bool)
    ensures
        r == is_blank(c),
{
    let code = c as u32;
    (0x9 <= code && code <= 0xd) || code == 0x20 || code == 0x85 || code == 0xa0 || code == 0x1680
        || (0x2000 <= code && code <= 0x200a) || code == 0x2028 || code == 0x2029 || code == 0x202f
        || code == 0x205f || code == 0x3000
}

/// The text without the blanks that it starts with.
pub open spec fn trimmed_start(s: Seq<char>) -> Seq<char>
    decreases s.len(),
{
    if s.len() > 0 && is_blank(s[0]) {
        trimmed_start(s.drop_first())
    } else {
        s
    }
}

/// The text without the blanks that it ends with.
pub open spec fn trimmed_end(s: Seq<char>) -> Seq<char>
    decreases s.len(),
{
    if s.len() > 0 && is_blank(s.last()) {
        trimmed_end(s.drop_last())
    } else {
        s
    }
}

/// Whether a character can stand in a plain number: a digit, a point or a minus sign.
pub open spec fn is_numeric(c: char) -> bool {
    is_digit(c) || c == '.' || c == '-'
}

/// The longest start of a text that is made of digits, points and minus signs.
pub open spec fn numeric_start(s: Seq<char>) -> Seq<char>
    decreases s.len(),
{
    if s.len() > 0 && is_numeric(s[0]) {
        seq![s[0]] + numeric_start(s.drop_first())
    } else {
        Seq::empty()
    }
}

/// The number that a value leads with, units and surrounding blanks left off.
pub open spec fn leading_number(s: Seq<char>) -> Seq<char> {
    numeric_start(trimmed_end(trimmed_start(s)))
}

/// Trailing blanks do not bear on the number that a text starts with.
proof fn lemma_trailing_blanks(s: Seq<char>)
    ensures
        numeric_start(trimmed_end(s)) == numeric_start(s),
    decreases s.len(),
{
    if s.len() > 0 && is_blank(s.last()) {
        lemma_trailing_blanks(s.drop_last());
        lemma_last_blank(s);
    }
}

proof fn lemma_last_blank(s: Seq<char>)
    requires
        s.len() > 0,
        is_blank(s.last()),
    ensures
        numeric_start(s.drop_last()) == numeric_start(s),
    decreases s.len(),
{
    if s.len() > 1 && is_numeric(s[0]) {
        assert(s.drop_last().drop_first() == s.drop_first().drop_last());
        lemma_last_blank(s.drop_first());
    }
}

proof fn lemma_numeric_start_grows(s: Seq<char>, from: int, to: int)
    requires
        0 <= from <= to <= s.len(),
        forall|i: int| from <= i < to ==> is_numeric(#[trigger] s[i]),
        to < s.len() ==> !is_numeric(s[to]),
    ensures
        numeric_start(s.skip(from)) == s.subrange(from, to),
    decreases to - from,
{
    if from < to {
        lemma_numeric_start_grows(s, from + 1, to);
        assert(s.skip(from).drop_first() == s.skip(from + 1));
        assert(is_numeric(s.skip(from)[0]));
        assert(seq![s[from]] + s.subrange(from + 1, to) == s.subrange(from, to));
    } else {
        assert(s.subrange(from, to) == Seq::<char>::empty());
    }
}

/// The text of the number that a value such as `"12.5 m"` leads with. It may be empty or
/// not be a number.
pub fn number_text(value: &str) -> (r: String)
    ensures
        r@ == leading_number(value@),
{
    let n = value.unicode_len();
    let mut start: usize = 0;
    assert(value@.skip(0) == value@);
    while start < n && blank(value.get_char(start))
        invariant
            n == value@.len(),
            start <= n,
            trimmed_start(value@) == trimmed_start(value@.skip(start as int)),
        decreases n - start,
    {
        assert(value@.skip(start as int).drop_first() == value@.skip(start + 1));
        start = start + 1;
    }
    let mut end = start;
    while end < n
        invariant
            n == value@.len(),
            start <= end <= n,
            forall|i: int| start <= i < end ==> is_numeric(#[trigger] value@[i]),
        ensures
            start <= end <= n,
            forall|i: int| start <= i < end ==> is_numeric(#[trigger] value@[i]),
            end < n ==> !is_numeric(value@[end as int]),
        decreases n - end,
    {
        let c = value.get_char(end);
        if !((c >= '0' && c <= '9') || c == '.' || c == '-') {
            break;
        }
        end = end + 1;
    }
    proof {
        assert(trimmed_start(value@) == value@.skip(start as int));
        lemma_trailing_blanks(value@.skip(start as int));
        lemma_numeric_start_grows(value@, start as int, end as int);
    }
    value.substring_char(start, end).to_owned()
}

/// Decimal text reads back behind a sign too: as the opposite number behind a minus sign, as the
/// number itself behind a plus sign.
pub proof fn signed_decimal_reads_back(n: nat)
    ensures
        integer_text(seq!['-'] + decimal(n)) == Some(-(n as int)),
        integer_text(seq!['+'] + decimal(n)) == Some(n as int),
{
    decimal_reads_back(n);
    assert((seq!['-'] + decimal(n)).drop_first() == decimal(n));
    assert((seq!['+'] + decimal(n)).drop_first() == decimal(n));
}

/// A zero before digits changes nothing.
pub proof fn leading_zeros_do_not_count(digits: Seq<char>)
    requires
        digits.len() > 0,
        all_digits(digits),
    ensures
        integer_text(seq!['0'] + digits) == integer_text(digits),
{
    lemma_leading_zero(digits);
    assert(is_digit(digits[0]));
    assert forall|i: int| 0 <= i < digits.len() + 1 implies is_digit(
        #[trigger] (seq!['0'] + digits)[i],
    ) by {
        if i > 0 {
            assert(is_digit(digits[i - 1]));
        }
    }
}

proof fn lemma_leading_zero(digits: Seq<char>)
    ensures
        digits_value(seq!['0'] + digits) == digits_value(digits),
    decreases digits.len(),
{
    if digits.len() == 0 {
        assert((seq!['0'] + digits).drop_last() == digits);
        assert((seq!['0'] + digits).last() == '0');
    } else {
        assert((seq!['0'] + digits).drop_last() == seq!['0'] + digits.drop_last());
        lemma_leading_zero(digits.drop_last());
    }
}

/// Digits that do not start with a zero, or a single digit, are the decimal text of their number: no
/// other digits stand for it.
pub proof fn digits_without_zeros_are_decimal(digits: Seq<char>)
    requires
        digits.len() > 0,
        all_digits(digits),
        digits.len() == 1 || digits[0] != '0',
    ensures
        digits_value(digits) >= 0,
        decimal(digits_value(digits) as nat) == digits,
        digits.len() > 1 ==> digits_value(digits) >= 10,
        digits[0] != '0' ==> digits_value(digits) > 0,
    decreases digits.len(),
{
    let rest = digits.drop_last();
    let d = digits.last();
    assert(is_digit(digits[digits.len() - 1]));
    if digits.len() == 1 {
        assert(digits_value(rest) == 0);
        assert(digits == seq![d]);
    } else {
        assert forall|i: int| 0 <= i < rest.len() implies is_digit(#[trigger] rest[i]) by {
            assert(is_digit(digits[i]));
        }
        digits_without_zeros_are_decimal(rest);
        let value = digits_value(digits);
        assert(value == 10 * digits_value(rest) + digit_value(d));
        assert(value / 10 == digits_value(rest));
        assert(value % 10 == digit_value(d));
        assert(rest.push(d) == digits);
    }
}

/// Only digits behind at most one sign write an integer: nothing at all, a sign alone, or any other
/// character does not.
pub proof fn only_digits_write_integers(s: Seq<char>, i: int)
    ensures
        s.len() == 0 ==> integer_text(s) is None,
        s.len() == 1 && !is_digit(s[0]) ==> integer_text(s) is None,
        0 < i < s.len() && !is_digit(s[i]) ==> integer_text(s) is None,
        s.len() > 0 && !is_digit(s[0]) && s[0] != '-' && s[0] != '+' ==> integer_text(s) is None,
        is_digit('0') && is_digit('5') && is_digit('9') && !is_digit('/') && !is_digit(':'),
{
    if 0 < i < s.len() && !is_digit(s[i]) {
        assert(s.drop_first()[i - 1] == s[i]);
    }
}

/// An integer is read exactly where it fits 64 signed bits.
pub proof fn integers_are_read_where_they_fit(s: Seq<char>)
    ensures
        match integer_text(s) {
            Some(value) => if -0x8000_0000_0000_0000 <= value <= 0x7fff_ffff_ffff_ffff {
                parsed_i64(s) matches Some(read) && read == value
            } else {
                parsed_i64(s) is None
            },
            None => parsed_i64(s) is None,
        },
{
}

/// No part of a text between commas has a comma.
pub proof fn parts_have_no_commas(s: Seq<char>, k: int)
    requires
        0 <= k < comma_parts(s).len(),
    ensures
        comma_free(comma_parts(s)[k]),
    decreases s.len(),
{
    if s.len() > 0 {
        let before = comma_parts(s.drop_last());
        lemma_comma_parts_nonempty(s.drop_last());
        if k < before.len() {
            parts_have_no_commas(s.drop_last(), k);
        }
        assert(comma_parts(s).len() >= before.len());
        if s.last() != ',' && k == before.len() - 1 {
            assert forall|i: int| 0 <= i < comma_parts(s)[k].len() implies #[trigger] comma_parts(
                s,
            )[k][i] != ',' by {
                if i < before[k].len() {
                    assert(before[k][i] != ',');
                }
            }
        }
    }
}

/// Blanks are the characters that Unicode counts as white space, and none of those stands in a
/// number; digits, the point and the minus sign are all that does.
pub proof fn characters_of_numbers(c: char)
    ensures
        is_numeric(c) <==> c == '.' || c == '-' || '0' <= c && c <= '9',
        is_blank(c) ==> !is_numeric(c),
        is_blank(c) <==> c == ' ' || c == '\t' || c == '\n' || c == '\r' || c as u32 == 11 || c as u32
            == 12 || c as u32 == 133 || c as u32 == 160 || c as u32 == 5760 || 8192 <= c as u32
            <= 8202 || c as u32 == 8232 || c as u32 == 8233 || c as u32 == 8239 || c as u32 == 8287
            || c as u32 == 12288,
{
}

/// The number that a value leads with is all that stands between the blanks before it and the first
/// character that can be no part of it.
pub proof fn leading_number_is_found(blanks: Seq<char>, number: Seq<char>, rest: Seq<char>)
    requires
        forall|i: int| 0 <= i < blanks.len() ==> is_blank(#[trigger] blanks[i]),
        forall|i: int| 0 <= i < number.len() ==> is_numeric(#[trigger] number[i]),
        rest.len() > 0 ==> !is_numeric(rest[0]) && !is_blank(rest[0]) || number.len() > 0
            && !is_numeric(rest[0]),
    ensures
        leading_number(blanks + number + rest) == number,
{
    let told = number + rest;
    assert(blanks + number + rest == blanks + told);
    if told.len() > 0 {
        if number.len() > 0 {
            assert(is_numeric(number[0]));
            characters_of_numbers(number[0]);
            assert(told[0] == number[0]);
        } else {
            assert(told[0] == rest[0]);
        }
    }
    lemma_blanks_trimmed(blanks, told);
    lemma_trailing_blanks(told);
    assert forall|i: int| 0 <= i < number.len() implies is_numeric(#[trigger] told[i]) by {
        assert(told[i] == number[i]);
    }
    lemma_numeric_start_grows(told, 0, number.len() as int);
    assert(told.skip(0) == told);
    assert(told.subrange(0, number.len() as int) == number);
}

proof fn lemma_blanks_trimmed(blanks: Seq<char>, told: Seq<char>)
    requires
        forall|i: int| 0 <= i < blanks.len() ==> is_blank(#[trigger] blanks[i]),
        told.len() > 0 ==> !is_blank(told[0]),
    ensures
        trimmed_start(blanks + told) == told,
    decreases blanks.len(),
{
    if blanks.len() == 0 {
        assert(blanks + told == told);
    } else {
        assert(is_blank(blanks[0]));
        let fewer = blanks.drop_first();
        assert forall|i: int| 0 <= i < fewer.len() implies is_blank(#[trigger] fewer[i]) by {
            assert(is_blank(blanks[i + 1]));
        }
        assert((blanks + told).drop_first() == fewer + told);
        lemma_blanks_trimmed(fewer, told);
    }
}

} // verus!
