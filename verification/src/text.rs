//! Small helpers on text.

use vstd::prelude::*;

verus! {

/// `String::push` appends one character.
pub assume_specification[ String::push ](s: &mut String, c: char)
    ensures
        final(s)@ == old(s)@.push(c),
;

/// Whether two texts have the same characters.
pub fn same_text(a: &str, b: &str) -> (r: bool)
    ensures
        r == (a@ == b@),
{
    a.to_owned() == b.to_owned()
}

/// The characters of a text.
pub fn chars_of(text: &str) -> (r: Vec<char>)
    ensures
        r@ == text@,
{
    let mut chars: Vec<char> = Vec::new();
    for c in it: text.chars()
        invariant
            it.seq() == text@,
            chars@ == text@.take(it.index() as int),
    {
        chars.push(c);
        assert(chars@ =~= text@.take(it.index() + 1));
    }
    assert(text@.take(text@.len() as int) =~= text@);
    chars
}

/// The text of a part of `chars`.
pub fn text_of(chars: &[char], from: usize, to: usize) -> (r: String)
    requires
        from <= to <= chars@.len(),
    ensures
        r@ == chars@.subrange(from as int, to as int),
{
    let mut text = String::new();
    let mut index: usize = from;
    while index < to
        invariant
            from <= index <= to <= chars@.len(),
            text@ == chars@.subrange(from as int, index as int),
        decreases to - index,
    {
        text.push(chars[index]);
        index += 1;
        assert(text@ =~= chars@.subrange(from as int, index as int));
    }
    text
}

/// A copy of `text` with the same characters.
pub fn copy_text(text: &str) -> (r: String)
    ensures
        r@ == text@,
{
    text.to_owned()
}

/// The lower-case hexadecimal digit of `n`.
pub open spec fn hex_digit(n: int) -> char {
    if n < 10 {
        (n + 48) as char
    } else {
        (n + 87) as char
    }
}

/// `0x` and the four hexadecimal digits of `value`.
pub open spec fn hex4(value: u16) -> Seq<char> {
    seq![
        '0',
        'x',
        hex_digit(value as int / 4096),
        hex_digit(value as int / 256 % 16),
        hex_digit(value as int / 16 % 16),
        hex_digit(value as int % 16),
    ]
}

fn digit_char(n: u16) -> (r: char)
    requires
        n < 16,
    ensures
        r == hex_digit(n as int),
{
    if n < 10 {
        (n as u8 + 48) as char
    } else {
        (n as u8 + 87) as char
    }
}

/// `0x` and the four hexadecimal digits of `value`.
pub fn hex4_text(value: u16) -> (r: String)
    ensures
        r@ == hex4(value),
{
    let mut text = String::new();
    text.push('0');
    text.push('x');
    text.push(digit_char(value / 4096));
    text.push(digit_char(value / 256 % 16));
    text.push(digit_char(value / 16 % 16));
    text.push(digit_char(value % 16));
    assert(text@ =~= hex4(value));
    text
}

/// The decimal digits of `value`.
pub open spec fn decimal(value: nat) -> Seq<char>
    decreases value,
{
    if value < 10 {
        seq![(value + 48) as char]
    } else {
        decimal(value / 10).push((value % 10 + 48) as char)
    }
}

/// The decimal digits of `value`.
pub fn decimal_text(value: u32) -> (r: String)
    ensures
        r@ == decimal(value as nat),
    decreases value,
{
    if value < 10 {
        let mut text = String::new();
        text.push((value as u8 + 48) as char);
        assert(text@ =~= decimal(value as nat));
        text
    } else {
        let mut text = decimal_text(value / 10);
        text.push(((value % 10) as u8 + 48) as char);
        text
    }
}

// ---------------------------------------------------------------------------
// White space and lines

/// The character is white space.
pub open spec fn is_white(c: char) -> bool {
    ||| 0x9 <= c as u32 <= 0xd
    ||| c as u32 == 0x20
    ||| c as u32 == 0x85
    ||| c as u32 == 0xa0
    ||| c as u32 == 0x1680
    ||| 0x2000 <= c as u32 <= 0x200a
    ||| c as u32 == 0x2028
    ||| c as u32 == 0x2029
    ||| c as u32 == 0x202f
    ||| c as u32 == 0x205f
    ||| c as u32 == 0x3000
}

fn white(c: char) -> (r: bool)
    ensures
        r == is_white(c),
{
    let n = c as u32;
    (0x9 <= n && n <= 0xd) || n == 0x20 || n == 0x85 || n == 0xa0 || n == 0x1680 || (0x2000 <= n
        && n <= 0x200a) || n == 0x2028 || n == 0x2029 || n == 0x202f || n == 0x205f || n == 0x3000
}

/// The text without the white space at its front.
pub open spec fn trim_front(s: Seq<char>) -> Seq<char>
    decreases s.len(),
{
    if s.len() > 0 && is_white(s[0]) {
        trim_front(s.skip(1))
    } else {
        s
    }
}

/// The text without the white space at its end.
pub open spec fn trim_back(s: Seq<char>) -> Seq<char>
    decreases s.len(),
{
    if s.len() > 0 && is_white(s.last()) {
        trim_back(s.drop_last())
    } else {
        s
    }
}

/// The text without the white space around it.
pub open spec fn trimmed(s: Seq<char>) -> Seq<char> {
    trim_back(trim_front(s))
}

/// The part of `chars[from..to]` without the white space around it: where it
/// starts and ends.
pub fn trim_span(chars: &[char], from: usize, to: usize) -> (r: (usize, usize))
    requires
        from <= to <= chars@.len(),
    ensures
        from <= r.0 <= r.1 <= to,
        chars@.subrange(r.0 as int, r.1 as int) == trimmed(
            chars@.subrange(from as int, to as int),
        ),
{
    let ghost whole = trim_front(chars@.subrange(from as int, to as int));
    let mut start: usize = from;
    while start < to && white(chars[start])
        invariant
            from <= start <= to <= chars@.len(),
            trim_front(chars@.subrange(start as int, to as int)) == whole,
        decreases to - start,
    {
        assert(chars@.subrange(start as int, to as int).skip(1) =~= chars@.subrange(
            start + 1,
            to as int,
        ));
        start += 1;
    }
    assert(chars@.subrange(start as int, to as int) == whole);
    let mut end: usize = to;
    while end > start && white(chars[end - 1])
        invariant
            from <= start <= end <= to <= chars@.len(),
            trim_back(chars@.subrange(start as int, end as int)) == trim_back(whole),
        decreases end - start,
    {
        assert(chars@.subrange(start as int, end as int).drop_last() =~= chars@.subrange(
            start as int,
            end - 1,
        ));
        end -= 1;
    }
    assert(trim_back(chars@.subrange(start as int, end as int)) == chars@.subrange(
        start as int,
        end as int,
    ));
    (start, end)
}

/// The first place of `c` in `s` from `from` on, or the end.
pub open spec fn find_char(s: Seq<char>, c: char, from: int) -> int
    decreases s.len() - from,
{
    if from < 0 || from >= s.len() || s[from] == c {
        from
    } else {
        find_char(s, c, from + 1)
    }
}

/// The first place of `c` from `from` on, before `to`, or `to`.
pub fn find_in(chars: &[char], c: char, from: usize, to: usize) -> (r: usize)
    requires
        from <= to <= chars@.len(),
    ensures
        from <= r <= to,
        r - from == find_char(chars@.subrange(from as int, to as int), c, 0),
{
    let ghost part = chars@.subrange(from as int, to as int);
    let mut at: usize = from;
    while at < to && chars[at] != c
        invariant
            from <= at <= to <= chars@.len(),
            part == chars@.subrange(from as int, to as int),
            find_char(part, c, 0) == find_char(part, c, at - from),
        decreases to - at,
    {
        at += 1;
    }
    at
}

/// A search ends at the character or at the end.
pub proof fn lemma_find_char(s: Seq<char>, c: char, from: int)
    requires
        0 <= from <= s.len(),
    ensures
        from <= find_char(s, c, from) <= s.len(),
        find_char(s, c, from) < s.len() ==> s[find_char(s, c, from)] == c,
        forall|i: int| from <= i < find_char(s, c, from) ==> s[i] != c,
    decreases s.len() - from,
{
    if from < s.len() && s[from] != c {
        lemma_find_char(s, c, from + 1);
    }
}

// ---------------------------------------------------------------------------
// Parts of a text

/// `part` stands in `s` from `at` on.
pub open spec fn occurs_at(s: Seq<char>, part: Seq<char>, at: int) -> bool {
    0 <= at && at + part.len() <= s.len() && s.subrange(at, at + part.len()) == part
}

/// `part` stands somewhere in `s`.
pub open spec fn occurs(s: Seq<char>, part: Seq<char>) -> bool {
    exists|at: int| occurs_at(s, part, at)
}

/// `s` ends in `end`.
pub open spec fn ends_in(s: Seq<char>, end: Seq<char>) -> bool {
    occurs_at(s, end, s.len() - end.len())
}

/// Whether `part` stands in `chars` from `at` on.
pub fn is_at(chars: &[char], part: &[char], at: usize) -> (r: bool)
    ensures
        r == occurs_at(chars@, part@, at as int),
{
    let count = part.len();
    let total = chars.len();
    if at > total || count > total - at {
        return false;
    }
    let mut index: usize = 0;
    while index < count
        invariant
            count == part@.len(),
            total == chars@.len(),
            at + count <= total,
            index <= count,
            forall|i: int| 0 <= i < index ==> chars@[at + i] == part@[i],
        decreases count - index,
    {
        if chars[at + index] != part[index] {
            assert(chars@.subrange(at as int, at + count)[index as int] != part@[index as int]);
            return false;
        }
        index += 1;
    }
    assert(chars@.subrange(at as int, at + count) =~= part@);
    true
}

/// Whether `part` stands somewhere in `chars`.
pub fn holds_part(chars: &[char], part: &[char]) -> (r: bool)
    ensures
        r == occurs(chars@, part@),
{
    let count = chars.len();
    let mut at: usize = 0;
    loop
        invariant
            count == chars@.len(),
            at <= count,
            forall|i: int| 0 <= i < at ==> !occurs_at(chars@, part@, i),
        decreases count - at,
    {
        if is_at(chars, part, at) {
            return true;
        }
        if at >= count {
            return false;
        }
        at += 1;
    }
}

/// Whether `text` ends in `end`.
pub fn ends_with(text: &str, end: &str) -> (r: bool)
    ensures
        r == ends_in(text@, end@),
{
    let chars = chars_of(text);
    let tail = chars_of(end);
    if tail.len() > chars.len() {
        return false;
    }
    is_at(chars.as_slice(), tail.as_slice(), chars.len() - tail.len())
}

/// Whether `c` stands in `text`.
pub fn holds_char(text: &str, c: char) -> (r: bool)
    ensures
        r == text@.contains(c),
{
    let chars = chars_of(text);
    for index in 0..chars.len()
        invariant
            chars@ == text@,
            forall|i: int| 0 <= i < index ==> chars@[i] != c,
    {
        if chars[index] == c {
            assert(text@[index as int] == c);
            return true;
        }
    }
    false
}

/// The place behind the last `c`, or 0.
pub open spec fn behind_last(s: Seq<char>, c: char) -> int
    decreases s.len(),
{
    if s.len() == 0 || s.last() == c {
        s.len() as int
    } else {
        behind_last(s.drop_last(), c)
    }
}

/// The place behind the last `c`, or 0.
pub fn find_behind_last(chars: &[char], c: char) -> (r: usize)
    ensures
        r <= chars@.len(),
        r == behind_last(chars@, c),
{
    let mut at: usize = chars.len();
    assert(chars@.take(at as int) =~= chars@);
    while at > 0 && chars[at - 1] != c
        invariant
            at <= chars@.len(),
            behind_last(chars@, c) == behind_last(chars@.take(at as int), c),
        decreases at,
    {
        assert(chars@.take(at as int).drop_last() =~= chars@.take(at - 1));
        at -= 1;
    }
    at
}

/// What `behind_last` finds: the character stands before it and nowhere behind it.
pub proof fn lemma_behind_last(s: Seq<char>, c: char)
    ensures
        0 <= behind_last(s, c) <= s.len(),
        behind_last(s, c) > 0 ==> s[behind_last(s, c) - 1] == c,
        forall|i: int| behind_last(s, c) <= i < s.len() ==> s[i] != c,
    decreases s.len(),
{
    if s.len() > 0 && s.last() != c {
        lemma_behind_last(s.drop_last(), c);
        assert forall|i: int| behind_last(s, c) <= i < s.len() implies s[i] != c by {
            if i < s.len() - 1 {
                assert(s[i] == s.drop_last()[i]);
            }
        }
    }
}

// ---------------------------------------------------------------------------
// Upper and lower case, and the order of texts

/// The ASCII lower-case form of `c`.
pub open spec fn lower(c: char) -> char {
    if 65 <= c as u32 <= 90 {
        (c as u32 + 32) as char
    } else {
        c
    }
}

/// The text with its ASCII letters in lower case.
pub open spec fn lowered(s: Seq<char>) -> Seq<char> {
    s.map_values(|c: char| lower(c))
}

fn lower_char(c: char) -> (r: char)
    ensures
        r == lower(c),
{
    if 65 <= c as u32 && c as u32 <= 90 {
        (c as u8 + 32) as char
    } else {
        c
    }
}

/// The characters of `text` with the ASCII letters in lower case.
pub fn lower_chars(text: &str) -> (r: Vec<char>)
    ensures
        r@ == lowered(text@),
{
    let chars = chars_of(text);
    let mut lowers: Vec<char> = Vec::new();
    for index in 0..chars.len()
        invariant
            chars@ == text@,
            lowers@.len() == index,
            forall|i: int| 0 <= i < index ==> lowers@[i] == lower(text@[i]),
    {
        lowers.push(lower_char(chars[index]));
    }
    assert(lowers@ =~= lowered(text@));
    lowers
}

/// `a` comes before `b` or is equal to it, in the order of dictionaries with the
/// characters ordered by their numbers.
pub open spec fn text_le(a: Seq<char>, b: Seq<char>) -> bool
    decreases a.len(),
{
    if a.len() == 0 {
        true
    } else if b.len() == 0 {
        false
    } else if a[0] == b[0] {
        text_le(a.skip(1), b.skip(1))
    } else {
        (a[0] as int) < (b[0] as int)
    }
}

fn smaller(a: char, b: char) -> (r: bool)
    ensures
        r == ((a as int) < (b as int)),
{
    (a as u32) < (b as u32)
}

/// Whether `a` comes before `b` or is equal to it.
pub fn not_after(a: &[char], b: &[char]) -> (r: bool)
    ensures
        r == text_le(a@, b@),
{
    let mut index: usize = 0;
    assert(a@.skip(0) =~= a@);
    assert(b@.skip(0) =~= b@);
    while index < a.len() && index < b.len() && a[index] == b[index]
        invariant
            index <= a@.len(),
            index <= b@.len(),
            text_le(a@, b@) == text_le(a@.skip(index as int), b@.skip(index as int)),
        decreases a@.len() - index,
    {
        assert(a@.skip(index as int).skip(1) =~= a@.skip(index + 1));
        assert(b@.skip(index as int).skip(1) =~= b@.skip(index + 1));
        index += 1;
    }
    if index >= a.len() {
        true
    } else if index >= b.len() {
        false
    } else {
        smaller(a[index], b[index])
    }
}

/// The order of texts is total and transitive.
pub proof fn lemma_text_order(a: Seq<char>, b: Seq<char>, c: Seq<char>)
    ensures
        text_le(a, b) || text_le(b, a),
        text_le(a, b) && text_le(b, c) ==> text_le(a, c),
    decreases a.len() + b.len() + c.len(),
{
    if a.len() > 0 && b.len() > 0 && a[0] == b[0] {
        if c.len() > 0 {
            lemma_text_order(a.skip(1), b.skip(1), c.skip(1));
        } else {
            lemma_text_order(a.skip(1), b.skip(1), c);
        }
    }
}

// ---------------------------------------------------------------------------
// Numbers

/// All characters are decimal digits.
pub open spec fn all_digits(s: Seq<char>) -> bool {
    forall|i: int| 0 <= i < s.len() ==> 48 <= #[trigger] s[i] as u32 <= 57
}

/// The number that decimal digits make.
pub open spec fn digits_value(s: Seq<char>) -> nat
    decreases s.len(),
{
    if s.len() == 0 {
        0
    } else {
        (digits_value(s.drop_last()) * 10 + (s.last() as u32 - 48)) as nat
    }
}

/// The digits of a number that may have a `+` before it.
pub open spec fn unsigned_digits(s: Seq<char>) -> Seq<char> {
    if s.len() > 1 && s[0] == '+' {
        s.skip(1)
    } else {
        s
    }
}

/// The number that `s` is the text of, if it is no larger than `max`: digits, at
/// least one, with a `+` before them or not.
pub open spec fn number_of(s: Seq<char>, max: nat) -> Option<nat> {
    let digits = unsigned_digits(s);
    if digits.len() > 0 && all_digits(digits) && digits_value(digits) <= max {
        Some(digits_value(digits))
    } else {
        None
    }
}

proof fn lemma_digits_grow(s: Seq<char>, at: int)
    requires
        0 <= at <= s.len(),
        all_digits(s),
    ensures
        digits_value(s.take(at)) <= digits_value(s),
    decreases s.len() - at,
{
    if at < s.len() {
        lemma_digits_grow(s, at + 1);
        assert(s.take(at + 1).drop_last() =~= s.take(at));
        assert(s.take(at + 1).last() == s[at]);
        assert(48 <= s[at] as u32 <= 57);
    } else {
        assert(s.take(at) =~= s);
    }
}

/// Reads a number that is no larger than `max`.
pub fn parse_number(text: &str, max: u32) -> (r: Option<u32>)
    ensures
        (match r {
            Some(value) => number_of(text@, max as nat) == Some(value as nat),
            None => number_of(text@, max as nat) is None,
        }),
{
    let chars = chars_of(text);
    let from: usize = if chars.len() > 1 && chars[0] == '+' {
        1
    } else {
        0
    };
    let ghost digits = unsigned_digits(text@);
    assert(digits =~= chars@.skip(from as int));
    if from >= chars.len() {
        return None;
    }
    let mut value: u64 = 0;
    let mut index: usize = from;
    while index < chars.len()
        invariant
            from <= index <= chars@.len(),
            digits == chars@.skip(from as int),
            chars@ == text@,
            digits == unsigned_digits(text@),
            all_digits(digits.take(index - from)),
            value == digits_value(digits.take(index - from)),
            value <= max,
        decreases chars@.len() - index,
    {
        let digit = chars[index] as u32;
        let ghost next = digits.take(index - from + 1);
        assert(next.drop_last() =~= digits.take(index - from));
        assert(next.last() == chars@[index as int]);
        if digit < 48 || digit > 57 {
            assert(digits[index - from] == chars@[index as int]);
            return None;
        }
        value = value * 10 + (digit - 48) as u64;
        assert(all_digits(next)) by {
            assert forall|i: int| 0 <= i < next.len() implies 48 <= #[trigger] next[i] as u32
                <= 57 by {
                if i < index - from {
                    assert(next[i] == digits.take(index - from)[i]);
                }
            }
        }
        if value > max as u64 {
            proof {
                if all_digits(digits) {
                    lemma_digits_grow(digits, index - from + 1);
                }
            }
            return None;
        }
        index += 1;
    }
    assert(digits.take(index - from) =~= digits);
    Some(value as u32)
}

/// The decimal digits of a number are read back as the number.
pub proof fn lemma_decimal_reads_back(value: nat)
    ensures
        decimal(value).len() > 0,
        all_digits(decimal(value)),
        digits_value(decimal(value)) == value,
        forall|max: nat| value <= max ==> #[trigger] number_of(decimal(value), max) == Some(value),
    decreases value,
{
    let text = decimal(value);
    if value < 10 {
        reveal_with_fuel(digits_value, 2);
        assert(text.drop_last().len() == 0);
        assert(text.last() == (value + 48) as char);
    } else {
        lemma_decimal_reads_back(value / 10);
        assert(text.drop_last() =~= decimal(value / 10));
        assert forall|i: int| 0 <= i < text.len() implies 48 <= #[trigger] text[i] as u32 <= 57 by {
            if i < text.len() - 1 {
                assert(text[i] == decimal(value / 10)[i]);
            }
        }
    }
    assert(48 <= text[0] as u32 <= 57);
    assert(unsigned_digits(text) == text);
}

// ---------------------------------------------------------------------------
// Replacing and cutting

/// `s` from `at` on with every `part` replaced by `other`, from front to back.
pub open spec fn replaced(s: Seq<char>, part: Seq<char>, other: Seq<char>, at: int) -> Seq<char>
    decreases s.len() - at,
{
    if at < 0 || at >= s.len() {
        Seq::empty()
    } else if part.len() > 0 && occurs_at(s, part, at) {
        other + replaced(s, part, other, at + part.len())
    } else {
        seq![s[at]] + replaced(s, part, other, at + 1)
    }
}

/// `text` with every `part` replaced by `other`, from front to back.
pub fn replace_all(text: &str, part: &str, other: &str) -> (r: String)
    requires
        part@.len() > 0,
    ensures
        r@ == replaced(text@, part@, other@, 0),
{
    let chars = chars_of(text);
    let piece = chars_of(part);
    let count = chars.len();
    let width = piece.len();
    let mut result = String::new();
    let mut at: usize = 0;
    let ghost whole = replaced(text@, part@, other@, 0);
    assert(result@ + whole =~= whole);
    while at < count
        invariant
            chars@ == text@,
            piece@ == part@,
            count == text@.len(),
            width == part@.len(),
            width > 0,
            at <= count,
            result@ + replaced(text@, part@, other@, at as int) == whole,
        decreases count - at,
    {
        let ghost before = result@;
        if is_at(chars.as_slice(), piece.as_slice(), at) {
            result.append(other);
            assert(before + (other@ + replaced(text@, part@, other@, at + width)) =~= result@
                + replaced(text@, part@, other@, at + width));
            at += width;
        } else {
            result.push(chars[at]);
            assert(before + (seq![text@[at as int]] + replaced(text@, part@, other@, at + 1))
                =~= result@ + replaced(text@, part@, other@, at + 1));
            at += 1;
        }
    }
    assert(result@ + Seq::<char>::empty() =~= result@);
    result
}

/// `s` without the `end` that it ends in, as often as it does.
pub open spec fn cut_ends(s: Seq<char>, end: Seq<char>) -> Seq<char>
    decreases s.len(),
{
    if end.len() > 0 && ends_in(s, end) {
        cut_ends(s.take(s.len() - end.len()), end)
    } else {
        s
    }
}

/// `text` without the `end` that it ends in, as often as it does.
pub fn cut_all_ends(text: &str, end: &str) -> (r: String)
    requires
        end@.len() > 0,
    ensures
        r@ == cut_ends(text@, end@),
{
    let chars = chars_of(text);
    let tail = chars_of(end);
    let width = tail.len();
    let mut stop: usize = chars.len();
    assert(chars@.take(stop as int) =~= chars@);
    loop
        invariant
            chars@ == text@,
            tail@ == end@,
            width == end@.len(),
            width > 0,
            stop <= chars@.len(),
            cut_ends(text@, end@) == cut_ends(text@.take(stop as int), end@),
        decreases stop,
    {
        let ghost part = text@.take(stop as int);
        if width > stop || !is_at(chars.as_slice(), tail.as_slice(), stop - width) {
            proof {
                if width <= stop {
                    assert(part.subrange(stop - width, stop as int) =~= text@.subrange(
                        stop - width,
                        stop as int,
                    ));
                }
                assert(!ends_in(part, end@));
                assert(part =~= text@.subrange(0, stop as int));
            }
            return text_of(chars.as_slice(), 0, stop);
        }
        proof {
            assert(part.subrange(stop - width, stop as int) =~= text@.subrange(
                stop - width,
                stop as int,
            ));
            assert(part.take(stop - width) =~= text@.take(stop - width));
        }
        stop -= width;
    }
}

/// The hexadecimal digits of `value`, in lower case.
pub open spec fn hexadecimal(value: nat) -> Seq<char>
    decreases value,
{
    if value < 16 {
        seq![hex_digit(value as int)]
    } else {
        hexadecimal(value / 16).push(hex_digit(value as int % 16))
    }
}

/// The hexadecimal digits of `value`, in lower case.
pub fn hexadecimal_text(value: u32) -> (r: String)
    ensures
        r@ == hexadecimal(value as nat),
    decreases value,
{
    if value < 16 {
        let mut text = String::new();
        text.push(digit_char(value as u16));
        assert(text@ =~= hexadecimal(value as nat));
        text
    } else {
        let mut text = hexadecimal_text(value / 16);
        text.push(digit_char((value % 16) as u16));
        text
    }
}

// ---------------------------------------------------------------------------
// What these helpers do

/// Of the ASCII characters, white space are the blank and the controls from the tab to
/// the carriage return; no character that shows is.
pub proof fn lemma_white_space(c: char)
    ensures
        (c as u32) < 0x80 ==> (is_white(c) <==> c == ' ' || '\t' as u32 <= c as u32 <= '\r' as u32),
        c as u32 > 0x3000 ==> !is_white(c),
        is_white('\u{a0}'),
        is_white('\u{3000}'),
{
}

proof fn lemma_trim_front(s: Seq<char>) -> (from: int)
    ensures
        0 <= from <= s.len(),
        trim_front(s) == s.skip(from),
        forall|i: int| 0 <= i < from ==> is_white(#[trigger] s[i]),
        from < s.len() ==> !is_white(s[from]),
    decreases s.len(),
{
    if s.len() > 0 && is_white(s[0]) {
        let rest = s.skip(1);
        let inner = lemma_trim_front(rest);
        assert(rest.skip(inner) =~= s.skip(inner + 1));
        assert forall|i: int| 0 <= i < inner + 1 implies is_white(#[trigger] s[i]) by {
            if i > 0 {
                assert(rest[i - 1] == s[i]);
            }
        }
        if inner < rest.len() {
            assert(rest[inner] == s[inner + 1]);
        }
        inner + 1
    } else {
        assert(s.skip(0) =~= s);
        0
    }
}

proof fn lemma_trim_back(s: Seq<char>) -> (to: int)
    ensures
        0 <= to <= s.len(),
        trim_back(s) == s.take(to),
        forall|i: int| to <= i < s.len() ==> is_white(#[trigger] s[i]),
        to > 0 ==> !is_white(s[to - 1]),
    decreases s.len(),
{
    if s.len() > 0 && is_white(s.last()) {
        let rest = s.drop_last();
        let inner = lemma_trim_back(rest);
        assert(rest.take(inner) =~= s.take(inner));
        assert forall|i: int| inner <= i < s.len() implies is_white(#[trigger] s[i]) by {
            if i < rest.len() {
                assert(rest[i] == s[i]);
            }
        }
        inner
    } else {
        assert(s.take(s.len() as int) =~= s);
        s.len() as int
    }
}

/// Trimming takes white space off both ends and nothing else: what is left starts and
/// ends with something else, and what went is white space alone.
pub proof fn lemma_trimmed(s: Seq<char>) -> (r: (int, int))
    ensures
        0 <= r.0 <= r.1 <= s.len(),
        trimmed(s) == s.subrange(r.0, r.1),
        forall|i: int| 0 <= i < r.0 ==> is_white(#[trigger] s[i]),
        forall|i: int| r.1 <= i < s.len() ==> is_white(#[trigger] s[i]),
        r.0 < r.1 ==> !is_white(s[r.0]) && !is_white(s[r.1 - 1]),
{
    let from = lemma_trim_front(s);
    let rest = s.skip(from);
    let to = lemma_trim_back(rest);
    assert(rest.take(to) =~= s.subrange(from, from + to));
    assert forall|i: int| from + to <= i < s.len() implies is_white(#[trigger] s[i]) by {
        assert(rest[i - from] == s[i]);
    }
    if to > 0 {
        assert(rest[to - 1] == s[from + to - 1]);
    }
    (from, from + to)
}

/// A text is found where it stands.
pub proof fn lemma_part_is_found(before: Seq<char>, part: Seq<char>, after: Seq<char>)
    ensures
        occurs_at(before + part + after, part, before.len() as int),
        occurs(before + part + after, part),
        ends_in(before + part, part),
{
    let s = before + part + after;
    let at = before.len() as int;
    assert(s.subrange(at, at + part.len()) =~= part);
    let t = before + part;
    assert(t.subrange(at, at + part.len()) =~= part);
    assert(occurs_at(s, part, at));
}

/// A text that is found stands there character for character.
pub proof fn lemma_found_part(s: Seq<char>, part: Seq<char>, at: int)
    requires
        occurs_at(s, part, at),
    ensures
        0 <= at,
        at + part.len() <= s.len(),
        forall|i: int| 0 <= i < part.len() ==> s[at + i] == #[trigger] part[i],
{
    assert forall|i: int| 0 <= i < part.len() implies s[at + i] == #[trigger] part[i] by {
        assert(s.subrange(at, at + part.len())[i] == part[i]);
    }
}

/// Lower case changes the letters from A to Z alone, each to the small letter of its
/// place in the alphabet, and nothing that is lower case already.
pub proof fn lemma_lower_case(c: char, place: u32)
    requires
        place < 26,
    ensures
        c as u32 == 'A' as u32 + place ==> lower(c) as u32 == 'a' as u32 + place,
        !('A' as u32 <= c as u32 <= 'Z' as u32) ==> lower(c) == c,
        lower(lower(c)) == lower(c),
{
}

/// Lower case goes character by character.
pub proof fn lemma_lowered_text(s: Seq<char>)
    ensures
        lowered(s).len() == s.len(),
        forall|i: int| 0 <= i < s.len() ==> #[trigger] lowered(s)[i] == lower(s[i]),
        lowered(lowered(s)) == lowered(s),
{
    assert(lowered(lowered(s)) =~= lowered(s));
}

/// Two texts are ordered by the first character in which they differ, and a text comes
/// before those that go on behind it.
pub proof fn lemma_first_difference_orders(a: Seq<char>, b: Seq<char>, at: int)
    requires
        0 <= at <= a.len(),
        at <= b.len(),
        a.take(at) == b.take(at),
    ensures
        at < a.len() && at < b.len() && (a[at] as int) < (b[at] as int) ==> text_le(a, b)
            && !text_le(b, a),
        at == a.len() ==> text_le(a, b),
        at == a.len() && at < b.len() ==> !text_le(b, a),
    decreases at,
{
    if at > 0 {
        assert(a.take(at)[0] == a[0]);
        assert(b.take(at)[0] == b[0]);
        assert(a.skip(1).take(at - 1) =~= a.take(at).skip(1));
        assert(b.skip(1).take(at - 1) =~= b.take(at).skip(1));
        lemma_first_difference_orders(a.skip(1), b.skip(1), at - 1);
        if at < a.len() && at < b.len() {
            assert(a.skip(1)[at - 1] == a[at] && b.skip(1)[at - 1] == b[at]);
        }
    }
}

/// Every digit weighs ten times as much as the one behind it.
pub proof fn lemma_digits_weigh_ten(s: Seq<char>, digit: u32, max: nat)
    requires
        digit < 10,
        all_digits(s),
        s.len() > 0,
    ensures
        ({
            let longer = s.push(('0' as u32 + digit) as char);
            &&& all_digits(longer)
            &&& digits_value(longer) == 10 * digits_value(s) + digit
            &&& number_of(longer, max) == if 10 * digits_value(s) + digit <= max {
                Some((10 * digits_value(s) + digit) as nat)
            } else {
                None::<nat>
            }
        }),
        digits_value(seq![('0' as u32 + digit) as char]) == digit,
{
    let c = ('0' as u32 + digit) as char;
    let longer = s.push(c);
    assert(c as u32 == 48 + digit);
    assert(longer.drop_last() =~= s);
    assert forall|i: int| 0 <= i < longer.len() implies 48 <= #[trigger] longer[i] as u32 <= 57 by {
        if i < s.len() {
            assert(longer[i] == s[i]);
        }
    }
    assert(48 <= s[0] as u32 <= 57);
    assert(longer[0] == s[0]);
    assert(unsigned_digits(longer) == longer);
    let one = seq![c];
    reveal_with_fuel(digits_value, 2);
    assert(one.drop_last().len() == 0);
    assert(one.last() == c);
}

/// A number may have one `+` before it, is never empty, and has nothing but digits.
pub proof fn lemma_numbers_are_plain(s: Seq<char>, max: nat, i: int)
    ensures
        number_of(Seq::empty(), max) is None,
        number_of(seq!['+'], max) is None,
        s.len() > 0 && s[0] != '+' ==> number_of(seq!['+'] + s, max) == number_of(s, max),
        0 <= i < s.len() && !('0' as u32 <= s[i] as u32 <= '9' as u32) && !(i == 0 && s[i] == '+')
            ==> number_of(s, max) is None,
        number_of(s, max) matches Some(value) ==> value <= max,
{
    let sign = seq!['+'];
    assert(unsigned_digits(sign) == sign);
    assert(sign[0] as u32 == 43);
    assert(!all_digits(sign));
    if s.len() > 0 && s[0] != '+' {
        assert((sign + s).skip(1) =~= s);
    }
    if 0 <= i < s.len() && !('0' as u32 <= s[i] as u32 <= '9' as u32) && !(i == 0 && s[i] == '+') {
        let digits = unsigned_digits(s);
        if s.len() > 1 && s[0] == '+' {
            assert(digits[i - 1] == s[i]);
        } else {
            assert(digits[i] == s[i]);
        }
        assert(!all_digits(digits));
    }
}

/// What a hexadecimal digit stands for.
pub open spec fn hex_digit_value(c: char) -> int {
    if '0' as u32 <= c as u32 <= '9' as u32 {
        c as u32 - '0' as u32
    } else {
        c as u32 - 'a' as u32 + 10
    }
}

/// What hexadecimal digits stand for.
pub open spec fn hex_value(s: Seq<char>) -> int
    decreases s.len(),
{
    if s.len() == 0 {
        0
    } else {
        16 * hex_value(s.drop_last()) + hex_digit_value(s.last())
    }
}

/// The hexadecimal digits of a number stand for the number, without needless zeros.
pub proof fn lemma_hexadecimal_reads_back(value: nat)
    ensures
        hex_value(hexadecimal(value)) == value,
        hexadecimal(value).len() > 0,
        hexadecimal(value)[0] == '0' ==> value == 0,
    decreases value,
{
    if value < 16 {
        reveal_with_fuel(hex_value, 2);
        assert(hexadecimal(value).drop_last().len() == 0);
        assert(hexadecimal(value).last() == hex_digit(value as int));
    } else {
        lemma_hexadecimal_reads_back(value / 16);
        assert(hexadecimal(value).drop_last() =~= hexadecimal(value / 16));
        assert(hexadecimal(value)[0] == hexadecimal(value / 16)[0]);
    }
}

/// The four digits behind `0x` stand for the number.
pub proof fn lemma_hex4_reads_back(value: u16)
    ensures
        hex4(value).len() == 6,
        hex4(value)[0] == '0',
        hex4(value)[1] == 'x',
        hex_value(hex4(value).skip(2)) == value,
{
    let s = hex4(value).skip(2);
    reveal_with_fuel(hex_value, 5);
    assert(s.drop_last().drop_last().drop_last().drop_last().len() == 0);
    assert(s.last() == s[3]);
    assert(s.drop_last().last() == s[2]);
    assert(s.drop_last().drop_last().last() == s[1]);
    assert(s.drop_last().drop_last().drop_last().last() == s[0]);
}

/// The decimal digits of a number have no needless zeros.
pub proof fn lemma_decimal_is_short(value: nat)
    ensures
        decimal(value)[0] == '0' ==> value == 0,
    decreases value,
{
    if value >= 10 {
        lemma_decimal_is_short(value / 10);
        lemma_decimal_reads_back(value / 10);
        assert(decimal(value)[0] == decimal(value / 10)[0]);
    }
}

proof fn lemma_replaced_rest(
    s: Seq<char>,
    t: Seq<char>,
    part: Seq<char>,
    other: Seq<char>,
    at: int,
    bt: int,
)
    requires
        part.len() > 0,
        0 <= at <= s.len(),
        0 <= bt <= t.len(),
        s.skip(at) == t.skip(bt),
    ensures
        replaced(s, part, other, at) == replaced(t, part, other, bt),
    decreases s.len() - at,
{
    assert(s.skip(at).len() == s.len() - at && t.skip(bt).len() == t.len() - bt);
    if at < s.len() {
        let n = part.len();
        assert(s.skip(at)[0] == s[at] && t.skip(bt)[0] == t[bt]);
        if at + n <= s.len() {
            assert(s.subrange(at, at + n) =~= s.skip(at).take(n as int));
            assert(t.subrange(bt, bt + n) =~= t.skip(bt).take(n as int));
        }
        if occurs_at(s, part, at) {
            assert(s.skip(at + n) =~= s.skip(at).skip(n as int));
            assert(t.skip(bt + n) =~= t.skip(bt).skip(n as int));
            lemma_replaced_rest(s, t, part, other, at + n, bt + n);
        } else {
            assert(s.skip(at + 1) =~= s.skip(at).skip(1));
            assert(t.skip(bt + 1) =~= t.skip(bt).skip(1));
            lemma_replaced_rest(s, t, part, other, at + 1, bt + 1);
        }
    }
}

proof fn lemma_replaced_until(s: Seq<char>, part: Seq<char>, other: Seq<char>, at: int, to: int)
    requires
        part.len() > 0,
        0 <= at <= to <= s.len(),
        forall|i: int| at <= i < to ==> !occurs_at(s, part, i),
    ensures
        replaced(s, part, other, at) == s.subrange(at, to) + replaced(s, part, other, to),
    decreases to - at,
{
    if at < to {
        assert(!occurs_at(s, part, at));
        lemma_replaced_until(s, part, other, at + 1, to);
        assert(seq![s[at]] + (s.subrange(at + 1, to) + replaced(s, part, other, to)) =~= s.subrange(
            at,
            to,
        ) + replaced(s, part, other, to));
    } else {
        assert(s.subrange(at, to) + replaced(s, part, other, to) =~= replaced(s, part, other, to));
    }
}

/// Replacing puts the other text in the place of the first find, keeps what stands before
/// it, and goes on behind it.
pub proof fn lemma_first_find_is_replaced(
    before: Seq<char>,
    part: Seq<char>,
    after: Seq<char>,
    other: Seq<char>,
)
    requires
        part.len() > 0,
        forall|i: int| 0 <= i < before.len() ==> !occurs_at(before + part + after, part, i),
    ensures
        replaced(before + part + after, part, other, 0) == before + other + replaced(
            after,
            part,
            other,
            0,
        ),
{
    let s = before + part + after;
    let at = before.len() as int;
    lemma_part_is_found(before, part, after);
    lemma_replaced_until(s, part, other, 0, at);
    assert(s.subrange(0, at) =~= before);
    assert(s.skip(at + part.len()) =~= after.skip(0));
    lemma_replaced_rest(s, after, part, other, at + part.len(), 0);
    assert(before + (other + replaced(after, part, other, 0)) =~= before + other + replaced(
        after,
        part,
        other,
        0,
    ));
}

/// A text without the part stays as it is.
pub proof fn lemma_nothing_is_replaced(s: Seq<char>, part: Seq<char>, other: Seq<char>)
    requires
        part.len() > 0,
        !occurs(s, part),
    ensures
        replaced(s, part, other, 0) == s,
{
    lemma_replaced_until(s, part, other, 0, s.len() as int);
    assert(s.subrange(0, s.len() as int) =~= s);
    assert(s + replaced(s, part, other, s.len() as int) =~= s);
}

/// Cutting takes the end off as often as it stands there, and nothing else.
pub proof fn lemma_ends_are_cut(s: Seq<char>, end: Seq<char>)
    requires
        end.len() > 0,
    ensures
        cut_ends(s + end, end) == cut_ends(s, end),
        !ends_in(s, end) ==> cut_ends(s, end) == s,
        !ends_in(cut_ends(s, end), end),
        cut_ends(s, end).is_prefix_of(s),
    decreases s.len(),
{
    let longer = s + end;
    assert(longer.subrange(s.len() as int, longer.len() as int) =~= end);
    assert(longer.take(s.len() as int) =~= s);
    if ends_in(s, end) {
        let rest = s.take(s.len() - end.len());
        lemma_ends_are_cut(rest, end);
        assert(cut_ends(s, end) == cut_ends(rest, end));
        let r = cut_ends(rest, end);
        assert(r =~= s.subrange(0, r.len() as int)) by {
            assert(r =~= rest.subrange(0, r.len() as int));
        }
    } else {
        assert(s =~= s.subrange(0, s.len() as int));
    }
}

} // verus!
