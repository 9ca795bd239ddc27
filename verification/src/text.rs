//! Text: what strings hold, compare as and turn into, over their characters.

use crate::sorting::insert_distinct;
use crate::sorting::lemma_ordered_insert_map;
use crate::sorting::ordered_insert;
use crate::sorting::total_order;
use vstd::prelude::*;
use vstd::string::StrSliceExecFns;
use vstd::string::StringExecFns;
use vstd::utf8::decode_utf8;
use vstd::utf8::encode_utf8;

verus! {

/// `String::push` appends one character at the end.
pub assume_specification[ std::string::String::push ](text: &mut std::string::String, c: char)
    ensures
        final(text)@ == old(text)@.push(c),
;

/// What each string of `texts` holds.
pub open spec fn texts(strings: Seq<String>) -> Seq<Seq<char>> {
    strings.map_values(|s: String| s@)
}

/// What an optional string holds.
pub open spec fn opt_text(value: Option<String>) -> Option<Seq<char>> {
    match value {
        Some(text) => Some(text@),
        None => None,
    }
}

/// How many bytes `text` takes in UTF-8.
pub open spec fn byte_len(text: Seq<char>) -> nat {
    encode_utf8(text).len()
}

/// The characters with the Unicode property White_Space.
pub open spec fn white_space(c: char) -> bool {
    let u = c as u32;
    ||| 0x9 <= u <= 0xd
    ||| u == 0x20
    ||| u == 0x85
    ||| u == 0xa0
    ||| u == 0x1680
    ||| 0x2000 <= u <= 0x200a
    ||| u == 0x2028
    ||| u == 0x2029
    ||| u == 0x202f
    ||| u == 0x205f
    ||| u == 0x3000
}

/// `text` without the white space it starts with.
pub open spec fn trim_start(text: Seq<char>) -> Seq<char>
    decreases text.len(),
{
    if text.len() > 0 && white_space(text[0]) {
        trim_start(text.drop_first())
    } else {
        text
    }
}

/// `text` without the white space it ends with.
pub open spec fn trim_end(text: Seq<char>) -> Seq<char>
    decreases text.len(),
{
    if text.len() > 0 && white_space(text.last()) {
        trim_end(text.drop_last())
    } else {
        text
    }
}

/// `text` without white space at either end.
pub open spec fn trim(text: Seq<char>) -> Seq<char> {
    trim_end(trim_start(text))
}

/// The lower-case form of an ASCII letter, and any other character as it is.
pub open spec fn lower_char(c: char) -> char {
    if 'A' <= c <= 'Z' {
        (c as u32 + 32) as char
    } else {
        c
    }
}

/// `text` with its ASCII letters in lower case.
pub open spec fn lower(text: Seq<char>) -> Seq<char> {
    text.map_values(|c: char| lower_char(c))
}

/// The order of two texts: by the first character in which they differ, and a
/// text before its own extensions.
pub open spec fn text_less(a: Seq<char>, b: Seq<char>) -> bool
    decreases a.len(),
{
    if b.len() == 0 {
        false
    } else if a.len() == 0 {
        true
    } else if a[0] != b[0] {
        a[0] < b[0]
    } else {
        text_less(a.drop_first(), b.drop_first())
    }
}

/// `parts` one after the other, with `separator` between each two.
pub open spec fn join(parts: Seq<Seq<char>>, separator: Seq<char>) -> Seq<char>
    decreases parts.len(),
{
    if parts.len() == 0 {
        Seq::empty()
    } else if parts.len() == 1 {
        parts[0]
    } else {
        join(parts.drop_last(), separator) + separator + parts.last()
    }
}

/// Whether `text` begins with `prefix`.
pub open spec fn starts_with(text: Seq<char>, prefix: Seq<char>) -> bool {
    prefix.len() <= text.len() && text.take(prefix.len() as int) == prefix
}

/// The character of a decimal digit.
pub open spec fn digit_char(digit: int) -> char {
    (digit + 48) as char
}

pub open spec fn is_digit(c: char) -> bool {
    '0' <= c <= '9'
}

/// A natural number in decimal digits, with no leading zero.
pub open spec fn nat_text(n: nat) -> Seq<char>
    decreases n,
{
    if n < 10 {
        seq![digit_char(n as int)]
    } else {
        nat_text(n / 10).push(digit_char((n % 10) as int))
    }
}

/// An integer in decimal digits, with a minus sign if it is negative.
pub open spec fn int_text(n: int) -> Seq<char> {
    if n < 0 {
        seq!['-'] + nat_text((-n) as nat)
    } else {
        nat_text(n as nat)
    }
}

pub open spec fn all_digits(text: Seq<char>) -> bool {
    forall|i: int| 0 <= i < text.len() ==> is_digit(#[trigger] text[i])
}

/// The number that a run of decimal digits writes.
pub open spec fn digits_value(text: Seq<char>) -> nat
    decreases text.len(),
{
    if text.len() == 0 {
        0
    } else {
        (10 * digits_value(text.drop_last()) + (text.last() as int - 48)) as nat
    }
}

/// `text` without its sign, if it starts with one.
pub open spec fn unsigned_part(text: Seq<char>) -> Seq<char> {
    if text.len() > 0 && (text[0] == '+' || text[0] == '-') {
        text.drop_first()
    } else {
        text
    }
}

/// The integer that `text` writes: an optional sign, then one or more decimal
/// digits. `None` for any other text, and for a number that is no `i64`.
pub open spec fn parse_i64(text: Seq<char>) -> Option<i64> {
    let digits = unsigned_part(text);
    let size = digits_value(digits);
    let value = if text.len() > 0 && text[0] == '-' {
        -(size as int)
    } else {
        size as int
    };
    if digits.len() > 0 && all_digits(digits) && i64::MIN <= value <= i64::MAX {
        Some(value as i64)
    } else {
        None
    }
}

/// The character of a hexadecimal digit, in lower case.
pub open spec fn hex_char(digit: int) -> char {
    if digit < 10 {
        (digit + 48) as char
    } else {
        (digit + 87) as char
    }
}

/// The last `width` hexadecimal digits of `n`.
pub open spec fn hex_text(n: nat, width: nat) -> Seq<char>
    decreases width,
{
    if width == 0 {
        Seq::empty()
    } else {
        hex_text(n / 16, (width - 1) as nat).push(hex_char((n % 16) as int))
    }
}

/// The characters of `text`, in order.
pub fn chars_of(text: &str) -> (chars: Vec<char>)
    ensures
        chars@ == text@,
{
    let mut chars: Vec<char> = Vec::new();
    for c in iter: text.chars()
        invariant
            chars@ == text@.take(iter.index() as int),
            iter.seq() == text@,
    {
        chars.push(c);
    }
    chars
}

/// The string that holds the characters from `from` up to `to`.
pub fn string_of(chars: &Vec<char>, from: usize, to: usize) -> (text: String)
    requires
        from <= to <= chars.len(),
    ensures
        text@ == chars@.subrange(from as int, to as int),
{
    let mut text = String::new();
    let mut i: usize = from;
    while i < to
        invariant
            from <= i <= to <= chars.len(),
            text@ == chars@.subrange(from as int, i as int),
        decreases to - i,
    {
        text.push(chars[i]);
        i += 1;
        assert(chars@.subrange(from as int, i as int) =~= chars@.subrange(
            from as int,
            i - 1,
        ).push(chars@[i - 1]));
    }
    text
}

/// Whether two texts hold the same characters.
pub fn same(a: &str, b: &str) -> (r: bool)
    ensures
        r == (a@ == b@),
{
    broadcast use vstd::utf8::encode_utf8_decode_utf8;

    let x = a.as_bytes();
    let y = b.as_bytes();
    if x.len() != y.len() {
        return false;
    }
    let mut i: usize = 0;
    while i < x.len()
        invariant
            i <= x.len(),
            x.len() == y.len(),
            x@ == encode_utf8(a@),
            y@ == encode_utf8(b@),
            forall|j: int| 0 <= j < i ==> x@[j] == y@[j],
        decreases x.len() - i,
    {
        if x[i] != y[i] {
            return false;
        }
        i += 1;
    }
    assert(x@ =~= y@);
    assert(decode_utf8(encode_utf8(a@)) == a@);
    assert(decode_utf8(encode_utf8(b@)) == b@);
    true
}

/// Whether `value` is one of `list`.
pub fn is_in(value: &str, list: &Vec<String>) -> (r: bool)
    ensures
        r == texts(list@).contains(value@),
{
    let mut i: usize = 0;
    while i < list.len()
        invariant
            i <= list.len(),
            forall|j: int| 0 <= j < i ==> list@[j]@ != value@,
        decreases list.len() - i,
    {
        if same(list[i].as_str(), value) {
            assert(texts(list@)[i as int] == value@);
            return true;
        }
        i += 1;
    }
    assert(!texts(list@).contains(value@)) by {
        if texts(list@).contains(value@) {
            let j = choose|j: int|
                0 <= j < texts(list@).len() && #[trigger] texts(list@)[j] == value@;
            assert(list@[j]@ == value@);
        }
    }
    false
}

/// Whether `c` is white space.
pub fn is_white_space(c: char) -> (r: bool)
    ensures
        r == white_space(c),
{
    let u = c as u32;
    (0x9 <= u && u <= 0xd) || u == 0x20 || u == 0x85 || u == 0xa0 || u == 0x1680 || (0x2000 <= u
        && u <= 0x200a) || u == 0x2028 || u == 0x2029 || u == 0x202f || u == 0x205f || u == 0x3000
}

/// `text` without white space at either end.
pub fn trimmed(text: &str) -> (r: String)
    ensures
        r@ == trim(text@),
{
    let chars = chars_of(text);
    let mut start: usize = 0;
    assert(chars@.skip(0) =~= chars@);
    while start < chars.len() && is_white_space(chars[start])
        invariant
            start <= chars.len(),
            trim_start(chars@) == trim_start(chars@.skip(start as int)),
        decreases chars.len() - start,
    {
        assert(chars@.skip(start as int).drop_first() =~= chars@.skip(start + 1));
        start += 1;
    }
    let mut end: usize = chars.len();
    assert(chars@.subrange(start as int, end as int) =~= chars@.skip(start as int));
    assert(trim_start(chars@) == chars@.subrange(start as int, end as int));
    while end > start && is_white_space(chars[end - 1])
        invariant
            start <= end <= chars.len(),
            trim(chars@) == trim_end(chars@.subrange(start as int, end as int)),
        decreases end,
    {
        assert(chars@.subrange(start as int, end as int).drop_last() =~= chars@.subrange(
            start as int,
            end - 1,
        ));
        end -= 1;
    }
    string_of(&chars, start, end)
}

/// `text` with its ASCII letters in lower case.
pub fn lowered(text: &str) -> (r: String)
    ensures
        r@ == lower(text@),
{
    let chars = chars_of(text);
    let mut out = String::new();
    let mut i: usize = 0;
    while i < chars.len()
        invariant
            i <= chars.len(),
            out@ == lower(chars@.take(i as int)),
        decreases chars.len() - i,
    {
        let c = chars[i];
        if 'A' <= c && c <= 'Z' {
            out.push((c as u8 + 32) as char);
        } else {
            out.push(c);
        }
        i += 1;
        assert(out@ =~= lower(chars@.take(i as int)));
    }
    assert(chars@.take(chars@.len() as int) =~= chars@);
    out
}

/// Whether `a` comes before `b`.
pub fn is_less(a: &str, b: &str) -> (r: bool)
    ensures
        r == text_less(a@, b@),
{
    let x = chars_of(a);
    let y = chars_of(b);
    let mut i: usize = 0;
    assert(x@.skip(0) =~= x@);
    assert(y@.skip(0) =~= y@);
    while i < x.len() && i < y.len() && x[i] == y[i]
        invariant
            i <= x.len(),
            i <= y.len(),
            text_less(x@, y@) == text_less(x@.skip(i as int), y@.skip(i as int)),
        decreases x.len() - i,
    {
        assert(x@.skip(i as int).drop_first() =~= x@.skip(i + 1));
        assert(y@.skip(i as int).drop_first() =~= y@.skip(i + 1));
        i += 1;
    }
    if i >= y.len() {
        false
    } else if i >= x.len() {
        true
    } else {
        x[i] < y[i]
    }
}

/// `parts` one after the other, with `separator` between each two.
pub fn joined(parts: &Vec<String>, separator: &str) -> (r: String)
    ensures
        r@ == join(texts(parts@), separator@),
{
    let mut out = String::new();
    let mut i: usize = 0;
    while i < parts.len()
        invariant
            i <= parts.len(),
            out@ == join(texts(parts@).take(i as int), separator@),
        decreases parts.len() - i,
    {
        if i > 0 {
            out.append(separator);
        }
        out.append(parts[i].as_str());
        i += 1;
        let ghost now = texts(parts@).take(i as int);
        assert(now.drop_last() =~= texts(parts@).take(i - 1));
        assert(now.last() == parts@[i - 1]@);
        if i == 1 {
            assert(out@ =~= parts@[0]@);
        }
    }
    assert(texts(parts@).take(parts@.len() as int) =~= texts(parts@));
    out
}

/// What follows `prefix` in `text`, if `text` begins with it.
pub fn after_prefix(text: &str, prefix: &str) -> (r: Option<String>)
    ensures
        match r {
            Some(rest) => starts_with(text@, prefix@) && rest@ == text@.skip(prefix@.len() as int),
            None => !starts_with(text@, prefix@),
        },
{
    let t = chars_of(text);
    let p = chars_of(prefix);
    if p.len() > t.len() {
        return None;
    }
    let mut i: usize = 0;
    while i < p.len()
        invariant
            i <= p.len() <= t.len(),
            p@ == prefix@,
            t@ == text@,
            forall|j: int| 0 <= j < i ==> p@[j] == t@[j],
        decreases p.len() - i,
    {
        if p[i] != t[i] {
            assert(text@.take(prefix@.len() as int)[i as int] == t@[i as int]);
            return None;
        }
        i += 1;
    }
    assert(text@.take(prefix@.len() as int) =~= prefix@);
    let rest = string_of(&t, p.len(), t.len());
    assert(rest@ =~= text@.skip(prefix@.len() as int));
    Some(rest)
}

/// A natural number in decimal digits.
pub fn unsigned_text(n: u128) -> (r: String)
    ensures
        r@ == nat_text(n as nat),
    decreases n,
{
    let digit = ((n % 10) as u8 + 48) as char;
    if n < 10 {
        let mut out = String::new();
        out.push(digit);
        assert(out@ =~= nat_text(n as nat));
        out
    } else {
        let mut out = unsigned_text(n / 10);
        out.push(digit);
        out
    }
}

/// An integer in decimal digits.
pub fn integer_text(n: i64) -> (r: String)
    ensures
        r@ == int_text(n as int),
{
    if n < 0 {
        let mut out = String::new();
        out.push('-');
        let size: i128 = -(n as i128);
        let digits = unsigned_text(size as u128);
        out.append(digits.as_str());
        assert(out@ =~= int_text(n as int));
        out
    } else {
        unsigned_text(n as u128)
    }
}

/// The last `width` hexadecimal digits of `n`.
pub fn hexadecimal_text(n: u64, width: usize) -> (r: String)
    ensures
        r@ == hex_text(n as nat, width as nat),
    decreases width,
{
    if width == 0 {
        String::new()
    } else {
        let mut out = hexadecimal_text(n / 16, width - 1);
        let digit = (n % 16) as u8;
        if digit < 10 {
            out.push((digit + 48) as char);
        } else {
            out.push((digit + 87) as char);
        }
        out
    }
}

proof fn lemma_digits_grow(text: Seq<char>, from: int)
    requires
        0 <= from <= text.len(),
        all_digits(text),
    ensures
        digits_value(text) >= digits_value(text.take(from)),
    decreases text.len(),
{
    if from == text.len() {
        assert(text.take(from) =~= text);
    } else {
        assert(all_digits(text.drop_last()));
        lemma_digits_grow(text.drop_last(), from);
        assert(text.drop_last().take(from) =~= text.take(from));
        assert(is_digit(text[text.len() - 1]));
    }
}

/// The integer that `text` writes, if it is one and fits.
pub fn parsed_i64(text: &str) -> (r: Option<i64>)
    ensures
        r == parse_i64(text@),
{
    let chars = chars_of(text);
    let negative = chars.len() > 0 && chars[0] == '-';
    let start: usize = if chars.len() > 0 && (chars[0] == '+' || chars[0] == '-') {
        1
    } else {
        0
    };
    let ghost digits = unsigned_part(text@);
    assert(digits =~= chars@.skip(start as int));
    if start == chars.len() {
        return None;
    }
    let limit: i128 = 9223372036854775808;
    let mut value: i128 = 0;
    let mut i: usize = start;
    while i < chars.len()
        invariant
            start <= i <= chars.len(),
            start <= 1,
            limit == 9223372036854775808,
            digits == chars@.skip(start as int),
            digits == unsigned_part(text@),
            chars@ == text@,
            negative == (text@.len() > 0 && text@[0] == '-'),
            all_digits(digits.take(i - start)),
            value == digits_value(digits.take(i - start)),
            0 <= value <= limit,
        decreases chars.len() - i,
    {
        let c = chars[i];
        assert(digits[i - start] == c);
        if c < '0' || c > '9' {
            return None;
        }
        let ghost next = digits.take(i - start + 1);
        assert(next.drop_last() =~= digits.take(i - start));
        assert(next.last() == c);
        value = value * 10 + (c as u32 as i128 - 48);
        assert(value == digits_value(next));
        assert(all_digits(next)) by {
            assert forall|j: int| 0 <= j < next.len() implies is_digit(#[trigger] next[j]) by {
                if j < i - start {
                    assert(next[j] == digits.take(i - start)[j]);
                }
            }
        }
        if value > limit {
            assert(parse_i64(text@) is None) by {
                if all_digits(digits) {
                    lemma_digits_grow(digits, i - start + 1);
                }
            }
            return None;
        }
        i += 1;
    }
    assert(digits.take(i - start) =~= digits);
    if negative {
        Some((-value) as i64)
    } else if value < limit {
        Some(value as i64)
    } else {
        None
    }
}

proof fn lemma_nat_text_digits(n: nat)
    ensures
        nat_text(n).len() > 0,
        all_digits(nat_text(n)),
        digits_value(nat_text(n)) == n,
        is_digit(nat_text(n)[0]),
    decreases n,
{
    reveal_with_fuel(digits_value, 2);
    if n < 10 {
        let text = nat_text(n);
        assert(text.drop_last() =~= Seq::<char>::empty());
        assert(is_digit(text[0]));
    } else {
        lemma_nat_text_digits(n / 10);
        let text = nat_text(n);
        assert(text.drop_last() =~= nat_text(n / 10));
        assert(is_digit(text.last()));
        assert(text[0] == nat_text(n / 10)[0]);
        assert forall|j: int| 0 <= j < text.len() implies is_digit(#[trigger] text[j]) by {
            if j < text.len() - 1 {
                assert(text[j] == nat_text(n / 10)[j]);
            }
        }
    }
}

/// Reading a written integer gives the integer back.
pub proof fn law_integer_text_reads_back(n: i64)
    ensures
        parse_i64(int_text(n as int)) == Some(n),
{
    let text = int_text(n as int);
    if n < 0 {
        lemma_nat_text_digits((-(n as int)) as nat);
        assert(unsigned_part(text) =~= nat_text((-(n as int)) as nat));
    } else {
        lemma_nat_text_digits(n as nat);
        assert(unsigned_part(text) =~= nat_text(n as nat));
    }
}

/// Where `c` comes first in `text`, from `from` on, if it does.
pub open spec fn next_index(text: Seq<char>, c: char, from: int) -> Option<int>
    decreases text.len() - from,
{
    if from < 0 || from >= text.len() {
        None
    } else if text[from] == c {
        Some(from)
    } else {
        next_index(text, c, from + 1)
    }
}

/// Where `c` comes first in `chars`, from `from` on, if it does.
pub fn find_char(chars: &Vec<char>, c: char, from: usize) -> (r: Option<usize>)
    ensures
        match r {
            Some(i) => next_index(chars@, c, from as int) == Some(i as int) && from <= i
                < chars@.len(),
            None => next_index(chars@, c, from as int) is None,
        },
{
    let mut i: usize = from;
    while i < chars.len()
        invariant
            from <= i,
            next_index(chars@, c, from as int) == next_index(chars@, c, i as int),
        decreases chars.len() - i,
    {
        if chars[i] == c {
            return Some(i);
        }
        i += 1;
    }
    None
}

pub proof fn lemma_next_index(text: Seq<char>, c: char, from: int, at: int)
    requires
        0 <= from <= at < text.len(),
        text[at] == c,
        forall|i: int| from <= i < at ==> #[trigger] text[i] != c,
    ensures
        next_index(text, c, from) == Some(at),
    decreases at - from,
{
    if from < at {
        lemma_next_index(text, c, from + 1, at);
    }
}

/// A written number is made of digits, and it is the only number that is so written.
pub proof fn law_number_text_is_digits(n: nat)
    ensures
        nat_text(n).len() > 0,
        forall|i: int| 0 <= i < nat_text(n).len() ==> is_digit(#[trigger] nat_text(n)[i]),
        forall|m: nat| #[trigger] nat_text(m) == nat_text(n) ==> m == n,
{
    lemma_nat_text_digits(n);
    assert forall|m: nat| #[trigger] nat_text(m) == nat_text(n) implies m == n by {
        lemma_nat_text_digits(m);
    }
}

/// Two texts that are the same up to their first `c` are the same behind it.
pub proof fn lemma_same_around(
    a: Seq<char>,
    behind_a: Seq<char>,
    b: Seq<char>,
    behind_b: Seq<char>,
    c: char,
)
    requires
        !a.contains(c),
        !b.contains(c),
        a.push(c) + behind_a == b.push(c) + behind_b,
    ensures
        a == b,
        behind_a == behind_b,
{
    let all = a.push(c) + behind_a;
    let other = b.push(c) + behind_b;
    assert(all[a.len() as int] == c);
    assert(other[b.len() as int] == c);
    if a.len() < b.len() {
        assert(other[a.len() as int] == b[a.len() as int]);
        assert(b.contains(b[a.len() as int]));
    } else if b.len() < a.len() {
        assert(all[b.len() as int] == a[b.len() as int]);
        assert(a.contains(a[b.len() as int]));
    }
    assert(all.take(a.len() as int) =~= a);
    assert(other.take(b.len() as int) =~= b);
    assert(all.skip(a.len() as int + 1) =~= behind_a);
    assert(other.skip(b.len() as int + 1) =~= behind_b);
}

/// A written integer is made of digits, and perhaps a minus sign.
pub proof fn law_integer_text_is_digits(n: i64)
    ensures
        int_text(n as int).len() > 0,
        forall|i: int|
            0 <= i < int_text(n as int).len() ==> #[trigger] int_text(n as int)[i] == '-'
                || is_digit(int_text(n as int)[i]),
{
    if n < 0 {
        lemma_nat_text_digits((-(n as int)) as nat);
        let digits = nat_text((-(n as int)) as nat);
        assert forall|i: int| 0 <= i < int_text(n as int).len() implies #[trigger] int_text(
            n as int,
        )[i] == '-' || is_digit(int_text(n as int)[i]) by {
            if i > 0 {
                assert(int_text(n as int)[i] == digits[i - 1]);
            }
        }
    } else {
        lemma_nat_text_digits(n as nat);
    }
}

/// No text comes before itself, and of two different texts one comes before the other.
pub proof fn law_text_order_is_total(a: Seq<char>, b: Seq<char>)
    ensures
        !text_less(a, a),
        a != b ==> text_less(a, b) || text_less(b, a),
        !(text_less(a, b) && text_less(b, a)),
    decreases a.len(),
{
    if a.len() > 0 {
        law_text_order_is_total(a.drop_first(), b.drop_first());
        if b.len() > 0 && a[0] == b[0] && a.drop_first() == b.drop_first() {
            assert(a =~= seq![a[0]] + a.drop_first());
            assert(b =~= seq![b[0]] + b.drop_first());
        }
    } else {
        assert(b.len() == 0 ==> a =~= b);
    }
}

/// A text before a second, and that before a third, is before the third.
pub proof fn law_text_order_is_transitive(a: Seq<char>, b: Seq<char>, c: Seq<char>)
    requires
        text_less(a, b),
        text_less(b, c),
    ensures
        text_less(a, c),
    decreases a.len(),
{
    if a.len() > 0 && a[0] == b[0] && b[0] == c[0] {
        law_text_order_is_transitive(a.drop_first(), b.drop_first(), c.drop_first());
    }
}

/// `list` with `item` behind it, if there is one.
pub open spec fn with(list: Seq<Seq<char>>, item: Option<Seq<char>>) -> Seq<Seq<char>> {
    match item {
        Some(text) => list.push(text),
        None => list,
    }
}

/// Puts `item` behind `list`, if there is one.
pub fn push_some(list: &mut Vec<String>, item: Option<String>)
    ensures
        texts(final(list)@) == with(texts(old(list)@), opt_text(item)),
{
    let ghost before = list@;
    match item {
        Some(text) => {
            let ghost added = text@;
            list.push(text);
            assert(texts(list@) =~= texts(before).push(added));
        },
        None => {},
    }
}

/// Puts `text` behind `list`.
pub fn push_text(list: &mut Vec<String>, text: String)
    ensures
        texts(final(list)@) == texts(old(list)@).push(text@),
{
    let ghost before = list@;
    let ghost added = text@;
    list.push(text);
    assert(texts(list@) =~= texts(before).push(added));
}

/// A list of nothing.
pub fn no_texts() -> (r: Vec<String>)
    ensures
        texts(r@) == Seq::<Seq<char>>::empty(),
{
    let r: Vec<String> = Vec::new();
    assert(texts(r@) =~= Seq::<Seq<char>>::empty());
    r
}

/// A list of one text.
pub fn one_text(text: String) -> (r: Vec<String>)
    ensures
        texts(r@) == seq![text@],
{
    let ghost added = text@;
    let mut r: Vec<String> = Vec::new();
    r.push(text);
    assert(texts(r@) =~= seq![added]);
    r
}

/// Another list of the same texts.
pub fn copy_texts(list: &Vec<String>) -> (r: Vec<String>)
    ensures
        texts(r@) == texts(list@),
{
    let mut out: Vec<String> = Vec::new();
    let mut i: usize = 0;
    while i < list.len()
        invariant
            i <= list.len(),
            out@ == list@.take(i as int),
        decreases list.len() - i,
    {
        out.push(list[i].clone());
        i += 1;
        assert(list@.take(i as int) =~= list@.take(i - 1).push(list@[i - 1]));
    }
    assert(list@.take(i as int) =~= list@);
    out
}

/// Another optional text that holds the same.
pub fn copy_option(value: &Option<String>) -> (r: Option<String>)
    ensures
        r == *value,
{
    match value {
        Some(text) => Some(text.clone()),
        None => None,
    }
}

/// The order of texts.
pub open spec fn text_order() -> spec_fn(Seq<char>, Seq<char>) -> bool {
    |a: Seq<char>, b: Seq<char>| text_less(a, b)
}

/// The order of texts is an order of all different texts.
pub proof fn law_text_order()
    ensures
        total_order(text_order()),
{
    let less = text_order();
    assert forall|a: Seq<char>, b: Seq<char>| #[trigger] less(a, b) implies !less(b, a) by {
        law_text_order_is_total(a, b);
    }
    assert forall|a: Seq<char>, b: Seq<char>|
        !#[trigger] less(a, b) && !less(b, a) implies a == b by {
        law_text_order_is_total(a, b);
    }
    assert forall|a: Seq<char>, b: Seq<char>, c: Seq<char>|
        #[trigger] less(a, b) && #[trigger] less(b, c) implies less(a, c) by {
        law_text_order_is_transitive(a, b, c);
    }
}

fn is_string_less(a: &String, b: &String) -> (r: bool)
    ensures
        r == text_less(a@, b@),
{
    is_less(a.as_str(), b.as_str())
}

/// Puts `text` among `list`, which is in order, if it is not in it.
pub fn insert_text(list: &mut Vec<String>, text: String)
    ensures
        texts(final(list)@) == ordered_insert(texts(old(list)@), text@, text_order()),
{
    let ghost less = |a: String, b: String| text_less(a@, b@);
    let ghost held = |s: String| s@;
    proof {
        assert forall|a: String, b: String| #[trigger] less(a, b) == text_order()(
            held(a),
            held(b),
        ) by {}
        lemma_ordered_insert_map(list@, text, held, less, text_order());
    }
    insert_distinct(list, text, is_string_less, Ghost(less));
}

/// How many bytes `text` takes in UTF-8.
pub fn byte_length(text: &str) -> (r: usize)
    ensures
        r == byte_len(text@),
{
    text.as_bytes().len()
}

/// The longest start of `text` that takes no more than `max` bytes in UTF-8.
pub open spec fn clipped(text: Seq<char>, max: int) -> Seq<char>
    decreases text.len(),
{
    if byte_len(text) <= max || text.len() == 0 {
        text
    } else {
        clipped(text.drop_last(), max)
    }
}

/// How many bytes a character takes in UTF-8.
pub open spec fn char_width(c: char) -> int {
    let u = c as u32;
    if u <= 0x7f {
        1
    } else if u <= 0x7ff {
        2
    } else if u <= 0xffff {
        3
    } else {
        4
    }
}

fn width_of(c: char) -> (r: usize)
    ensures
        r == char_width(c),
{
    let u: u32 = c as u32;
    if u <= 0x7f {
        1
    } else if u <= 0x7ff {
        2
    } else if u <= 0xffff {
        3
    } else {
        4
    }
}

/// The bytes of two texts one behind the other are those of the one, then those of
/// the other.
pub proof fn law_bytes_of_two(a: Seq<char>, b: Seq<char>)
    ensures
        encode_utf8(a + b) == encode_utf8(a) + encode_utf8(b),
    decreases a.len(),
{
    if a.len() == 0 {
        assert(a + b =~= b);
        assert(encode_utf8(a) + encode_utf8(b) =~= encode_utf8(b));
    } else {
        law_bytes_of_two(a.drop_first(), b);
        assert((a + b).drop_first() =~= a.drop_first() + b);
        assert(encode_utf8(a + b) =~= encode_utf8(a) + encode_utf8(b));
    }
}

proof fn lemma_byte_len_push(text: Seq<char>, c: char)
    ensures
        byte_len(text.push(c)) == byte_len(text) + char_width(c),
{
    broadcast use vstd::utf8::char_is_scalar;

    let one = seq![c];
    assert(text.push(c) =~= text + one);
    law_bytes_of_two(text, one);
    assert(one.drop_first() =~= Seq::<char>::empty());
    assert(encode_utf8(one.drop_first()).len() == 0);
    assert(vstd::utf8::is_scalar(c as u32));
}

/// A text that is not empty takes bytes.
pub proof fn lemma_byte_len_covers(text: Seq<char>)
    ensures
        text.len() > 0 ==> byte_len(text) > 0,
{
    if text.len() > 0 {
        lemma_byte_len_push(text.drop_last(), text.last());
        assert(text.drop_last().push(text.last()) =~= text);
    }
}

proof fn lemma_clipped(text: Seq<char>, max: int, k: int)
    requires
        0 <= k <= text.len(),
        byte_len(text.take(k)) <= max,
        k < text.len() ==> byte_len(text.take(k + 1)) > max,
    ensures
        clipped(text, max) == text.take(k),
    decreases text.len(),
{
    if k == text.len() {
        assert(text.take(k) =~= text);
    } else {
        lemma_byte_len_grows(text, k + 1);
        assert(text.drop_last().take(k) =~= text.take(k));
        if k < text.len() - 1 {
            assert(text.drop_last().take(k + 1) =~= text.take(k + 1));
        }
        lemma_clipped(text.drop_last(), max, k);
    }
}

proof fn lemma_byte_len_grows(text: Seq<char>, k: int)
    requires
        0 <= k <= text.len(),
    ensures
        byte_len(text.take(k)) <= byte_len(text),
{
    law_bytes_of_two(text.take(k), text.skip(k));
    assert(text.take(k) + text.skip(k) =~= text);
}

/// The longest start of `text` that takes no more than `max` bytes in UTF-8.
pub fn truncate_utf8(text: &str, max: usize) -> (r: String)
    ensures
        r@ == clipped(text@, max as int),
{
    let chars = chars_of(text);
    let mut used: usize = 0;
    let mut k: usize = 0;
    assert(text@.take(0) =~= Seq::<char>::empty());
    while k < chars.len()
        invariant
            k <= chars.len(),
            chars@ == text@,
            used == byte_len(text@.take(k as int)),
            used <= max,
        decreases chars.len() - k,
    {
        assert(text@.take(k + 1) =~= text@.take(k as int).push(text@[k as int]));
        proof {
            lemma_byte_len_push(text@.take(k as int), text@[k as int]);
        }
        let width: usize = width_of(chars[k]);
        if width > max - used {
            proof {
                lemma_clipped(text@, max as int, k as int);
            }
            assert(chars@.subrange(0, k as int) =~= text@.take(k as int));
            return string_of(&chars, 0, k);
        }
        used += width;
        k += 1;
    }
    proof {
        lemma_clipped(text@, max as int, k as int);
    }
    assert(chars@.subrange(0, k as int) =~= text@.take(k as int));
    string_of(&chars, 0, k)
}

/// A clipped text is a start of the text, and takes no more bytes than it may.
pub proof fn law_clipped_is_bounded(text: Seq<char>, max: int)
    requires
        max >= 0,
    ensures
        byte_len(clipped(text, max)) <= max,
        clipped(text, max).len() <= text.len(),
        clipped(text, max) == text.take(clipped(text, max).len() as int),
        max >= 4 && text.len() > 0 ==> clipped(text, max).len() > 0,
    decreases text.len(),
{
    if text.len() == 1 {
        lemma_byte_len_push(Seq::empty(), text[0]);
        assert(Seq::empty().push(text[0]) =~= text);
    }
    if byte_len(text) <= max || text.len() == 0 {
        assert(text.take(text.len() as int) =~= text);
    } else {
        law_clipped_is_bounded(text.drop_last(), max);
        let k = clipped(text, max).len() as int;
        assert(text.drop_last().take(k) =~= text.take(k));
    }
}

proof fn lemma_trim_start(text: Seq<char>) -> (a: int)
    ensures
        0 <= a <= text.len(),
        trim_start(text) == text.skip(a),
        forall|i: int| 0 <= i < a ==> white_space(#[trigger] text[i]),
        a < text.len() ==> !white_space(text[a]),
    decreases text.len(),
{
    if text.len() > 0 && white_space(text[0]) {
        let rest = text.drop_first();
        let b = lemma_trim_start(rest);
        assert(rest.skip(b) =~= text.skip(b + 1));
        assert forall|i: int| 0 <= i < b + 1 implies white_space(#[trigger] text[i]) by {
            if i > 0 {
                assert(rest[i - 1] == text[i]);
            }
        }
        b + 1
    } else {
        assert(text.skip(0) =~= text);
        0
    }
}

proof fn lemma_trim_end(text: Seq<char>) -> (b: int)
    ensures
        0 <= b <= text.len(),
        trim_end(text) == text.take(b),
        forall|i: int| b <= i < text.len() ==> white_space(#[trigger] text[i]),
        b > 0 ==> !white_space(text[b - 1]),
    decreases text.len(),
{
    if text.len() > 0 && white_space(text.last()) {
        let rest = text.drop_last();
        let b = lemma_trim_end(rest);
        assert(rest.take(b) =~= text.take(b));
        assert forall|i: int| b <= i < text.len() implies white_space(#[trigger] text[i]) by {
            if i < rest.len() {
                assert(rest[i] == text[i]);
            }
        }
        b
    } else {
        assert(text.take(text.len() as int) =~= text);
        text.len() as int
    }
}

/// What is left of a text without the space around it is a part of it that neither begins nor ends
/// with space; and around that part there is nothing but space.
pub proof fn law_trim(text: Seq<char>)
    ensures
        exists|a: int, b: int|
            {
                &&& 0 <= a <= b <= text.len()
                &&& trim(text) == #[trigger] text.subrange(a, b)
                &&& forall|i: int|
                    0 <= i < text.len() && !(a <= i < b) ==> white_space(#[trigger] text[i])
            },
        trim(text).len() > 0 ==> !white_space(trim(text)[0]) && !white_space(
            trim(text)[trim(text).len() - 1],
        ),
{
    let a = lemma_trim_start(text);
    let rest = trim_start(text);
    let n = lemma_trim_end(rest);
    let b = a + n;
    assert(trim(text) =~= text.subrange(a, b));
    assert forall|i: int| 0 <= i < text.len() && !(a <= i < b) implies white_space(
        #[trigger] text[i],
    ) by {
        if i >= a {
            assert(rest[i - a] == text[i]);
        }
    }
    if n > 0 {
        assert(rest[0] == text[a]);
        assert(trim(text)[0] == text[a]);
        assert(trim(text)[n - 1] == rest[n - 1]);
    }
}

} // verus!
