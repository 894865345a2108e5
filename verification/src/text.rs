//! Text primitives: what the rest of the crate says about text, it says over
//! sequences of characters, with the functions of this module.

use vstd::prelude::*;

verus! {

// ---------------------------------------------------------------------------
// White space and letter case
// ---------------------------------------------------------------------------

/// The characters with Unicode's `White_Space` property.
pub open spec fn is_white_space(c: char) -> bool {
    let n = c as u32;
    ||| 0x09 <= n <= 0x0d
    ||| n == 0x20
    ||| n == 0x85
    ||| n == 0xa0
    ||| n == 0x1680
    ||| 0x2000 <= n <= 0x200a
    ||| n == 0x2028
    ||| n == 0x2029
    ||| n == 0x202f
    ||| n == 0x205f
    ||| n == 0x3000
}

/// Tells whether a character is white space.
pub fn white_space(c: char) -> (yes: bool)
    ensures
        yes == is_white_space(c),
{
    let n: u32 = c as u32;
    (0x09 <= n && n <= 0x0d) || n == 0x20 || n == 0x85 || n == 0xa0 || n == 0x1680 || (0x2000 <= n
        && n <= 0x200a) || n == 0x2028 || n == 0x2029 || n == 0x202f || n == 0x205f || n == 0x3000
}

/// A text without its leading white space.
pub open spec fn without_leading_space(s: Seq<char>) -> Seq<char>
    decreases s.len(),
{
    if s.len() > 0 && is_white_space(s.first()) {
        without_leading_space(s.drop_first())
    } else {
        s
    }
}

/// A text without its trailing white space.
pub open spec fn without_trailing_space(s: Seq<char>) -> Seq<char>
    decreases s.len(),
{
    if s.len() > 0 && is_white_space(s.last()) {
        without_trailing_space(s.drop_last())
    } else {
        s
    }
}

/// A text without the white space at either end.
pub open spec fn trimmed(s: Seq<char>) -> Seq<char> {
    without_trailing_space(without_leading_space(s))
}

/// The lower-case form of an ASCII letter; any other character itself.
pub open spec fn ascii_lower(c: char) -> char {
    if 'A' <= c <= 'Z' {
        ((c as u32) + 32) as char
    } else {
        c
    }
}

/// A text with its ASCII letters in lower case.
pub open spec fn lowercase(s: Seq<char>) -> Seq<char> {
    Seq::new(s.len(), |i: int| ascii_lower(s[i]))
}

/// Copies a run of characters.
pub fn slice_of(s: &Vec<char>, from: usize, to: usize) -> (part: Vec<char>)
    requires
        from <= to <= s@.len(),
    ensures
        part@ == s@.subrange(from as int, to as int),
{
    let mut part: Vec<char> = Vec::new();
    let mut i: usize = from;
    while i < to
        invariant
            from <= i <= to <= s@.len(),
            part@ == s@.subrange(from as int, i as int),
        decreases to - i,
    {
        part.push(s[i]);
        assert(s@.subrange(from as int, i as int).push(s@[i as int]) =~= s@.subrange(
            from as int,
            i + 1,
        ));
        i = i + 1;
    }
    part
}

/// The bounds between which a text has no white space at either end.
pub fn trim_bounds(s: &Vec<char>) -> (bounds: (usize, usize))
    ensures
        bounds.0 <= bounds.1 <= s@.len(),
        s@.subrange(bounds.0 as int, bounds.1 as int) == trimmed(s@),
{
    let mut from: usize = 0;
    assert(s@.subrange(0, s@.len() as int) =~= s@);
    while from < s.len() && white_space(s[from])
        invariant
            from <= s@.len(),
            without_leading_space(s@) == without_leading_space(
                s@.subrange(from as int, s@.len() as int),
            ),
        decreases s@.len() - from,
    {
        assert(s@.subrange(from as int, s@.len() as int).drop_first() =~= s@.subrange(
            from + 1,
            s@.len() as int,
        ));
        from = from + 1;
    }
    let mut to: usize = s.len();
    assert(without_leading_space(s@) == s@.subrange(from as int, to as int));
    while from < to && white_space(s[to - 1])
        invariant
            from <= to <= s@.len(),
            trimmed(s@) == without_trailing_space(s@.subrange(from as int, to as int)),
        decreases to - from,
    {
        assert(s@.subrange(from as int, to as int).drop_last() =~= s@.subrange(
            from as int,
            to - 1,
        ));
        to = to - 1;
    }
    (from, to)
}

/// Removes the white space at both ends.
pub fn trim(s: &Vec<char>) -> (part: Vec<char>)
    ensures
        part@ == trimmed(s@),
{
    let (from, to) = trim_bounds(s);
    slice_of(s, from, to)
}

/// Puts the ASCII letters of a text in lower case.
pub fn to_lowercase(s: &Vec<char>) -> (lower: Vec<char>)
    ensures
        lower@ == lowercase(s@),
{
    let mut lower: Vec<char> = Vec::new();
    let mut i: usize = 0;
    while i < s.len()
        invariant
            i <= s@.len(),
            lower@.len() == i,
            forall|j: int| 0 <= j < i ==> lower@[j] == ascii_lower(#[trigger] s@[j]),
        decreases s@.len() - i,
    {
        let c: char = s[i];
        if 'A' <= c && c <= 'Z' {
            lower.push(((c as u8) + 32) as char);
        } else {
            lower.push(c);
        }
        i = i + 1;
    }
    lower
}

// ---------------------------------------------------------------------------
// Characters of a string, equality, search
// ---------------------------------------------------------------------------

/// The characters of a string, one by one.
pub fn chars_of(s: &str) -> (chars: Vec<char>)
    ensures
        chars@ == s@,
{
    let mut chars: Vec<char> = Vec::new();
    for c in it: s.chars()
        invariant
            it.seq() == s@,
            chars@ == s@.take(it.index() as int),
    {
        chars.push(c);
        assert(s@.take(it.index() as int).push(c) =~= s@.take(it.index() + 1));
    }
    assert(s@.take(s@.len() as int) =~= s@);
    chars
}

/// Tells whether `needle` stands in `s` at position `at`.
fn stands_at(s: &Vec<char>, at: usize, needle: &Vec<char>) -> (yes: bool)
    requires
        at + needle@.len() <= s@.len(),
    ensures
        yes == (s@.subrange(at as int, at + needle@.len()) == needle@),
{
    let total: usize = s.len();
    let mut i: usize = 0;
    while i < needle.len()
        invariant
            i <= needle@.len(),
            at + needle@.len() <= s@.len() == total,
            forall|j: int| 0 <= j < i ==> s@[at + j] == #[trigger] needle@[j],
        decreases needle@.len() - i,
    {
        if s[at + i] != needle[i] {
            assert(s@.subrange(at as int, at + needle@.len())[i as int] != needle@[i as int]);
            return false;
        }
        i = i + 1;
    }
    assert(s@.subrange(at as int, at + needle@.len()) =~= needle@);
    true
}

/// Tells whether two texts are the same.
pub fn same_text(a: &str, b: &str) -> (yes: bool)
    ensures
        yes == (a@ == b@),
{
    let left = chars_of(a);
    let right = chars_of(b);
    if left.len() != right.len() {
        return false;
    }
    assert(left@.subrange(0, 0int + right@.len()) =~= left@);
    stands_at(&left, 0, &right)
}

/// `s` begins with `prefix`.
pub open spec fn begins_with(s: Seq<char>, prefix: Seq<char>) -> bool {
    prefix.len() <= s.len() && s.take(prefix.len() as int) == prefix
}

/// `s` ends with `suffix`.
pub open spec fn ends_with(s: Seq<char>, suffix: Seq<char>) -> bool {
    suffix.len() <= s.len() && s.skip(s.len() - suffix.len()) == suffix
}

/// `needle` stands somewhere in `s`.
pub open spec fn has_part(s: Seq<char>, needle: Seq<char>) -> bool {
    exists|at: int|
        0 <= at && at + needle.len() <= s.len() && #[trigger] s.subrange(at, at + needle.len())
            == needle
}

/// Tells whether a text begins with another.
pub fn has_prefix(s: &str, prefix: &str) -> (yes: bool)
    ensures
        yes == begins_with(s@, prefix@),
{
    let whole = chars_of(s);
    let part = chars_of(prefix);
    if part.len() > whole.len() {
        return false;
    }
    assert(whole@.subrange(0, 0int + part@.len()) =~= whole@.take(part@.len() as int));
    stands_at(&whole, 0, &part)
}

/// What follows a prefix, if the text begins with it.
pub fn strip_prefix(s: &str, prefix: &str) -> (rest: Option<String>)
    ensures
        rest is Some <==> begins_with(s@, prefix@),
        rest is Some ==> rest->0@ == s@.skip(prefix@.len() as int),
{
    if !has_prefix(s, prefix) {
        return None;
    }
    let (from, to) = (prefix.unicode_len(), s.unicode_len());
    assert(s@.subrange(from as int, to as int) =~= s@.skip(from as int));
    Some(s.substring_char(from, to).to_string())
}

/// Tells whether a run of characters ends with another text.
pub fn has_suffix(s: &Vec<char>, suffix: &str) -> (yes: bool)
    ensures
        yes == ends_with(s@, suffix@),
{
    let part = chars_of(suffix);
    if part.len() > s.len() {
        return false;
    }
    let at: usize = s.len() - part.len();
    assert(s@.subrange(at as int, at + part@.len()) =~= s@.skip(at as int));
    stands_at(s, at, &part)
}

/// Tells whether a text holds another.
pub fn contains(s: &str, needle: &str) -> (yes: bool)
    ensures
        yes == has_part(s@, needle@),
{
    let whole = chars_of(s);
    let part = chars_of(needle);
    if part.len() > whole.len() {
        return false;
    }
    let last: usize = whole.len() - part.len();
    let mut at: usize = 0;
    loop
        invariant
            at <= last,
            last + part@.len() == whole@.len(),
            whole@ == s@,
            part@ == needle@,
            forall|j: int|
                0 <= j < at ==> #[trigger] whole@.subrange(j, j + part@.len()) != part@,
        decreases last - at,
    {
        if stands_at(&whole, at, &part) {
            return true;
        }
        if at == last {
            return false;
        }
        at = at + 1;
    }
}

// ---------------------------------------------------------------------------
// Lexicographic order by code point
// ---------------------------------------------------------------------------

/// `a` comes before `b` in the order by code point, a text before its
/// continuations.
pub open spec fn comes_before(a: Seq<char>, b: Seq<char>) -> bool
    decreases a.len(),
{
    if b.len() == 0 {
        false
    } else if a.len() == 0 {
        true
    } else if a.first() != b.first() {
        a.first() < b.first()
    } else {
        comes_before(a.drop_first(), b.drop_first())
    }
}

/// Tells whether one text comes before another.
pub fn precedes(a: &str, b: &str) -> (yes: bool)
    ensures
        yes == comes_before(a@, b@),
{
    let left = chars_of(a);
    let right = chars_of(b);
    let mut i: usize = 0;
    assert(left@.skip(0) =~= left@);
    assert(right@.skip(0) =~= right@);
    loop
        invariant
            i <= left@.len(),
            i <= right@.len(),
            left@ == a@,
            right@ == b@,
            comes_before(a@, b@) == comes_before(left@.skip(i as int), right@.skip(i as int)),
        decreases left@.len() - i,
    {
        if i == right.len() {
            return false;
        }
        if i == left.len() {
            return true;
        }
        if left[i] != right[i] {
            return left[i] < right[i];
        }
        assert(left@.skip(i as int).drop_first() =~= left@.skip(i + 1));
        assert(right@.skip(i as int).drop_first() =~= right@.skip(i + 1));
        i = i + 1;
    }
}

/// No text comes before itself.
pub proof fn lemma_order_irreflexive(a: Seq<char>)
    ensures
        !comes_before(a, a),
    decreases a.len(),
{
    if a.len() > 0 {
        lemma_order_irreflexive(a.drop_first());
    }
}

/// The order is transitive.
pub proof fn lemma_order_transitive(a: Seq<char>, b: Seq<char>, c: Seq<char>)
    requires
        comes_before(a, b),
        comes_before(b, c),
    ensures
        comes_before(a, c),
    decreases a.len(),
{
    if a.len() > 0 && a.first() == b.first() && b.first() == c.first() {
        lemma_order_transitive(a.drop_first(), b.drop_first(), c.drop_first());
    }
}

/// Of two different texts, one comes before the other.
pub proof fn lemma_order_total(a: Seq<char>, b: Seq<char>)
    ensures
        a == b || comes_before(a, b) || comes_before(b, a),
    decreases a.len(),
{
    if a.len() == 0 || b.len() == 0 {
        if a.len() == b.len() {
            assert(a =~= b);
        }
    } else if a.first() == b.first() {
        lemma_order_total(a.drop_first(), b.drop_first());
        if a.drop_first() == b.drop_first() {
            assert(a =~= seq![a.first()] + a.drop_first());
            assert(b =~= seq![b.first()] + b.drop_first());
        }
    }
}

// ---------------------------------------------------------------------------
// Decimal numbers
// ---------------------------------------------------------------------------

/// The character of a decimal digit.
pub open spec fn digit_char(d: nat) -> char {
    (48 + d) as char
}

/// A number in decimal notation, without leading zeros.
pub open spec fn decimal(n: nat) -> Seq<char>
    decreases n,
{
    if n < 10 {
        seq![digit_char(n)]
    } else {
        decimal(n / 10).push(digit_char(n % 10))
    }
}

/// A whole number in decimal notation, with a minus sign where it is negative.
pub open spec fn signed_decimal(n: int) -> Seq<char> {
    if n < 0 {
        "-"@ + decimal((-n) as nat)
    } else {
        decimal(n as nat)
    }
}

/// The text of a decimal digit.
fn digit_text(d: u128) -> (text: &'static str)
    requires
        d < 10,
    ensures
        text@ == seq![digit_char(d as nat)],
{
    proof {
        reveal_strlit("0");
        reveal_strlit("1");
        reveal_strlit("2");
        reveal_strlit("3");
        reveal_strlit("4");
        reveal_strlit("5");
        reveal_strlit("6");
        reveal_strlit("7");
        reveal_strlit("8");
        reveal_strlit("9");
    }
    let text: &'static str = match d {
        0 => "0",
        1 => "1",
        2 => "2",
        3 => "3",
        4 => "4",
        5 => "5",
        6 => "6",
        7 => "7",
        8 => "8",
        _ => "9",
    };
    assert(text@ =~= seq![digit_char(d as nat)]);
    text
}

/// Writes a number in decimal notation.
pub fn decimal_text(n: u128) -> (text: String)
    ensures
        text@ == decimal(n as nat),
    decreases n,
{
    if n < 10 {
        digit_text(n).to_string()
    } else {
        let mut text = decimal_text(n / 10);
        text.append(digit_text(n % 10));
        assert(text@ =~= decimal((n / 10) as nat).push(digit_char((n % 10) as nat)));
        text
    }
}

/// Writes a whole number in decimal notation.
pub fn signed_decimal_text(n: i64) -> (text: String)
    ensures
        text@ == signed_decimal(n as int),
{
    if n < 0 {
        let mut text = "-".to_string();
        text.append(decimal_text((-(n as i128)) as u128).as_str());
        text
    } else {
        decimal_text(n as u128)
    }
}

/// A character that stands for a decimal digit.
pub open spec fn is_digit(c: char) -> bool {
    '0' <= c <= '9'
}

/// A text made of decimal digits alone.
pub open spec fn all_digits(s: Seq<char>) -> bool {
    forall|i: int| 0 <= i < s.len() ==> is_digit(#[trigger] s[i])
}

/// The number that a run of decimal digits stands for.
pub open spec fn digits_value(s: Seq<char>) -> nat
    decreases s.len(),
{
    if s.len() == 0 {
        0
    } else {
        (digits_value(s.drop_last()) * 10 + (s.last() as u32 - 48)) as nat
    }
}

/// A text without one leading plus sign.
pub open spec fn without_plus(s: Seq<char>) -> Seq<char> {
    if s.len() > 0 && s.first() == '+' {
        s.drop_first()
    } else {
        s
    }
}

/// The unsigned 64-bit number that a text stands for: digits, after a plus sign
/// or not; `None` for any other text and for a number that is too large.
pub open spec fn number_value(s: Seq<char>) -> Option<nat> {
    let digits = without_plus(s);
    if digits.len() > 0 && all_digits(digits) && digits_value(digits) <= u64::MAX {
        Some(digits_value(digits))
    } else {
        None
    }
}

/// More digits make no smaller number.
proof fn lemma_digits_value_grows(s: Seq<char>, n: int)
    requires
        all_digits(s),
        0 <= n <= s.len(),
    ensures
        digits_value(s.take(n)) <= digits_value(s),
    decreases s.len() - n,
{
    if n == s.len() {
        assert(s.take(n) =~= s);
    } else {
        lemma_digits_value_grows(s, n + 1);
        assert(s.take(n + 1).drop_last() =~= s.take(n));
        assert(is_digit(s[n]));
    }
}

/// Reads an unsigned 64-bit number.
pub fn parse_number(s: &Vec<char>) -> (value: Option<u64>)
    ensures
        value is Some <==> number_value(s@) is Some,
        value is Some ==> value->0 == number_value(s@)->0,
{
    let from: usize = if s.len() > 0 && s[0] == '+' {
        1
    } else {
        0
    };
    let ghost digits = without_plus(s@);
    assert(digits =~= s@.skip(from as int));
    if from == s.len() {
        return None;
    }
    let mut value: u64 = 0;
    let mut i: usize = from;
    assert(digits.take(0) =~= Seq::<char>::empty());
    while i < s.len()
        invariant
            from <= i <= s@.len(),
            digits == s@.skip(from as int),
            digits == without_plus(s@),
            digits.len() > 0,
            forall|j: int| 0 <= j < i - from ==> is_digit(#[trigger] digits[j]),
            value == digits_value(digits.take(i - from)),
        decreases s@.len() - i,
    {
        let c: char = s[i];
        assert(digits[i - from] == c);
        if c < '0' || c > '9' {
            assert(!all_digits(digits));
            return None;
        }
        let digit: u64 = (c as u32 - 48) as u64;
        assert(digits.take(i - from + 1).drop_last() =~= digits.take(i - from));
        assert(digits_value(digits.take(i - from + 1)) == value * 10 + digit);
        if value > 1844674407370955161 || (value == 1844674407370955161 && digit > 5) {
            proof {
                if all_digits(digits) {
                    lemma_digits_value_grows(digits, i - from + 1);
                }
            }
            return None;
        }
        value = value * 10 + digit;
        i = i + 1;
    }
    assert(digits.take(digits.len() as int) =~= digits);
    Some(value)
}

/// Digits written in decimal notation read back as the number written.
pub proof fn lemma_decimal_reads_back(n: nat)
    ensures
        decimal(n).len() > 0,
        all_digits(decimal(n)),
        digits_value(decimal(n)) == n,
    decreases n,
{
    if n < 10 {
        assert(decimal(n).drop_last() =~= Seq::<char>::empty());
        assert(digits_value(Seq::<char>::empty()) == 0);
    } else {
        lemma_decimal_reads_back(n / 10);
        assert(decimal(n).drop_last() =~= decimal(n / 10));
    }
}

/// A written number is read as itself.
pub proof fn lemma_decimal_is_number(n: nat)
    requires
        n <= u64::MAX,
    ensures
        number_value(decimal(n)) == Some(n),
{
    lemma_decimal_reads_back(n);
    assert(is_digit(decimal(n)[0]));
}

// ---------------------------------------------------------------------------
// Composition
// ---------------------------------------------------------------------------

/// The texts of a sequence of strings.
pub open spec fn texts(strings: Seq<String>) -> Seq<Seq<char>> {
    Seq::new(strings.len(), |i: int| strings[i]@)
}

/// The text of a string that may be missing.
pub open spec fn maybe_text(string: Option<String>) -> Option<Seq<char>> {
    match string {
        Some(s) => Some(s@),
        None => None,
    }
}

/// Texts one after another, with a separator between them.
pub open spec fn joined(parts: Seq<Seq<char>>, separator: Seq<char>) -> Seq<char>
    decreases parts.len(),
{
    if parts.len() == 0 {
        Seq::empty()
    } else if parts.len() == 1 {
        parts[0]
    } else {
        joined(parts.drop_last(), separator) + separator + parts.last()
    }
}

/// Puts strings one after another, with a separator between them.
pub fn join(parts: &Vec<String>, separator: &str) -> (text: String)
    ensures
        text@ == joined(texts(parts@), separator@),
{
    let mut text = String::new();
    let mut i: usize = 0;
    assert(texts(parts@).take(0) =~= Seq::<Seq<char>>::empty());
    while i < parts.len()
        invariant
            i <= parts@.len(),
            text@ == joined(texts(parts@).take(i as int), separator@),
        decreases parts@.len() - i,
    {
        assert(texts(parts@).take(i + 1).drop_last() =~= texts(parts@).take(i as int));
        if i > 0 {
            text.append(separator);
            text.append(parts[i].as_str());
        } else {
            text.append(parts[i].as_str());
            assert(text@ =~= parts@[0]@);
        }
        i = i + 1;
    }
    assert(texts(parts@).take(parts@.len() as int) =~= texts(parts@));
    text
}

/// A text repeated a number of times.
pub open spec fn repeated(s: Seq<char>, times: nat) -> Seq<char>
    decreases times,
{
    if times == 0 {
        Seq::empty()
    } else {
        repeated(s, (times - 1) as nat) + s
    }
}

/// Repeats a text.
pub fn repeat(s: &str, times: usize) -> (text: String)
    ensures
        text@ == repeated(s@, times as nat),
{
    let mut text = String::new();
    let mut i: usize = 0;
    while i < times
        invariant
            i <= times,
            text@ == repeated(s@, i as nat),
        decreases times - i,
    {
        text.append(s);
        i = i + 1;
    }
    text
}

/// A text followed by the spaces that bring it to a width.
pub open spec fn padded_right(s: Seq<char>, width: nat) -> Seq<char> {
    s + repeated(" "@, if s.len() < width { (width - s.len()) as nat } else { 0 })
}

/// A text after the spaces that bring it to a width.
pub open spec fn padded_left(s: Seq<char>, width: nat) -> Seq<char> {
    repeated(" "@, if s.len() < width { (width - s.len()) as nat } else { 0 }) + s
}

/// Brings a text to a width with spaces behind it.
pub fn pad_right(s: &str, width: usize) -> (text: String)
    ensures
        text@ == padded_right(s@, width as nat),
{
    let length: usize = chars_of(s).len();
    let mut text = s.to_string();
    text.append(repeat(" ", if length < width { width - length } else { 0 }).as_str());
    text
}

/// Brings a text to a width with spaces before it.
pub fn pad_left(s: &str, width: usize) -> (text: String)
    ensures
        text@ == padded_left(s@, width as nat),
{
    let length: usize = chars_of(s).len();
    let mut text = repeat(" ", if length < width { width - length } else { 0 });
    text.append(s);
    text
}

// ---------------------------------------------------------------------------
// Laws
// ---------------------------------------------------------------------------

/// All characters are white space.
pub open spec fn all_white_space(s: Seq<char>) -> bool {
    forall|i: int| 0 <= i < s.len() ==> is_white_space(#[trigger] s[i])
}

proof fn lemma_leading_space(space: Seq<char>, rest: Seq<char>)
    requires
        all_white_space(space),
        rest.len() == 0 || !is_white_space(rest[0]),
    ensures
        without_leading_space(space + rest) == rest,
    decreases space.len(),
{
    if space.len() == 0 {
        assert(space + rest =~= rest);
    } else {
        let fewer = space.drop_first();
        assert forall|i: int| 0 <= i < fewer.len() implies is_white_space(#[trigger] fewer[i]) by {
            assert(fewer[i] == space[i + 1]);
        }
        assert((space + rest).first() == space[0]);
        assert((space + rest).drop_first() =~= fewer + rest);
        lemma_leading_space(fewer, rest);
    }
}

proof fn lemma_trailing_space(rest: Seq<char>, space: Seq<char>)
    requires
        all_white_space(space),
        rest.len() == 0 || !is_white_space(rest.last()),
    ensures
        without_trailing_space(rest + space) == rest,
    decreases space.len(),
{
    if space.len() == 0 {
        assert(rest + space =~= rest);
    } else {
        let fewer = space.drop_last();
        assert forall|i: int| 0 <= i < fewer.len() implies is_white_space(#[trigger] fewer[i]) by {
            assert(fewer[i] == space[i]);
        }
        assert((rest + space).last() == space[space.len() - 1]);
        assert((rest + space).drop_last() =~= rest + fewer);
        lemma_trailing_space(rest, fewer);
    }
}

/// White space around a text is taken away, and nothing of the text is.
pub proof fn law_trimmed(before: Seq<char>, value: Seq<char>, after: Seq<char>)
    requires
        all_white_space(before),
        all_white_space(after),
        value.len() > 0,
        !is_white_space(value[0]),
        !is_white_space(value.last()),
    ensures
        trimmed(before + value + after) == value,
{
    assert(before + value + after =~= before + (value + after));
    assert((value + after)[0] == value[0]);
    lemma_leading_space(before, value + after);
    lemma_trailing_space(value, after);
}

/// Of white space alone nothing is left.
pub proof fn law_trimmed_space(space: Seq<char>)
    requires
        all_white_space(space),
    ensures
        trimmed(space) == Seq::<char>::empty(),
{
    assert(space + Seq::<char>::empty() =~= space);
    lemma_leading_space(space, Seq::empty());
}

/// ASCII capitals become small letters, and every other character stays; so texts in small
/// letters stay as they are.
pub proof fn law_lowercase(s: Seq<char>)
    ensures
        lowercase(s).len() == s.len(),
        forall|i: int|
            0 <= i < s.len() ==> #[trigger] lowercase(s)[i] == if 'A' <= s[i] <= 'Z' {
                ((s[i] as int) - ('A' as int) + ('a' as int)) as char
            } else {
                s[i]
            },
{
}

/// Joining puts the separator between neighbours and nowhere else.
pub proof fn law_joined(parts: Seq<Seq<char>>, part: Seq<char>, separator: Seq<char>)
    ensures
        joined(Seq::empty(), separator) == Seq::<char>::empty(),
        joined(seq![part], separator) == part,
        parts.len() > 0 ==> joined(parts.push(part), separator) == joined(parts, separator) + (
        separator + part),
{
    assert(parts.push(part).drop_last() =~= parts);
    if parts.len() > 0 {
        assert(joined(parts.push(part), separator) =~= joined(parts, separator) + (separator
            + part));
    }
}

/// A padded text has the width, or its own length where that is more; it begins or ends with
/// the text, and the rest is spaces.
pub proof fn law_padding(s: Seq<char>, width: nat)
    ensures
        padded_right(s, width).len() == (if s.len() < width { width } else { s.len() }),
        padded_left(s, width).len() == (if s.len() < width { width } else { s.len() }),
        padded_right(s, width).take(s.len() as int) == s,
        padded_left(s, width).skip(padded_left(s, width).len() - s.len()) == s,
        forall|i: int|
            s.len() <= i < padded_right(s, width).len() ==> #[trigger] padded_right(s, width)[i]
                == ' ',
        forall|i: int|
            0 <= i < padded_left(s, width).len() - s.len() ==> #[trigger] padded_left(s, width)[i]
                == ' ',
{
    let spaces: nat = if s.len() < width {
        (width - s.len()) as nat
    } else {
        0
    };
    lemma_spaces(spaces);
    assert(padded_right(s, width).take(s.len() as int) =~= s);
    assert(padded_left(s, width).skip(padded_left(s, width).len() - s.len()) =~= s);
}

proof fn lemma_spaces(count: nat)
    ensures
        repeated(" "@, count).len() == count,
        forall|i: int| 0 <= i < count ==> #[trigger] repeated(" "@, count)[i] == ' ',
    decreases count,
{
    reveal_strlit(" ");
    if count > 0 {
        lemma_spaces((count - 1) as nat);
    }
}

/// The first difference decides the order, and a text comes before its continuations.
pub proof fn law_first_difference_decides(
    common: Seq<char>,
    a: char,
    b: char,
    rest: Seq<char>,
    other: Seq<char>,
)
    ensures
        a < b ==> comes_before(common.push(a) + rest, common.push(b) + other),
        b < a ==> !comes_before(common.push(a) + rest, common.push(b) + other),
        comes_before(common, common.push(a) + rest),
        !comes_before(common.push(a) + rest, common),
    decreases common.len(),
{
    let (left, right) = (common.push(a) + rest, common.push(b) + other);
    if common.len() > 0 {
        let fewer = common.drop_first();
        assert(left.drop_first() =~= fewer.push(a) + rest);
        assert(right.drop_first() =~= fewer.push(b) + other);
        assert(left.first() == common.first() && right.first() == common.first());
        law_first_difference_decides(fewer, a, b, rest, other);
    } else {
        assert(left.first() == a && right.first() == b);
    }
}

/// A text holds another just where it is that other with something before and behind it.
pub proof fn law_parts_stand_somewhere(before: Seq<char>, part: Seq<char>, after: Seq<char>)
    ensures
        has_part(before + part + after, part),
        begins_with(part + after, part),
        ends_with(before + part, part),
{
    let all = before + part + after;
    let at = before.len() as int;
    assert(all.subrange(at, at + part.len()) =~= part);
    assert((part + after).take(part.len() as int) =~= part);
    assert((before + part).skip(before.len() as int) =~= part);
}

/// What a text holds can be parted from it.
pub proof fn law_held_parts_can_be_parted(s: Seq<char>, part: Seq<char>)
    requires
        has_part(s, part),
    ensures
        exists|before: Seq<char>, after: Seq<char>| s == #[trigger] (before + part + after),
{
    let at = choose|at: int|
        0 <= at && at + part.len() <= s.len() && #[trigger] s.subrange(at, at + part.len())
            == part;
    let (before, after) = (s.take(at), s.skip(at + part.len()));
    assert(s =~= before + part + after);
}

/// Numbers are written without leading zeros: one digit below ten, and else the digits of the
/// tenth part and one more.
pub proof fn law_decimal_notation(n: nat, digit: nat)
    requires
        digit < 10,
    ensures
        decimal(digit) == seq![(48 + digit) as char],
        n > 0 ==> decimal(10 * n + digit) == decimal(n).push((48 + digit) as char),
        n > 0 ==> decimal(n)[0] != '0',
        signed_decimal(n as int) == decimal(n),
        n > 0 ==> signed_decimal(-(n as int)) == seq!['-'] + decimal(n),
    decreases n,
{
    reveal_strlit("-");
    assert("-"@ =~= seq!['-']);
    assert(decimal(digit) =~= seq![(48 + digit) as char]);
    assert((10 * n + digit) / 10 == n && (10 * n + digit) % 10 == digit);
    if n >= 10 {
        law_decimal_notation(n / 10, n % 10);
        assert(decimal(n / 10).len() > 0) by {
            lemma_decimal_reads_back(n / 10);
        }
    }
}

/// A text of digits, perhaps behind a plus sign, is read as the number that it writes, if
/// that fits in 64 bits; nothing else is a number.
pub proof fn law_numbers_are_read(digits: Seq<char>, s: Seq<char>)
    ensures
        all_digits(digits) && digits.len() > 0 && digits_value(digits) <= u64::MAX ==> number_value(
            digits,
        ) == Some(digits_value(digits)) && number_value(seq!['+'] + digits) == Some(
            digits_value(digits),
        ),
        all_digits(digits) && digits_value(digits) > u64::MAX ==> number_value(digits) is None,
        number_value(s) is Some ==> (all_digits(s) && s.len() > 0) || (s.len() > 1 && s[0] == '+'
            && all_digits(s.skip(1))),
{
    if digits.len() > 0 && all_digits(digits) {
        assert(is_digit(digits[0]));
    }
    assert((seq!['+'] + digits).skip(1) =~= digits);
    assert((seq!['+'] + digits).drop_first() =~= digits);
    if s.len() > 0 {
        assert(s.skip(1) =~= s.drop_first());
    }
}

/// Each digit counts ten times as much as it would without the one behind it.
pub proof fn law_digits_are_decimal(digits: Seq<char>, digit: nat)
    requires
        digit < 10,
    ensures
        digits_value(Seq::empty()) == 0,
        digits_value(digits.push((48 + digit) as char)) == 10 * digits_value(digits) + digit,
{
    assert(digits.push((48 + digit) as char).drop_last() =~= digits);
}

/// Repeating puts copies one after another.
pub proof fn law_repeated(s: Seq<char>, times: nat)
    ensures
        repeated(s, 0) == Seq::<char>::empty(),
        repeated(s, times + 1) == repeated(s, times) + s,
{
}

proof fn lemma_lower_keeps_space(c: char)
    ensures
        is_white_space(ascii_lower(c)) == is_white_space(c),
        ascii_lower(ascii_lower(c)) == ascii_lower(c),
{
}

proof fn lemma_leading_keeps_case(s: Seq<char>)
    ensures
        without_leading_space(lowercase(s)) == lowercase(without_leading_space(s)),
    decreases s.len(),
{
    if s.len() > 0 {
        lemma_lower_keeps_space(s.first());
        assert(lowercase(s).drop_first() =~= lowercase(s.drop_first()));
        lemma_leading_keeps_case(s.drop_first());
    }
}

proof fn lemma_trailing_keeps_case(s: Seq<char>)
    ensures
        without_trailing_space(lowercase(s)) == lowercase(without_trailing_space(s)),
    decreases s.len(),
{
    if s.len() > 0 {
        lemma_lower_keeps_space(s.last());
        assert(lowercase(s).drop_last() =~= lowercase(s.drop_last()));
        lemma_trailing_keeps_case(s.drop_last());
    }
}

/// Whether letters are made small before or after white space is taken away does not matter,
/// and making them small twice is making them small once.
pub proof fn law_trimming_keeps_case(s: Seq<char>)
    ensures
        trimmed(lowercase(s)) == lowercase(trimmed(s)),
        lowercase(lowercase(s)) == lowercase(s),
{
    lemma_leading_keeps_case(s);
    lemma_trailing_keeps_case(without_leading_space(s));
    assert forall|i: int| 0 <= i < s.len() implies ascii_lower(ascii_lower(#[trigger] s[i]))
        == ascii_lower(s[i]) by {
        lemma_lower_keeps_space(s[i]);
    }
    assert(lowercase(lowercase(s)) =~= lowercase(s));
}

proof fn lemma_leading_ends(s: Seq<char>)
    ensures
        without_leading_space(s).len() == 0 || !is_white_space(without_leading_space(s)[0]),
    decreases s.len(),
{
    if s.len() > 0 && is_white_space(s.first()) {
        lemma_leading_ends(s.drop_first());
    }
}

proof fn lemma_trailing_ends(s: Seq<char>)
    ensures
        without_trailing_space(s).len() == 0 || !is_white_space(without_trailing_space(s).last()),
        without_trailing_space(s).len() <= s.len(),
        without_trailing_space(s).len() > 0 ==> without_trailing_space(s)[0] == s[0],
    decreases s.len(),
{
    if s.len() > 0 && is_white_space(s.last()) {
        lemma_trailing_ends(s.drop_last());
    }
}

/// A trimmed text has no white space at either end, so trimming it again changes nothing.
pub proof fn law_trimming_twice(s: Seq<char>)
    ensures
        trimmed(s).len() > 0 ==> !is_white_space(trimmed(s)[0]) && !is_white_space(
            trimmed(s).last(),
        ),
        trimmed(trimmed(s)) == trimmed(s),
{
    lemma_leading_ends(s);
    lemma_trailing_ends(without_leading_space(s));
}

/// Strings are taken as their texts, and none is left out.
pub proof fn law_strings_are_taken_in_full(strings: Seq<String>, string: Option<String>)
    ensures
        texts(strings).len() == strings.len(),
        forall|i: int| 0 <= i < strings.len() ==> #[trigger] texts(strings)[i] == strings[i]@,
        maybe_text(string) is Some <==> string is Some,
        string is Some ==> maybe_text(string)->0 == string->0@,
{
}

} // verus!
