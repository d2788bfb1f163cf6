//! Building the short texts the stack reports, one piece at a time.

use vstd::prelude::*;
use vstd::string::*;

verus! {

/// The texts of a list.
pub open spec fn text_views(items: Seq<String>) -> Seq<Seq<char>> {
    Seq::new(items.len(), |i: int| items[i]@)
}

/// `String::push`: the string keeps what it held and gains one character at
/// its end.
pub assume_specification[ String::push ](s: &mut String, c: char)
    ensures
        final(s)@ == old(s)@.push(c),
;

/// `std::str::from_utf8`: a slice that is valid UTF-8 becomes the characters it
/// encodes, and any other slice is refused.
#[verifier::external_body]
pub(crate) fn decode_text(bytes: &[u8]) -> (text: Option<String>)
    ensures
        text is Some <==> vstd::utf8::valid_utf8(bytes@),
        text matches Some(t) ==> t@ == vstd::utf8::decode_utf8(bytes@),
{
    match std::str::from_utf8(bytes) {
        Ok(text) => Some(text.to_owned()),
        Err(_) => None,
    }
}

/// What `str::to_lowercase` returns: the lower-case form of a text, by the rules
/// of Unicode.
pub uninterp spec fn lowercase(text: Seq<char>) -> Seq<char>;

/// `text` with its ASCII letters in lower case.
pub open spec fn ascii_lower(text: Seq<char>) -> Seq<char> {
    Seq::new(text.len(), |i: int| ascii_lower_char(text[i]))
}

/// The lower-case form of an ASCII letter; any other character stays.
pub open spec fn ascii_lower_char(c: char) -> char {
    if 'A' <= c <= 'Z' {
        (c as u32 + 32) as char
    } else {
        c
    }
}

/// Whether a text holds ASCII characters only.
pub open spec fn is_plain(text: Seq<char>) -> bool {
    forall|i: int| 0 <= i < text.len() ==> (#[trigger] text[i]) as u32 <= 127
}

/// `str::to_lowercase`: the lower-case form of the text. Of a text in ASCII the
/// letters A to Z become a to z and nothing else changes; what becomes of other
/// letters only has a name here.
#[verifier::external_body]
pub(crate) fn to_lower(text: &str) -> (lower: String)
    ensures
        lower@ == lowercase(text@),
        is_plain(text@) ==> lower@ == ascii_lower(text@),
{
    text.to_lowercase()
}

/// What `format!` writes for a text with `{:?}`: the text in quotation marks,
/// with some characters escaped.
pub uninterp spec fn quoted(text: Seq<char>) -> Seq<char>;

/// `format!` with `{:?}` on a text. Which characters are escaped, and how, only
/// has a name here.
#[verifier::external_body]
pub(crate) fn quote(text: &str) -> (out: String)
    ensures
        out@ == quoted(text@),
{
    format!("{:?}", text)
}

/// Whether `part` occurs in `text`.
pub open spec fn holds(text: Seq<char>, part: Seq<char>) -> bool {
    exists|i: int| #[trigger] occurs_at(text, part, i)
}

/// Whether `part` occurs in `text` from place `i` on.
pub open spec fn occurs_at(text: Seq<char>, part: Seq<char>, i: int) -> bool {
    0 <= i && i + part.len() <= text.len() && text.subrange(i, i + part.len()) == part
}

/// Whether `part` occurs in `text`.
pub fn holds_text(text: &str, part: &str) -> (yes: bool)
    ensures
        yes == holds(text@, part@),
{
    let long = to_chars(text);
    let short = to_chars(part);
    if short.len() > long.len() {
        assert forall|i: int| !#[trigger] occurs_at(text@, part@, i) by {}
        return false;
    }
    let whole = long.len();
    let last = whole - short.len();
    let mut i: usize = 0;
    while i <= last
        invariant
            whole == long@.len(),
            long@ == text@,
            short@ == part@,
            last == long@.len() - short@.len(),
            i <= last + 1,
            last < usize::MAX || i <= last,
            forall|j: int| 0 <= j < i ==> !#[trigger] occurs_at(text@, part@, j),
        decreases last + 1 - i,
    {
        if same_chars(vstd::slice::slice_subrange(&long, i, i + short.len()), &short) {
            assert(occurs_at(text@, part@, i as int));
            return true;
        }
        assert(!occurs_at(text@, part@, i as int));
        if i == last {
            assert forall|j: int| !#[trigger] occurs_at(text@, part@, j) by {
                if j > last {
                    assert(j + part@.len() > text@.len());
                }
            }
            return false;
        }
        i = i + 1;
    }
    false
}

/// The character for one digit of a number in base sixteen or less.
pub open spec fn digit(value: nat) -> char {
    if value == 0 { '0' }
    else if value == 1 { '1' }
    else if value == 2 { '2' }
    else if value == 3 { '3' }
    else if value == 4 { '4' }
    else if value == 5 { '5' }
    else if value == 6 { '6' }
    else if value == 7 { '7' }
    else if value == 8 { '8' }
    else if value == 9 { '9' }
    else if value == 10 { 'a' }
    else if value == 11 { 'b' }
    else if value == 12 { 'c' }
    else if value == 13 { 'd' }
    else if value == 14 { 'e' }
    else { 'f' }
}

/// The upper-case form of `digit`.
pub open spec fn upper_digit(value: nat) -> char {
    if value == 10 { 'A' }
    else if value == 11 { 'B' }
    else if value == 12 { 'C' }
    else if value == 13 { 'D' }
    else if value == 14 { 'E' }
    else if value == 15 { 'F' }
    else { digit(value) }
}

/// A number written in base ten, without leading zeros.
pub open spec fn decimal(value: nat) -> Seq<char>
    decreases value,
{
    if value < 10 {
        seq![digit(value)]
    } else {
        decimal(value / 10).push(digit(value % 10))
    }
}

/// A whole number in base ten, with a minus sign when it is negative.
pub open spec fn signed_decimal(value: int) -> Seq<char> {
    if value < 0 {
        seq!['-'] + decimal((-value) as nat)
    } else {
        decimal(value as nat)
    }
}

/// The low `places` hexadecimal digits of `value`, lower case, zero padded.
pub open spec fn hex(value: nat, places: nat) -> Seq<char>
    decreases places,
{
    if places == 0 {
        Seq::empty()
    } else {
        hex(value / 16, (places - 1) as nat).push(digit(value % 16))
    }
}

/// The low `places` hexadecimal digits of `value`, upper case, zero padded.
pub open spec fn upper_hex(value: nat, places: nat) -> Seq<char>
    decreases places,
{
    if places == 0 {
        Seq::empty()
    } else {
        upper_hex(value / 16, (places - 1) as nat).push(upper_digit(value % 16))
    }
}

/// The character for one digit, lower case.
pub fn digit_char(value: u64) -> (c: char)
    requires
        value < 16,
    ensures
        c == digit(value as nat),
{
    if value == 0 { '0' }
    else if value == 1 { '1' }
    else if value == 2 { '2' }
    else if value == 3 { '3' }
    else if value == 4 { '4' }
    else if value == 5 { '5' }
    else if value == 6 { '6' }
    else if value == 7 { '7' }
    else if value == 8 { '8' }
    else if value == 9 { '9' }
    else if value == 10 { 'a' }
    else if value == 11 { 'b' }
    else if value == 12 { 'c' }
    else if value == 13 { 'd' }
    else if value == 14 { 'e' }
    else { 'f' }
}

/// The character for one digit, upper case.
pub fn upper_digit_char(value: u64) -> (c: char)
    requires
        value < 16,
    ensures
        c == upper_digit(value as nat),
{
    if value == 10 { 'A' }
    else if value == 11 { 'B' }
    else if value == 12 { 'C' }
    else if value == 13 { 'D' }
    else if value == 14 { 'E' }
    else if value == 15 { 'F' }
    else { digit_char(value) }
}

/// Appends a number in base ten.
pub fn push_decimal(out: &mut String, value: u64)
    ensures
        final(out)@ == old(out)@ + decimal(value as nat),
    decreases value,
{
    if value >= 10 {
        push_decimal(out, value / 10);
    }
    out.push(digit_char(value % 10));
    assert(out@ =~= old(out)@ + decimal(value as nat));
}

/// Appends a whole number in base ten, with its sign when negative.
pub fn push_signed(out: &mut String, value: i64)
    requires
        value > i64::MIN,
    ensures
        final(out)@ == old(out)@ + signed_decimal(value as int),
{
    if value < 0 {
        out.push('-');
        push_decimal(out, (0 - value) as u64);
    } else {
        push_decimal(out, value as u64);
    }
    assert(out@ =~= old(out)@ + signed_decimal(value as int));
}

/// Appends the low `places` hexadecimal digits of a number, lower case.
pub fn push_hex(out: &mut String, value: u64, places: u8)
    ensures
        final(out)@ == old(out)@ + hex(value as nat, places as nat),
    decreases places,
{
    if places > 0 {
        push_hex(out, value / 16, places - 1);
        out.push(digit_char(value % 16));
    }
    assert(out@ =~= old(out)@ + hex(value as nat, places as nat));
}

/// Appends the low `places` hexadecimal digits of a number, upper case.
pub fn push_upper_hex(out: &mut String, value: u64, places: u8)
    ensures
        final(out)@ == old(out)@ + upper_hex(value as nat, places as nat),
    decreases places,
{
    if places > 0 {
        push_upper_hex(out, value / 16, places - 1);
        out.push(upper_digit_char(value % 16));
    }
    assert(out@ =~= old(out)@ + upper_hex(value as nat, places as nat));
}

/// `text` cut at every `mark`: one piece more than there are marks.
pub open spec fn split_on(text: Seq<char>, mark: char) -> Seq<Seq<char>>
    decreases text.len(),
{
    if text.len() == 0 {
        seq![Seq::empty()]
    } else {
        let before = split_on(text.drop_last(), mark);
        if text.last() == mark {
            before.push(Seq::empty())
        } else {
            before.drop_last().push(before.last().push(text.last()))
        }
    }
}

/// What the character vectors in `list` hold.
pub open spec fn char_views(list: Seq<Vec<char>>) -> Seq<Seq<char>> {
    Seq::new(list.len(), |i: int| list[i]@)
}

/// The value of a digit in a base up to sixteen; sixteen for anything else.
pub open spec fn digit_value(c: char) -> nat {
    if '0' <= c && c <= '9' {
        (c as int - '0' as int) as nat
    } else if 'a' <= c && c <= 'f' {
        (c as int - 'a' as int + 10) as nat
    } else if 'A' <= c && c <= 'F' {
        (c as int - 'A' as int + 10) as nat
    } else {
        16
    }
}

/// Whether every character is a digit in `base`.
pub open spec fn all_digits(text: Seq<char>, base: nat) -> bool {
    forall|i: int| 0 <= i < text.len() ==> digit_value(#[trigger] text[i]) < base
}

/// The number that a run of digits stands for.
pub open spec fn digits_value(text: Seq<char>, base: nat) -> nat
    decreases text.len(),
{
    if text.len() == 0 {
        0
    } else {
        digits_value(text.drop_last(), base) * base + digit_value(text.last())
    }
}

/// `text` without the plus sign a number may start with.
pub open spec fn unsigned_part(text: Seq<char>) -> Seq<char> {
    if text.len() > 0 && text[0] == '+' {
        text.skip(1)
    } else {
        text
    }
}

/// The number `text` writes in `base`, if it is one and at most `max`. A plus
/// sign may come first; there has to be at least one digit.
pub open spec fn number(text: Seq<char>, base: nat, max: nat) -> Option<nat> {
    let digits = unsigned_part(text);
    if digits.len() > 0 && all_digits(digits, base) && digits_value(digits, base) <= max {
        Some(digits_value(digits, base))
    } else {
        None
    }
}

/// The characters of a text.
pub fn to_chars(text: &str) -> (out: Vec<char>)
    ensures
        out@ == text@,
{
    let mut out: Vec<char> = Vec::new();
    for c in it: text.chars()
        invariant
            it.seq() == text@,
            out@ == text@.take(it.index() as int),
    {
        out.push(c);
        assert(out@ =~= text@.take(it.index() + 1));
    }
    assert(out@ =~= text@);
    out
}

/// The text made of some characters.
pub fn from_chars(chars: &[char]) -> (out: String)
    ensures
        out@ == chars@,
{
    let mut out = String::new();
    let mut i: usize = 0;
    while i < chars.len()
        invariant
            i <= chars@.len(),
            out@ == chars@.take(i as int),
        decreases chars@.len() - i,
    {
        out.push(chars[i]);
        i = i + 1;
        assert(out@ =~= chars@.take(i as int));
    }
    assert(out@ =~= chars@);
    out
}

/// Cuts a text at every `mark`.
pub fn split_chars(text: &[char], mark: char) -> (parts: Vec<Vec<char>>)
    ensures
        char_views(parts@) == split_on(text@, mark),
{
    let mut parts: Vec<Vec<char>> = Vec::new();
    let mut current: Vec<char> = Vec::new();
    let mut i: usize = 0;
    assert(text@.take(0) =~= Seq::<char>::empty());
    assert(char_views(parts@).push(current@) =~= split_on(text@.take(0), mark));
    while i < text.len()
        invariant
            i <= text@.len(),
            char_views(parts@).push(current@) == split_on(text@.take(i as int), mark),
        decreases text@.len() - i,
    {
        let c = text[i];
        let ghost before = char_views(parts@).push(current@);
        proof {
            assert(text@.take(i + 1).drop_last() =~= text@.take(i as int));
            assert(before.drop_last() =~= char_views(parts@));
        }
        if c == mark {
            let mut fresh: Vec<char> = Vec::new();
            std::mem::swap(&mut current, &mut fresh);
            parts.push(fresh);
            assert(char_views(parts@) =~= before);
        } else {
            current.push(c);
        }
        i = i + 1;
        assert(char_views(parts@).push(current@) =~= split_on(text@.take(i as int), mark));
    }
    parts.push(current);
    assert(text@.take(i as int) =~= text@);
    assert(char_views(parts@) =~= split_on(text@, mark));
    parts
}

/// The value of a digit, sixteen for anything that is none.
pub fn digit_of(c: char) -> (value: u64)
    ensures
        value == digit_value(c),
        value <= 16,
{
    if '0' <= c && c <= '9' {
        c as u64 - '0' as u64
    } else if 'a' <= c && c <= 'f' {
        c as u64 - 'a' as u64 + 10
    } else if 'A' <= c && c <= 'F' {
        c as u64 - 'A' as u64 + 10
    } else {
        16
    }
}

proof fn lemma_digits_value_grows(text: Seq<char>, base: nat, upto: int)
    requires
        base >= 1,
        0 <= upto <= text.len(),
    ensures
        digits_value(text.take(upto), base) <= digits_value(text, base),
    decreases text.len() - upto,
{
    if upto < text.len() {
        lemma_digits_value_grows(text, base, upto + 1);
        let longer = text.take(upto + 1);
        assert(longer.drop_last() =~= text.take(upto));
        let inner = digits_value(text.take(upto), base);
        assert(inner * base >= inner) by (nonlinear_arith)
            requires
                base >= 1,
        ;
    } else {
        assert(text.take(upto) =~= text);
    }
}

/// Reads a number in `base`, with an optional plus sign, that is at most `max`.
pub fn parse_number(text: &[char], base: u64, max: u64) -> (value: Option<u64>)
    requires
        2 <= base <= 16,
        max <= 0xFFFF_FFFF_FFFF,
    ensures
        value is Some <==> number(text@, base as nat, max as nat) is Some,
        value matches Some(v) ==> number(text@, base as nat, max as nat) == Some(v as nat),
{
    let start: usize = if text.len() > 0 && text[0] == '+' { 1 } else { 0 };
    let ghost digits = unsigned_part(text@);
    assert(text@.skip(0) =~= text@);
    assert(digits == text@.skip(start as int));
    if start == text.len() {
        return None;
    }
    let mut value: u64 = 0;
    let mut i: usize = start;
    assert(digits.take(0) =~= Seq::<char>::empty());
    while i < text.len()
        invariant
            start <= i <= text@.len(),
            2 <= base <= 16,
            max <= 0xFFFF_FFFF_FFFF,
            digits == unsigned_part(text@),
            digits == text@.skip(start as int),
            all_digits(digits.take(i - start), base as nat),
            value == digits_value(digits.take(i - start), base as nat),
            value <= max,
        decreases text@.len() - i,
    {
        let d = digit_of(text[i]);
        proof {
            assert(text@[i as int] == digits[i - start]);
            assert(digits.take(i - start + 1).drop_last() =~= digits.take(i - start));
            assert(digits.take(i - start + 1).last() == digits[i - start]);
        }
        if d >= base {
            return None;
        }
        assert(value * base <= 0xFFFF_FFFF_FFFF * 16) by (nonlinear_arith)
            requires
                value <= 0xFFFF_FFFF_FFFF,
                base <= 16,
        ;
        value = value * base + d;
        i = i + 1;
        assert(value == digits_value(digits.take(i - start), base as nat));
        if value > max {
            proof {
                lemma_digits_value_grows(digits, base as nat, i - start);
            }
            return None;
        }
        assert forall|j: int| 0 <= j < i - start implies digit_value(
            #[trigger] digits.take(i - start)[j],
        ) < base by {
            if j < i - start - 1 {
                assert(digits.take(i - start - 1)[j] == digits.take(i - start)[j]);
            }
        }
    }
    assert(digits.take(i - start) =~= digits);
    Some(value)
}

/// Cutting at the last mark gives the part after it as the last piece.
pub proof fn lemma_split_last(before: Seq<char>, mark: char, after: Seq<char>)
    requires
        !after.contains(mark),
    ensures
        split_on(before.push(mark) + after, mark) == split_on(before, mark).push(after),
    decreases after.len(),
{
    let whole = before.push(mark) + after;
    if after.len() == 0 {
        assert(whole =~= before.push(mark));
        assert(whole.drop_last() =~= before);
        assert(after =~= Seq::<char>::empty());
    } else {
        let shorter = after.drop_last();
        assert forall|c: char| shorter.contains(c) implies after.contains(c) by {
            let j = choose|j: int| 0 <= j < shorter.len() && shorter[j] == c;
            assert(after[j] == c);
        }
        lemma_split_last(before, mark, shorter);
        assert(whole.drop_last() =~= before.push(mark) + shorter);
        assert(whole.last() == after.last());
        assert(after.contains(after.last()));
        assert(shorter.push(after.last()) =~= after);
        let parts = split_on(before, mark).push(shorter);
        assert(parts.drop_last() =~= split_on(before, mark));
    }
}

/// A text without the mark is one piece.
pub proof fn lemma_split_whole(text: Seq<char>, mark: char)
    requires
        !text.contains(mark),
    ensures
        split_on(text, mark) == seq![text],
    decreases text.len(),
{
    if text.len() > 0 {
        let shorter = text.drop_last();
        assert forall|c: char| shorter.contains(c) implies text.contains(c) by {
            let j = choose|j: int| 0 <= j < shorter.len() && shorter[j] == c;
            assert(text[j] == c);
        }
        lemma_split_whole(shorter, mark);
        assert(text.contains(text.last()));
        assert(seq![shorter].drop_last() =~= Seq::<Seq<char>>::empty());
        assert(shorter.push(text.last()) =~= text);
        assert(split_on(text, mark) =~= seq![text]);
    } else {
        assert(text =~= Seq::<char>::empty());
    }
}

// ---- White space and case ----

/// The characters that Unicode counts as white space.
pub open spec fn is_space(c: char) -> bool {
    let code = c as int;
    ||| 0x09 <= code <= 0x0D
    ||| code == 0x20
    ||| code == 0x85
    ||| code == 0xA0
    ||| code == 0x1680
    ||| 0x2000 <= code <= 0x200A
    ||| code == 0x2028
    ||| code == 0x2029
    ||| code == 0x202F
    ||| code == 0x205F
    ||| code == 0x3000
}

/// `text` without white space at its start.
pub open spec fn trim_start(text: Seq<char>) -> Seq<char>
    decreases text.len(),
{
    if text.len() > 0 && is_space(text[0]) {
        trim_start(text.skip(1))
    } else {
        text
    }
}

/// `text` without white space at its end.
pub open spec fn trim_end(text: Seq<char>) -> Seq<char>
    decreases text.len(),
{
    if text.len() > 0 && is_space(text.last()) {
        trim_end(text.drop_last())
    } else {
        text
    }
}

/// `text` without white space at either end.
pub open spec fn trim(text: Seq<char>) -> Seq<char> {
    trim_end(trim_start(text))
}

/// Whether `text` has no white space at either end.
pub open spec fn is_trimmed(text: Seq<char>) -> bool {
    text.len() > 0 ==> !is_space(text[0]) && !is_space(text.last())
}

/// The upper-case form of an ASCII letter; any other character is kept.
pub open spec fn upper_char(c: char) -> char {
    if 'a' <= c && c <= 'z' {
        (c as int - 32) as char
    } else {
        c
    }
}

/// `text` with its ASCII letters in upper case.
pub open spec fn upper(text: Seq<char>) -> Seq<char> {
    Seq::new(text.len(), |i: int| upper_char(text[i]))
}

/// Whether `a` comes before `b` in the order of their characters.
pub open spec fn before(a: Seq<char>, b: Seq<char>) -> bool
    decreases a.len(),
{
    if b.len() == 0 {
        false
    } else if a.len() == 0 {
        true
    } else if a[0] == b[0] {
        before(a.skip(1), b.skip(1))
    } else {
        a[0] < b[0]
    }
}

fn space(c: char) -> (yes: bool)
    ensures
        yes == is_space(c),
{
    let code = c as u32;
    (code >= 0x09 && code <= 0x0D) || code == 0x20 || code == 0x85 || code == 0xA0 || code == 0x1680
        || (code >= 0x2000 && code <= 0x200A) || code == 0x2028 || code == 0x2029 || code == 0x202F
        || code == 0x205F || code == 0x3000
}

/// Leaves out the white space at both ends.
pub fn trim_chars(text: &[char]) -> (trimmed: &[char])
    ensures
        trimmed@ == trim(text@),
{
    let mut from: usize = 0;
    assert(text@.skip(0) =~= text@);
    while from < text.len() && space(text[from])
        invariant
            from <= text@.len(),
            trim_start(text@.skip(from as int)) == trim_start(text@),
        decreases text@.len() - from,
    {
        assert(text@.skip(from as int).skip(1) =~= text@.skip(from + 1));
        from = from + 1;
    }
    let ghost rest = text@.skip(from as int);
    assert(rest == trim_start(text@));
    let mut to: usize = text.len();
    assert(text@.subrange(from as int, to as int) =~= rest);
    while to > from && space(text[to - 1])
        invariant
            from <= to <= text@.len(),
            trim_end(text@.subrange(from as int, to as int)) == trim_end(rest),
        decreases to,
    {
        assert(text@.subrange(from as int, to as int).drop_last() =~= text@.subrange(
            from as int,
            to - 1,
        ));
        to = to - 1;
    }
    vstd::slice::slice_subrange(text, from, to)
}

/// The upper-case form of ASCII letters.
pub fn upper_chars(text: &[char]) -> (out: Vec<char>)
    ensures
        out@ == upper(text@),
{
    let mut out: Vec<char> = Vec::new();
    let mut i: usize = 0;
    while i < text.len()
        invariant
            i <= text@.len(),
            out@ =~= upper(text@).take(i as int),
        decreases text@.len() - i,
    {
        out.push(upper_of(text[i]));
        i = i + 1;
    }
    assert(out@ =~= upper(text@));
    out
}

fn upper_of(c: char) -> (up: char)
    ensures
        up == upper_char(c),
{
    if 'a' <= c && c <= 'z' {
        let code: u8 = c as u8;
        (code - 32) as char
    } else {
        c
    }
}

/// Whether two runs of characters are equal.
pub fn same_chars(a: &[char], b: &[char]) -> (same: bool)
    ensures
        same == (a@ == b@),
{
    if a.len() != b.len() {
        return false;
    }
    let mut i: usize = 0;
    while i < a.len()
        invariant
            i <= a@.len(),
            a@.len() == b@.len(),
            forall|j: int| 0 <= j < i ==> a@[j] == b@[j],
        decreases a@.len() - i,
    {
        if a[i] != b[i] {
            return false;
        }
        i = i + 1;
    }
    assert(a@ =~= b@);
    true
}

/// Whether `a` comes before `b` in the order of their characters.
pub fn comes_before(a: &[char], b: &[char]) -> (yes: bool)
    ensures
        yes == before(a@, b@),
{
    let mut i: usize = 0;
    assert(a@.skip(0) =~= a@);
    assert(b@.skip(0) =~= b@);
    while i < a.len() && i < b.len() && a[i] == b[i]
        invariant
            i <= a@.len(),
            i <= b@.len(),
            before(a@, b@) == before(a@.skip(i as int), b@.skip(i as int)),
        decreases a@.len() - i,
    {
        assert(a@.skip(i as int).skip(1) =~= a@.skip(i + 1));
        assert(b@.skip(i as int).skip(1) =~= b@.skip(i + 1));
        i = i + 1;
    }
    if i == b.len() {
        false
    } else if i == a.len() {
        true
    } else {
        a[i] < b[i]
    }
}

/// Whether two texts are the same but for the case of ASCII letters.
pub fn same_ignoring_case(a: &str, b: &str) -> (same: bool)
    ensures
        same == (upper(a@) == upper(b@)),
{
    let left = to_chars(a);
    let right = to_chars(b);
    same_chars(&upper_chars(&left), &upper_chars(&right))
}

/// The order of texts is total: of two different ones, one comes first.
pub proof fn lemma_before_total(a: Seq<char>, b: Seq<char>)
    ensures
        a == b || before(a, b) || before(b, a),
    decreases a.len(),
{
    if a.len() > 0 && b.len() > 0 && a[0] == b[0] {
        lemma_before_total(a.skip(1), b.skip(1));
        if a.skip(1) == b.skip(1) {
            assert(a =~= seq![a[0]] + a.skip(1));
            assert(b =~= seq![b[0]] + b.skip(1));
        }
    } else if a.len() == 0 && b.len() == 0 {
        assert(a =~= b);
    }
}

/// The order of texts is strict: nothing comes before itself, or before
/// something that comes before it.
pub proof fn lemma_before_strict(a: Seq<char>, b: Seq<char>)
    ensures
        before(a, b) ==> a != b && !before(b, a),
    decreases a.len(),
{
    if a.len() > 0 && b.len() > 0 && a[0] == b[0] {
        lemma_before_strict(a.skip(1), b.skip(1));
    }
}

/// The order of texts is transitive.
pub proof fn lemma_before_transitive(a: Seq<char>, b: Seq<char>, c: Seq<char>)
    requires
        before(a, b),
        before(b, c),
    ensures
        before(a, c),
    decreases a.len(),
{
    if a.len() > 0 && b.len() > 0 && c.len() > 0 && a[0] == b[0] && b[0] == c[0] {
        lemma_before_transitive(a.skip(1), b.skip(1), c.skip(1));
    }
}

/// Trimmed text is left as it is.
pub proof fn lemma_trim_keeps(text: Seq<char>)
    requires
        is_trimmed(text),
    ensures
        trim(text) == text,
{
}

/// White space in front does not matter to trimming.
pub proof fn lemma_trim_front(c: char, text: Seq<char>)
    requires
        is_space(c),
    ensures
        trim(seq![c] + text) == trim(text),
{
    assert((seq![c] + text).skip(1) =~= text);
}

proof fn lemma_trim_start_push(text: Seq<char>, c: char)
    ensures
        trim_start(text).len() > 0 ==> trim_start(text.push(c)) == trim_start(text).push(c),
        trim_start(text).len() == 0 && is_space(c) ==> trim_start(text.push(c)).len() == 0,
    decreases text.len(),
{
    if text.len() > 0 && is_space(text[0]) {
        lemma_trim_start_push(text.skip(1), c);
        assert(text.push(c).skip(1) =~= text.skip(1).push(c));
    } else if text.len() == 0 {
        assert(text.push(c).skip(1) =~= Seq::<char>::empty());
        assert(trim_start(text.push(c).skip(1)).len() == 0);
    }
}

/// White space behind does not matter to trimming.
pub proof fn lemma_trim_back(text: Seq<char>, c: char)
    requires
        is_space(c),
    ensures
        trim(text.push(c)) == trim(text),
{
    lemma_trim_start_push(text, c);
    if trim_start(text).len() > 0 {
        assert(trim_start(text).push(c).drop_last() =~= trim_start(text));
    } else {
        assert(trim_start(text.push(c)) =~= trim_start(text));
    }
}

/// Cutting text that starts with something else than the mark: that character
/// belongs to the first piece.
pub proof fn lemma_split_front(c: char, text: Seq<char>, mark: char)
    requires
        c != mark,
    ensures
        split_on(text, mark).len() > 0,
        split_on(seq![c] + text, mark) == split_on(text, mark).update(
            0,
            seq![c] + split_on(text, mark)[0],
        ),
    decreases text.len(),
{
    let longer = seq![c] + text;
    let parts = split_on(text, mark);
    if text.len() == 0 {
        assert(longer.drop_last() =~= Seq::<char>::empty());
        assert(text =~= Seq::<char>::empty());
        let blank = seq![Seq::<char>::empty()];
        assert(blank.drop_last() =~= Seq::<Seq<char>>::empty());
        assert(split_on(longer, mark) =~= seq![Seq::<char>::empty().push(c)]);
        assert(seq![c] + Seq::<char>::empty() =~= Seq::<char>::empty().push(c));
        assert(split_on(longer, mark) =~= parts.update(0, seq![c] + parts[0]));
    } else {
        let shorter = text.drop_last();
        lemma_split_front(c, shorter, mark);
        assert(longer.drop_last() =~= seq![c] + shorter);
        assert(longer.last() == text.last());
        let inner = split_on(shorter, mark);
        let first = inner.update(0, seq![c] + inner[0]);
        if text.last() == mark {
            assert(split_on(longer, mark) =~= parts.update(0, seq![c] + parts[0]));
        } else if inner.len() == 1 {
            assert((seq![c] + inner[0]).push(text.last()) =~= seq![c] + inner[0].push(text.last()));
            assert(split_on(longer, mark) =~= parts.update(0, seq![c] + parts[0]));
        } else {
            assert(first.last() == inner.last());
            assert(split_on(longer, mark) =~= parts.update(0, seq![c] + parts[0]));
        }
    }
}

/// The pieces between the marks, each without white space at its ends.
pub open spec fn fields(text: Seq<char>, mark: char) -> Seq<Seq<char>> {
    Seq::new(split_on(text, mark).len(), |i: int| trim(split_on(text, mark)[i]))
}

proof fn lemma_fields_trim_start(text: Seq<char>, mark: char)
    requires
        !is_space(mark),
    ensures
        fields(trim_start(text), mark) == fields(text, mark),
    decreases text.len(),
{
    if text.len() > 0 && is_space(text[0]) {
        let rest = text.skip(1);
        lemma_fields_trim_start(rest, mark);
        lemma_split_front(text[0], rest, mark);
        lemma_trim_front(text[0], split_on(rest, mark)[0]);
        assert(seq![text[0]] + rest =~= text);
        assert(fields(text, mark) =~= fields(rest, mark));
    }
}

proof fn lemma_split_not_empty(text: Seq<char>, mark: char)
    ensures
        split_on(text, mark).len() > 0,
    decreases text.len(),
{
    if text.len() > 0 {
        lemma_split_not_empty(text.drop_last(), mark);
    }
}

proof fn lemma_fields_trim_end(text: Seq<char>, mark: char)
    requires
        !is_space(mark),
    ensures
        fields(trim_end(text), mark) == fields(text, mark),
    decreases text.len(),
{
    if text.len() > 0 && is_space(text.last()) {
        let shorter = text.drop_last();
        lemma_fields_trim_end(shorter, mark);
        lemma_split_not_empty(shorter, mark);
        lemma_trim_back(split_on(shorter, mark).last(), text.last());
        assert(fields(text, mark) =~= fields(shorter, mark));
    }
}

/// White space around a text does not matter to its fields.
pub proof fn lemma_fields_of_trimmed(text: Seq<char>, mark: char)
    requires
        !is_space(mark),
    ensures
        fields(trim(text), mark) == fields(text, mark),
{
    lemma_fields_trim_start(text, mark);
    lemma_fields_trim_end(trim_start(text), mark);
}

/// Cuts a text at every mark and leaves out the white space around each piece.
pub fn field_chars(text: &[char], mark: char) -> (parts: Vec<Vec<char>>)
    ensures
        char_views(parts@) == fields(text@, mark),
{
    let pieces = split_chars(text, mark);
    let mut parts: Vec<Vec<char>> = Vec::new();
    let mut i: usize = 0;
    while i < pieces.len()
        invariant
            i <= pieces@.len(),
            char_views(pieces@) == split_on(text@, mark),
            char_views(parts@) =~= fields(text@, mark).take(i as int),
        decreases pieces@.len() - i,
    {
        let piece = copy_chars(trim_chars(&pieces[i]));
        assert(char_views(pieces@)[i as int] == pieces@[i as int]@);
        let ghost held = char_views(parts@);
        parts.push(piece);
        assert(char_views(parts@) =~= held.push(piece@));
        i = i + 1;
    }
    assert(char_views(parts@) =~= fields(text@, mark));
    parts
}

/// A fresh vector with the same characters.
pub fn copy_chars(text: &[char]) -> (out: Vec<char>)
    ensures
        out@ == text@,
{
    let mut out: Vec<char> = Vec::new();
    let mut i: usize = 0;
    while i < text.len()
        invariant
            i <= text@.len(),
            out@ =~= text@.take(i as int),
        decreases text@.len() - i,
    {
        out.push(text[i]);
        i = i + 1;
    }
    assert(out@ =~= text@);
    out
}

/// A number in base ten is read back from its digits.
pub proof fn lemma_decimal_reads_back(value: nat)
    ensures
        decimal(value).len() > 0,
        all_digits(decimal(value), 10),
        digits_value(decimal(value), 10) == value,
        forall|i: int|
            0 <= i < decimal(value).len() ==> '0' <= #[trigger] decimal(value)[i] <= '9',
    decreases value,
{
    let text = decimal(value);
    if value < 10 {
        assert(text.drop_last() =~= Seq::<char>::empty());
        assert(digits_value(text.drop_last(), 10) == 0);
    } else {
        lemma_decimal_reads_back(value / 10);
        assert(text.drop_last() =~= decimal(value / 10));
        assert(digit_value(text.last()) == value % 10);
        assert forall|i: int| 0 <= i < text.len() implies digit_value(#[trigger] text[i]) < 10 && '0'
            <= text[i] && text[i] <= '9' by {
            if i < text.len() - 1 {
                assert(text[i] == decimal(value / 10)[i]);
            }
        }
    }
}

/// Whether two texts are equal.
pub fn same_text(a: &str, b: &str) -> (same: bool)
    ensures
        same == (a@ == b@),
{
    let same = crate::bytes::same_bytes(a.as_bytes(), b.as_bytes());
    proof {
        broadcast use vstd::utf8::encode_utf8_decode_utf8;
        if same {
            assert(vstd::utf8::decode_utf8(vstd::utf8::encode_utf8(a@)) == a@);
            assert(vstd::utf8::decode_utf8(vstd::utf8::encode_utf8(b@)) == b@);
        }
    }
    same
}

/// A number is read back from its digits in base sixteen, small or capital, as long
/// as there are places for it.
pub proof fn hexadecimal_reads_back(value: nat, places: nat)
    ensures
        hex(value, places).len() == places,
        upper_hex(value, places).len() == places,
        value < vstd::arithmetic::power::pow(16, places) ==> digits_value(hex(value, places), 16)
            == value && digits_value(upper_hex(value, places), 16) == value,
    decreases places,
{
    vstd::arithmetic::power::lemma_pow0(16);
    if places > 0 {
        hexadecimal_reads_back(value / 16, (places - 1) as nat);
        vstd::arithmetic::power::lemma_pow_adds(16, 1, (places - 1) as nat);
        vstd::arithmetic::power::lemma_pow1(16);
        let small = hex(value, places);
        let large = upper_hex(value, places);
        assert(small.drop_last() =~= hex(value / 16, (places - 1) as nat));
        assert(large.drop_last() =~= upper_hex(value / 16, (places - 1) as nat));
        assert(digit_value(small.last()) == value % 16);
        assert(digit_value(large.last()) == value % 16);
    }
}

/// Capitals are the same letters: raising them again changes nothing, and whatever is
/// no small letter stays as it is.
pub proof fn raising_letters_settles(text: Seq<char>, i: int)
    requires
        0 <= i < text.len(),
    ensures
        upper(upper(text)) == upper(text),
        upper(text).len() == text.len(),
        !('a' <= text[i] <= 'z') ==> upper(text)[i] == text[i],
        'a' <= text[i] <= 'z' ==> upper(text)[i] as int == text[i] as int - 32,
{
    assert forall|k: int| 0 <= k < text.len() implies upper_char(#[trigger] upper(text)[k])
        == upper(text)[k] by {}
    assert(upper(upper(text)) =~= upper(text));
}

proof fn lemma_trimmed_front(text: Seq<char>)
    ensures
        trim_start(text).len() <= text.len(),
        trim_start(text) == text.skip(text.len() - trim_start(text).len()),
        trim_start(text).len() > 0 ==> !is_space(trim_start(text)[0]),
        forall|i: int|
            0 <= i < text.len() - trim_start(text).len() ==> is_space(#[trigger] text[i]),
    decreases text.len(),
{
    if text.len() > 0 && is_space(text[0]) {
        let rest = text.skip(1);
        lemma_trimmed_front(rest);
        assert(trim_start(text) =~= text.skip(text.len() - trim_start(text).len()));
        assert forall|i: int| 0 <= i < text.len() - trim_start(text).len() implies is_space(
            #[trigger] text[i],
        ) by {
            if i > 0 {
                assert(rest[i - 1] == text[i]);
            }
        }
    } else {
        assert(trim_start(text) =~= text.skip(0));
    }
}

proof fn lemma_trimmed_back(text: Seq<char>)
    ensures
        trim_end(text).len() <= text.len(),
        trim_end(text) == text.take(trim_end(text).len() as int),
        trim_end(text).len() > 0 ==> !is_space(trim_end(text).last()),
        forall|i: int| trim_end(text).len() <= i < text.len() ==> is_space(#[trigger] text[i]),
    decreases text.len(),
{
    if text.len() > 0 && is_space(text.last()) {
        let rest = text.drop_last();
        lemma_trimmed_back(rest);
        assert(trim_end(text) =~= text.take(trim_end(text).len() as int));
        assert forall|i: int| trim_end(text).len() <= i < text.len() implies is_space(
            #[trigger] text[i],
        ) by {
            if i < rest.len() {
                assert(rest[i] == text[i]);
            }
        }
    } else {
        assert(trim_end(text) =~= text.take(text.len() as int));
    }
}

/// Trimming takes white space off both ends and nothing else.
pub proof fn trimming_takes_only_space(text: Seq<char>)
    ensures
        is_trimmed(trim(text)),
        exists|from: int, to: int|
            0 <= from <= to <= text.len() && trim(text) == #[trigger] text.subrange(from, to)
                && (forall|i: int| 0 <= i < from ==> is_space(#[trigger] text[i])) && (forall|i: int|
                to <= i < text.len() ==> is_space(#[trigger] text[i])),
{
    let front = trim_start(text);
    lemma_trimmed_front(text);
    lemma_trimmed_back(front);
    let from = text.len() - front.len();
    let to = from + trim(text).len();
    assert(trim(text) =~= text.subrange(from, to));
    assert forall|i: int| to <= i < text.len() implies is_space(#[trigger] text[i]) by {
        assert(front[i - from] == text[i]);
    }
    if trim(text).len() > 0 {
        assert(trim(text)[0] == front[0]);
    }
}

/// Texts are ordered by the first character in which they differ, and one that goes
/// on comes behind one that ends.
pub proof fn texts_are_ordered_by_their_first_difference(
    common: Seq<char>,
    x: char,
    y: char,
    a: Seq<char>,
    b: Seq<char>,
)
    requires
        x != y,
    ensures
        before(common.push(x) + a, common.push(y) + b) <==> (x as int) < (y as int),
        before(common, common.push(x) + a),
        !before(common.push(x) + a, common),
    decreases common.len(),
{
    let one = common.push(x) + a;
    let two = common.push(y) + b;
    if common.len() > 0 {
        let rest = common.skip(1);
        texts_are_ordered_by_their_first_difference(rest, x, y, a, b);
        assert(one.skip(1) =~= rest.push(x) + a);
        assert(two.skip(1) =~= rest.push(y) + b);
        assert(one[0] == common[0] && two[0] == common[0]);
    } else {
        assert(one[0] == x && two[0] == y);
    }
}

/// A text holds a part exactly when it is something, the part and something more;
/// either may be nothing.
pub proof fn a_part_is_held_wherever_it_stands(
    text: Seq<char>,
    front: Seq<char>,
    part: Seq<char>,
    back: Seq<char>,
)
    ensures
        holds(front + part + back, part),
        holds(text, part) ==> exists|a: Seq<char>, b: Seq<char>| text == #[trigger] (a + part + b),
{
    let whole = front + part + back;
    let at = front.len() as int;
    assert(whole.subrange(at, at + part.len()) =~= part);
    assert(occurs_at(whole, part, at));
    if holds(text, part) {
        let i = choose|i: int| #[trigger] occurs_at(text, part, i);
        let a = text.take(i);
        let b = text.skip(i + part.len());
        assert(text =~= a + part + b);
    }
}

/// White space is what Unicode calls so: the controls from tab to return, the space,
/// the next line, the no-break space, and the wider and narrower spaces.
pub proof fn white_space_is_what_unicode_says(c: char)
    ensures
        is_space(c) <==> {
            let n = c as int;
            n == 9 || n == 10 || n == 11 || n == 12 || n == 13 || n == 32 || n == 133 || n == 160
                || n == 5760 || (8192 <= n && n <= 8202) || n == 8232 || n == 8233 || n == 8239 || n
                == 8287 || n == 12288
        },
{
}

} // verus!
