//! Text as the sequence of its characters: searching, trimming and letter case.
use vstd::prelude::*;
use vstd::utf8::encode_utf8;

verus! {

/// `String::push`: the character becomes the last one of the text.
pub assume_specification[ String::push ](text: &mut String, c: char)
    ensures
        final(text)@ == old(text)@.push(c),
;

// ── Searching ────────────────────────────────────────────────────────────────

/// `part` stands in `text` at position `i`.
pub open spec fn occurs_at(text: Seq<char>, part: Seq<char>, i: int) -> bool {
    0 <= i && i + part.len() <= text.len() && text.subrange(i, i + part.len()) == part
}

/// `part` stands somewhere in `text`.
pub open spec fn contains(text: Seq<char>, part: Seq<char>) -> bool {
    exists|i: int| occurs_at(text, part, i)
}

/// The first position at or after `i` where `part` stands in `text`.
pub open spec fn find_from(text: Seq<char>, part: Seq<char>, i: int) -> Option<int>
    decreases text.len() + 1 - i,
{
    if i < 0 || i + part.len() > text.len() {
        None
    } else if occurs_at(text, part, i) {
        Some(i)
    } else {
        find_from(text, part, i + 1)
    }
}

/// The first position where `part` stands in `text`.
pub open spec fn find(text: Seq<char>, part: Seq<char>) -> Option<int> {
    find_from(text, part, 0)
}

/// The last position at or before `i` where `part` stands in `text`.
pub open spec fn rfind_from(text: Seq<char>, part: Seq<char>, i: int) -> Option<int>
    decreases i + 1,
{
    if i < 0 {
        None
    } else if occurs_at(text, part, i) {
        Some(i)
    } else {
        rfind_from(text, part, i - 1)
    }
}

/// The last position where `part` stands in `text`.
pub open spec fn rfind(text: Seq<char>, part: Seq<char>) -> Option<int> {
    rfind_from(text, part, text.len() - part.len())
}

/// `find_from` gives the least position from `i` on, and `None` only where there is none.
pub proof fn lemma_find_from(text: Seq<char>, part: Seq<char>, i: int)
    requires
        0 <= i,
    ensures
        match find_from(text, part, i) {
            Some(at) => i <= at && occurs_at(text, part, at) && forall|j: int|
                i <= j < at ==> !occurs_at(text, part, j),
            None => forall|j: int| i <= j ==> !occurs_at(text, part, j),
        },
    decreases text.len() + 1 - i,
{
    if i + part.len() > text.len() {
    } else if occurs_at(text, part, i) {
    } else {
        lemma_find_from(text, part, i + 1);
    }
}

/// The least position is the one that `find_from` gives.
pub proof fn lemma_find_is(text: Seq<char>, part: Seq<char>, i: int, at: int)
    requires
        0 <= i <= at,
        occurs_at(text, part, at),
        forall|j: int| i <= j < at ==> !occurs_at(text, part, j),
    ensures
        find_from(text, part, i) == Some(at),
{
    lemma_find_from(text, part, i);
}

/// The same for the search from the end, which gives the greatest position.
pub proof fn lemma_rfind_from(text: Seq<char>, part: Seq<char>, i: int)
    ensures
        match rfind_from(text, part, i) {
            Some(at) => 0 <= at <= i && occurs_at(text, part, at) && forall|j: int|
                at < j <= i ==> !occurs_at(text, part, j),
            None => forall|j: int| j <= i ==> !occurs_at(text, part, j),
        },
    decreases i + 1,
{
    if i < 0 {
    } else if occurs_at(text, part, i) {
    } else {
        lemma_rfind_from(text, part, i - 1);
    }
}

/// The greatest position is the one that `rfind` gives.
pub proof fn lemma_rfind_is(text: Seq<char>, part: Seq<char>, at: int)
    requires
        occurs_at(text, part, at),
        forall|j: int| at < j ==> !occurs_at(text, part, j),
    ensures
        rfind(text, part) == Some(at),
{
    lemma_rfind_from(text, part, text.len() - part.len());
}

// ── Trimming ─────────────────────────────────────────────────────────────────

/// The characters with the Unicode property `White_Space`.
pub open spec fn is_space(c: char) -> bool {
    ||| '\u{9}' <= c <= '\u{d}'
    ||| c == '\u{20}'
    ||| c == '\u{85}'
    ||| c == '\u{a0}'
    ||| c == '\u{1680}'
    ||| '\u{2000}' <= c <= '\u{200a}'
    ||| c == '\u{2028}'
    ||| c == '\u{2029}'
    ||| c == '\u{202f}'
    ||| c == '\u{205f}'
    ||| c == '\u{3000}'
}

/// `text` without the white space it starts with.
pub open spec fn trim_start(text: Seq<char>) -> Seq<char>
    decreases text.len(),
{
    if text.len() > 0 && is_space(text[0]) {
        trim_start(text.skip(1))
    } else {
        text
    }
}

/// `text` without the white space it ends with.
pub open spec fn trim_end(text: Seq<char>) -> Seq<char>
    decreases text.len(),
{
    if text.len() > 0 && is_space(text.last()) {
        trim_end(text.drop_last())
    } else {
        text
    }
}

/// `text` without the white space around it.
pub open spec fn trim(text: Seq<char>) -> Seq<char> {
    trim_end(trim_start(text))
}

// ── Letter case, ends and order ──────────────────────────────────────────────

/// An ASCII capital as its small letter; every other character as it is.
pub open spec fn lower_char(c: char) -> char {
    if 'A' <= c <= 'Z' {
        (c as u32 + 32) as char
    } else {
        c
    }
}

/// `text` with small ASCII letters.
pub open spec fn lower(text: Seq<char>) -> Seq<char> {
    Seq::new(text.len(), |i: int| lower_char(text[i]))
}

/// `text` begins with `part`.
pub open spec fn starts_with(text: Seq<char>, part: Seq<char>) -> bool {
    part.len() <= text.len() && text.take(part.len() as int) == part
}

/// `text` ends with `part`.
pub open spec fn ends_with(text: Seq<char>, part: Seq<char>) -> bool {
    part.len() <= text.len() && text.skip(text.len() - part.len()) == part
}

/// `text` without `part` at its end, where it ends so.
pub open spec fn without_end(text: Seq<char>, part: Seq<char>) -> Option<Seq<char>> {
    if ends_with(text, part) {
        Some(text.take(text.len() - part.len()))
    } else {
        None
    }
}

/// `a` comes before `b` in the order of a dictionary.
pub open spec fn before(a: Seq<char>, b: Seq<char>) -> bool
    decreases a.len(),
{
    if b.len() == 0 {
        false
    } else if a.len() == 0 {
        true
    } else if a[0] != b[0] {
        a[0] < b[0]
    } else {
        before(a.skip(1), b.skip(1))
    }
}

pub proof fn lemma_before_irreflexive(a: Seq<char>)
    ensures
        !before(a, a),
    decreases a.len(),
{
    if a.len() > 0 {
        lemma_before_irreflexive(a.skip(1));
    }
}

pub proof fn lemma_before_transitive(a: Seq<char>, b: Seq<char>, c: Seq<char>)
    requires
        before(a, b),
        before(b, c),
    ensures
        before(a, c),
    decreases a.len(),
{
    if a.len() > 0 && a[0] == b[0] && b[0] == c[0] {
        lemma_before_transitive(a.skip(1), b.skip(1), c.skip(1));
    }
}

pub proof fn lemma_before_total(a: Seq<char>, b: Seq<char>)
    ensures
        before(a, b) || a == b || before(b, a),
    decreases a.len(),
{
    if a.len() == 0 || b.len() == 0 {
        if a.len() == 0 && b.len() == 0 {
            assert(a =~= b);
        }
    } else if a[0] == b[0] {
        lemma_before_total(a.skip(1), b.skip(1));
        if a.skip(1) == b.skip(1) {
            assert(a =~= seq![a[0]] + a.skip(1));
            assert(b =~= seq![b[0]] + b.skip(1));
        }
    }
}

// ── Numbers ──────────────────────────────────────────────────────────────────

/// The digit for `d < 16`, with `a` to `f` above 9.
pub open spec fn digit(d: nat) -> char {
    if d < 10 {
        (48 + d) as char
    } else {
        (87 + d) as char
    }
}

/// `n` in decimal.
pub open spec fn decimal(n: nat) -> Seq<char>
    decreases n,
{
    if n < 10 {
        seq![digit(n)]
    } else {
        decimal(n / 10).push(digit(n % 10))
    }
}

/// `n` in hexadecimal.
pub open spec fn hexadecimal(n: nat) -> Seq<char>
    decreases n,
{
    if n < 16 {
        seq![digit(n)]
    } else {
        hexadecimal(n / 16).push(digit(n % 16))
    }
}

/// `i` in decimal, with a sign where it is negative.
pub open spec fn signed_decimal(i: int) -> Seq<char> {
    if i < 0 {
        "-"@ + decimal((-i) as nat)
    } else {
        decimal(i as nat)
    }
}

/// The items with `,` between them.
pub open spec fn joined(items: Seq<Seq<char>>) -> Seq<char>
    decreases items.len(),
{
    if items.len() == 0 {
        Seq::empty()
    } else if items.len() == 1 {
        items[0]
    } else {
        joined(items.drop_last()) + ","@ + items.last()
    }
}

/// `c` is one of `0` to `9`.
pub open spec fn is_digit(c: char) -> bool {
    '0' <= c <= '9'
}

/// `text` is made of digits, at least one.
pub open spec fn is_digits(text: Seq<char>) -> bool {
    text.len() > 0 && forall|i: int| 0 <= i < text.len() ==> is_digit(#[trigger] text[i])
}

/// The number that digits stand for.
pub open spec fn digits_value(text: Seq<char>) -> nat
    decreases text.len(),
{
    if text.len() == 0 {
        0
    } else {
        digits_value(text.drop_last()) * 10 + (text.last() as nat - 48) as nat
    }
}

/// `text` without one `+` in front.
pub open spec fn without_plus(text: Seq<char>) -> Seq<char> {
    if text.len() > 0 && text[0] == '+' {
        text.skip(1)
    } else {
        text
    }
}

/// The number up to `max` that `text` spells: digits, with a `+` in front at most.
pub open spec fn number_in(text: Seq<char>, max: nat) -> Option<nat> {
    let digits = without_plus(text);
    if is_digits(digits) && digits_value(digits) <= max {
        Some(digits_value(digits))
    } else {
        None
    }
}

/// The parts of `text` between the characters `c`.
pub open spec fn split_on(text: Seq<char>, c: char) -> Seq<Seq<char>>
    decreases text.len(),
{
    if text.len() == 0 {
        seq![Seq::empty()]
    } else {
        let parts = split_on(text.drop_last(), c);
        if text.last() == c {
            parts.push(Seq::empty())
        } else {
            parts.drop_last().push(parts.last().push(text.last()))
        }
    }
}

/// There is always a part.
pub proof fn lemma_split_on_len(text: Seq<char>, c: char)
    ensures
        split_on(text, c).len() > 0,
    decreases text.len(),
{
    if text.len() > 0 {
        lemma_split_on_len(text.drop_last(), c);
    }
}

proof fn lemma_digits_grow(text: Seq<char>, k: int)
    requires
        0 <= k <= text.len(),
    ensures
        digits_value(text.take(k)) <= digits_value(text),
    decreases text.len(),
{
    if k == text.len() {
        assert(text.take(k) =~= text);
    } else {
        lemma_digits_grow(text.drop_last(), k);
        assert(text.drop_last().take(k) =~= text.take(k));
    }
}

/// The views of a list of texts.
pub open spec fn texts(list: Seq<String>) -> Seq<Seq<char>> {
    Seq::new(list.len(), |i: int| list[i]@)
}

/// The views of a list of borrowed texts.
pub open spec fn strs(list: Seq<&str>) -> Seq<Seq<char>> {
    Seq::new(list.len(), |i: int| list[i]@)
}

// ── Executable forms ─────────────────────────────────────────────────────────

/// The digit for `d < 16`.
pub fn digit_char(d: u8) -> (c: char)
    requires
        d < 16,
    ensures
        c == digit(d as nat),
{
    if d < 10 {
        (48 + d) as char
    } else {
        (87 + d) as char
    }
}

/// `n` in decimal.
pub fn decimal_text(n: u64) -> (text: String)
    ensures
        text@ == decimal(n as nat),
    decreases n,
{
    if n < 10 {
        let mut text = String::new();
        text.push(digit_char(n as u8));
        assert(text@ =~= decimal(n as nat));
        text
    } else {
        let mut text = decimal_text(n / 10);
        text.push(digit_char((n % 10) as u8));
        text
    }
}

/// `n` in hexadecimal.
pub fn hexadecimal_text(n: u64) -> (text: String)
    ensures
        text@ == hexadecimal(n as nat),
    decreases n,
{
    if n < 16 {
        let mut text = String::new();
        text.push(digit_char(n as u8));
        assert(text@ =~= hexadecimal(n as nat));
        text
    } else {
        let mut text = hexadecimal_text(n / 16);
        text.push(digit_char((n % 16) as u8));
        text
    }
}

/// `i` in decimal.
pub fn signed_text(i: i64) -> (text: String)
    ensures
        text@ == signed_decimal(i as int),
{
    if i < 0 {
        let mut text = "-".to_owned();
        let size: u64 = if i == i64::MIN {
            0x8000_0000_0000_0000
        } else {
            (-i) as u64
        };
        text.append(decimal_text(size).as_str());
        text
    } else {
        decimal_text(i as u64)
    }
}

/// The items with `,` between them.
pub fn join(items: &Vec<String>) -> (text: String)
    ensures
        text@ == joined(texts(items@)),
{
    let mut text = String::new();
    let mut i: usize = 0;
    while i < items.len()
        invariant
            i <= items@.len(),
            text@ == joined(texts(items@).take(i as int)),
        decreases items@.len() - i,
    {
        let ghost now = texts(items@).take(i + 1);
        proof {
            assert(now.drop_last() =~= texts(items@).take(i as int));
            assert(now.last() == items@[i as int]@);
        }
        if i > 0 {
            text.append(",");
        }
        let ghost before = text@;
        text.append(items[i].as_str());
        proof {
            if i == 0 {
                assert(before + items@[0]@ =~= items@[0]@);
            }
        }
        i += 1;
    }
    assert(texts(items@).take(i as int) =~= texts(items@));
    text
}

/// `text` holds the character `c`.
pub fn has_char(text: &str, c: char) -> (b: bool)
    ensures
        b == text@.contains(c),
{
    let chars = chars_of(text);
    let mut i: usize = 0;
    while i < chars.len()
        invariant
            i <= chars@.len(),
            chars@ == text@,
            forall|j: int| 0 <= j < i ==> text@[j] != c,
        decreases chars@.len() - i,
    {
        if chars[i] == c {
            assert(text@[i as int] == c);
            return true;
        }
        i += 1;
    }
    false
}

/// A copy of a list of texts.
pub fn copy_texts(list: &Vec<String>) -> (copy: Vec<String>)
    ensures
        texts(copy@) == texts(list@),
{
    let mut copy: Vec<String> = Vec::new();
    let mut i: usize = 0;
    while i < list.len()
        invariant
            i <= list@.len(),
            texts(copy@) == texts(list@).take(i as int),
        decreases list@.len() - i,
    {
        let ghost before = texts(copy@);
        copy.push(list[i].clone());
        assert(texts(copy@) =~= before.push(list@[i as int]@));
        assert(texts(list@).take(i + 1) =~= before.push(list@[i as int]@));
        i += 1;
    }
    assert(texts(list@).take(i as int) =~= texts(list@));
    copy
}

/// `text` with small ASCII letters.
pub fn lowered(text: &str) -> (result: String)
    ensures
        result@ == lower(text@),
{
    let chars = chars_of(text);
    let mut result = String::new();
    let mut i: usize = 0;
    while i < chars.len()
        invariant
            i <= chars@.len(),
            chars@ == text@,
            result@ == lower(text@).take(i as int),
        decreases chars@.len() - i,
    {
        let c = chars[i];
        if 'A' <= c && c <= 'Z' {
            let code: u8 = c as u8;
            assert(code == c as u32);
            result.push((code + 32) as char);
        } else {
            result.push(c);
        }
        assert(result@ =~= lower(text@).take(i + 1));
        i += 1;
    }
    assert(lower(text@).take(i as int) =~= lower(text@));
    result
}

/// Whether `text` begins with `part`.
pub fn has_start(text: &str, part: &str) -> (b: bool)
    ensures
        b == starts_with(text@, part@),
{
    let chars = chars_of(text);
    let wanted = chars_of(part);
    let b = matches_at(&chars, &wanted, 0);
    proof {
        if part@.len() <= text@.len() {
            assert(text@.subrange(0, part@.len() as int) =~= text@.take(part@.len() as int));
        }
    }
    b
}

/// Whether `text` ends with `part`.
pub fn has_end(text: &str, part: &str) -> (b: bool)
    ensures
        b == ends_with(text@, part@),
{
    let chars = chars_of(text);
    let wanted = chars_of(part);
    if wanted.len() > chars.len() {
        return false;
    }
    let at: usize = chars.len() - wanted.len();
    assert(text@.subrange(at as int, at + part@.len()) =~= text@.skip(at as int));
    matches_at(&chars, &wanted, at)
}

/// `text` without `part` at its end, where it ends so.
pub fn strip_end(text: &str, part: &str) -> (result: Option<String>)
    ensures
        match result {
            Some(t) => without_end(text@, part@) == Some(t@),
            None => without_end(text@, part@) is None,
        },
{
    if has_end(text, part) {
        let chars = chars_of(text);
        let wanted = chars_of(part);
        let at: usize = chars.len() - wanted.len();
        assert(text@.subrange(0, at as int) =~= text@.take(at as int));
        Some(text_of(&chars, 0, at))
    } else {
        None
    }
}

/// Whether `a` comes before `b`.
pub fn comes_before(a: &str, b: &str) -> (result: bool)
    ensures
        result == before(a@, b@),
{
    let x = chars_of(a);
    let y = chars_of(b);
    let mut i: usize = 0;
    assert(x@.skip(0) =~= x@);
    assert(y@.skip(0) =~= y@);
    while i < x.len() && i < y.len()
        invariant
            i <= x@.len(),
            i <= y@.len(),
            x@ == a@,
            y@ == b@,
            before(x@, y@) == before(x@.skip(i as int), y@.skip(i as int)),
        decreases x@.len() - i,
    {
        if x[i] != y[i] {
            return x[i] < y[i];
        }
        assert(x@.skip(i as int).skip(1) =~= x@.skip(i + 1));
        assert(y@.skip(i as int).skip(1) =~= y@.skip(i + 1));
        i += 1;
    }
    i < y.len()
}

/// The number up to `max` that `text` spells.
pub fn read_number(text: &str, max: u64) -> (n: Option<u64>)
    ensures
        match n {
            Some(v) => number_in(text@, max as nat) == Some(v as nat),
            None => number_in(text@, max as nat) is None,
        },
{
    let chars = chars_of(text);
    let start: usize = if chars.len() > 0 && chars[0] == '+' {
        1
    } else {
        0
    };
    let ghost digits = without_plus(text@);
    assert(digits =~= chars@.skip(start as int));
    if start == chars.len() {
        return None;
    }
    let mut value: u64 = 0;
    let mut i: usize = start;
    while i < chars.len()
        invariant
            start <= i <= chars@.len(),
            chars@ == text@,
            digits == without_plus(text@),
            digits == chars@.skip(start as int),
            value <= max,
            value == digits_value(digits.take(i - start)),
            forall|j: int| 0 <= j < i - start ==> is_digit(#[trigger] digits[j]),
        decreases chars@.len() - i,
    {
        let c = chars[i];
        assert(digits[i - start] == c);
        if !('0' <= c && c <= '9') {
            return None;
        }
        proof {
            assert(digits.take(i - start + 1).drop_last() =~= digits.take(i - start));
            lemma_digits_grow(digits, i - start + 1);
        }
        let d: u64 = (c as u64) - 48;
        if value > max / 10 {
            return None;
        }
        if d > max || value * 10 > max - d {
            return None;
        }
        value = value * 10 + d;
        i += 1;
    }
    assert(digits.take(i - start) =~= digits);
    Some(value)
}

/// The parts of `text` between the characters `c`.
pub fn split(text: &str, c: char) -> (parts: Vec<String>)
    ensures
        texts(parts@) == split_on(text@, c),
{
    let chars = chars_of(text);
    let mut parts: Vec<String> = Vec::new();
    let mut part = String::new();
    let mut i: usize = 0;
    assert(texts(parts@).push(part@) =~= split_on(chars@.take(0), c));
    while i < chars.len()
        invariant
            i <= chars@.len(),
            texts(parts@).push(part@) == split_on(chars@.take(i as int), c),
        decreases chars@.len() - i,
    {
        let ghost now = split_on(chars@.take(i as int), c);
        let ghost before = texts(parts@);
        proof {
            assert(chars@.take(i + 1).drop_last() =~= chars@.take(i as int));
            assert(now.last() == part@);
            assert(now.drop_last() =~= before);
        }
        if chars[i] == c {
            parts.push(part);
            part = String::new();
            assert(texts(parts@) =~= now);
            assert(part@ =~= Seq::empty());
        } else {
            part.push(chars[i]);
        }
        i += 1;
    }
    assert(chars@.take(i as int) =~= chars@);
    let ghost before = texts(parts@);
    parts.push(part);
    assert(texts(parts@) =~= before.push(part@));
    parts
}

/// Whether both texts are the same.
pub fn same_text(a: &str, b: &str) -> (same: bool)
    ensures
        same == (a@ == b@),
{
    a.to_owned() == b.to_owned()
}

/// The characters of `text`, in order.
pub fn chars_of(text: &str) -> (chars: Vec<char>)
    ensures
        chars@ == text@,
{
    let mut chars: Vec<char> = Vec::new();
    for c in it: text.chars()
        invariant
            chars@ == it.seq().take(it.index() as int),
    {
        chars.push(c);
    }
    chars
}

/// The text made of `chars[from..to]`.
pub fn text_of(chars: &Vec<char>, from: usize, to: usize) -> (text: String)
    requires
        from <= to <= chars@.len(),
    ensures
        text@ == chars@.subrange(from as int, to as int),
{
    let mut text = String::new();
    let mut i: usize = from;
    while i < to
        invariant
            from <= i <= to <= chars@.len(),
            text@ == chars@.subrange(from as int, i as int),
        decreases to - i,
    {
        text.push(chars[i]);
        i += 1;
    }
    text
}

/// Whether `part` stands in `text` at `i`.
pub fn matches_at(text: &Vec<char>, part: &Vec<char>, i: usize) -> (b: bool)
    ensures
        b == occurs_at(text@, part@, i as int),
{
    if part.len() > text.len() || i > text.len() - part.len() {
        return false;
    }
    let mut k: usize = 0;
    while k < part.len()
        invariant
            k <= part@.len(),
            i + part@.len() <= text@.len() <= usize::MAX,
            forall|j: int| 0 <= j < k ==> text@[i + j] == part@[j],
        decreases part@.len() - k,
    {
        if text[i + k] != part[k] {
            assert(text@.subrange(i as int, i + part@.len())[k as int] != part@[k as int]);
            return false;
        }
        k += 1;
    }
    assert(text@.subrange(i as int, i + part@.len()) =~= part@);
    true
}

/// The first position at or after `start` where `part` stands in `text`.
pub fn search_from(text: &Vec<char>, part: &Vec<char>, start: usize) -> (at: Option<usize>)
    ensures
        match at {
            Some(i) => find_from(text@, part@, start as int) == Some(i as int),
            None => find_from(text@, part@, start as int) is None,
        },
{
    if part.len() > text.len() {
        return None;
    }
    let last: usize = text.len() - part.len();
    let mut i: usize = start;
    while i <= last
        invariant
            last == text@.len() - part@.len(),
            start <= i,
            i <= last + 1 || i == start,
            find_from(text@, part@, start as int) == find_from(text@, part@, i as int),
        decreases last + 1 - i,
    {
        if matches_at(text, part, i) {
            return Some(i);
        }
        if i == last {
            assert(find_from(text@, part@, i + 1) is None);
            return None;
        }
        i += 1;
    }
    None
}

/// The bytes `part` stand in `bytes` at position `i`.
pub open spec fn stands_at(bytes: Seq<u8>, part: Seq<u8>, i: int) -> bool {
    0 <= i && i + part.len() <= bytes.len() && bytes.subrange(i, i + part.len()) == part
}

proof fn lemma_encoded_sum(a: Seq<char>, b: Seq<char>)
    ensures
        encode_utf8(a + b) == encode_utf8(a) + encode_utf8(b),
    decreases a.len(),
{
    if a.len() == 0 {
        assert(a + b =~= b);
        assert(encode_utf8(a) + encode_utf8(b) =~= encode_utf8(b));
    } else {
        lemma_encoded_sum(a.drop_first(), b);
        assert((a + b).drop_first() =~= a.drop_first() + b);
        assert(encode_utf8(a + b) =~= encode_utf8(a) + encode_utf8(b));
    }
}

/// A text begins with another one where its bytes do.
proof fn lemma_encoded_start(text: Seq<char>, part: Seq<char>)
    requires
        stands_at(encode_utf8(text), encode_utf8(part), 0),
    ensures
        starts_with(text, part),
    decreases part.len(),
{
    if part.len() > 0 {
        let all = encode_utf8(text);
        let start = encode_utf8(part);
        vstd::utf8::encode_utf8_first_scalar(part);
        let n = vstd::utf8::length_of_first_scalar(start);
        assert forall|k: int| 0 <= k < start.len() implies all[k] == start[k] by {
            assert(all.subrange(0, start.len() as int)[k] == all[k]);
        }
        assert(n <= start.len());
        assert(text.len() > 0);
        vstd::utf8::encode_utf8_first_scalar(text);
        assert(vstd::utf8::decode_first_scalar(all) == vstd::utf8::decode_first_scalar(start));
        assert(text[0] as u32 == part[0] as u32);
        vstd::utf8::char_u32_cast(text[0], text[0] as u32);
        vstd::utf8::char_u32_cast(part[0], part[0] as u32);
        assert(text[0] == part[0]);
        let (rest, tail) = (text.drop_first(), part.drop_first());
        assert(encode_utf8(rest) =~= all.skip(n));
        assert(encode_utf8(tail) =~= start.skip(n));
        assert(encode_utf8(rest).subrange(0, encode_utf8(tail).len() as int) =~= encode_utf8(tail));
        lemma_encoded_start(rest, tail);
        assert(text.take(part.len() as int) =~= seq![text[0]] + rest.take(tail.len() as int));
        assert(part =~= seq![part[0]] + tail);
    } else {
        assert(text.take(0) =~= part);
    }
}

/// A text stands in another one just where its bytes do.
proof fn lemma_contains_bytes(text: Seq<char>, part: Seq<char>)
    requires
        part.len() > 0,
    ensures
        contains(text, part) <==> exists|j: int| stands_at(encode_utf8(text), encode_utf8(part), j),
{
    let all = encode_utf8(text);
    let bytes = encode_utf8(part);
    if contains(text, part) {
        let i = choose|i: int| occurs_at(text, part, i);
        let (before, behind) = (text.take(i), text.skip(i + part.len()));
        assert(text =~= before + part + behind);
        lemma_encoded_sum(before + part, behind);
        lemma_encoded_sum(before, part);
        let j = encode_utf8(before).len() as int;
        assert(all.subrange(j, j + bytes.len()) =~= bytes);
        assert(stands_at(all, bytes, j));
    }
    if exists|j: int| stands_at(all, bytes, j) {
        let j = choose|j: int| stands_at(all, bytes, j);
        vstd::utf8::encode_utf8_valid_utf8(text);
        vstd::utf8::encode_utf8_first_scalar(part);
        assert(all.subrange(j, j + bytes.len())[0] == all[j]);
        assert(all[j] == bytes[0]);
        vstd::utf8::is_char_boundary_iff_not_is_continuation_byte(all, j);
        vstd::utf8::valid_utf8_split(all, j);
        vstd::utf8::decode_utf8_split(all, j);
        vstd::utf8::encode_utf8_decode_utf8(text);
        let tail = all.subrange(j, all.len() as int);
        let before = vstd::utf8::decode_utf8(all.subrange(0, j));
        let rest = vstd::utf8::decode_utf8(tail);
        vstd::utf8::decode_utf8_encode_utf8(tail);
        assert(text == before + rest);
        assert(tail.subrange(0, bytes.len() as int) =~= bytes);
        lemma_encoded_start(rest, part);
        let i = before.len() as int;
        assert(text.subrange(i, i + part.len()) =~= rest.take(part.len() as int));
        assert(occurs_at(text, part, i));
    }
}

/// Whether `part` stands somewhere in `text`.
pub fn holds(text: &str, part: &str) -> (b: bool)
    ensures
        b == contains(text@, part@),
{
    let all = text.as_bytes();
    let bytes = part.as_bytes();
    let n: usize = bytes.len();
    if n == 0 {
        proof {
            if part@.len() > 0 {
                vstd::utf8::encode_utf8_first_scalar(part@);
            }
            assert(text@.subrange(0, 0) =~= part@);
            assert(occurs_at(text@, part@, 0));
        }
        return true;
    }
    proof {
        assert(part@.len() > 0);
        lemma_contains_bytes(text@, part@);
    }
    let size: usize = all.len();
    if size < n {
        return false;
    }
    let first: u8 = bytes[0];
    let last: usize = size - n;
    let mut i: usize = 0;
    while i <= last
        invariant
            all@ == encode_utf8(text@),
            bytes@ == encode_utf8(part@),
            n == bytes@.len(),
            n > 0,
            first == bytes@[0],
            size == all@.len(),
            last == size - n,
            i <= last + 1,
            contains(text@, part@) <==> exists|j: int| stands_at(all@, bytes@, j),
            forall|j: int| 0 <= j < i ==> !stands_at(all@, bytes@, j),
        decreases last + 1 - i,
    {
        if all[i] == first {
            let mut k: usize = 1;
            while k < n && all[i + k] == bytes[k]
                invariant
                    1 <= k <= n,
                    n == bytes@.len(),
                    size == all@.len(),
                    i + n <= size,
                    all@[i as int] == bytes@[0],
                    forall|j: int| 0 <= j < k ==> #[trigger] all@[i + j] == bytes@[j],
                decreases n - k,
            {
                k += 1;
            }
            if k == n {
                let ghost here = all@.subrange(i as int, i + n);
                assert forall|j: int| 0 <= j < n implies here[j] == bytes@[j] by {
                    assert(all@[i + j] == bytes@[j]);
                }
                assert(here =~= bytes@);
                assert(stands_at(all@, bytes@, i as int));
                return true;
            }
            assert(all@.subrange(i as int, i + n)[k as int] == all@[i + k]);
        } else {
            assert(all@.subrange(i as int, i + n)[0] == all@[i as int]);
        }
        assert(!stands_at(all@, bytes@, i as int));
        if i == last {
            return false;
        }
        i += 1;
    }
    false
}

/// The last position where `part` stands in `text`.
pub fn search_last(text: &Vec<char>, part: &Vec<char>) -> (at: Option<usize>)
    ensures
        match at {
            Some(i) => rfind(text@, part@) == Some(i as int),
            None => rfind(text@, part@) is None,
        },
{
    if part.len() > text.len() {
        return None;
    }
    let mut i: usize = text.len() - part.len();
    loop
        invariant
            i <= text@.len() - part@.len(),
            rfind(text@, part@) == rfind_from(text@, part@, i as int),
        decreases i,
    {
        if matches_at(text, part, i) {
            return Some(i);
        }
        if i == 0 {
            assert(rfind_from(text@, part@, -1) is None);
            return None;
        }
        i -= 1;
    }
}

/// Whether `c` is white space.
pub fn is_space_char(c: char) -> (b: bool)
    ensures
        b == is_space(c),
{
    ('\u{9}' <= c && c <= '\u{d}') || c == '\u{20}' || c == '\u{85}' || c == '\u{a0}' || c
        == '\u{1680}' || ('\u{2000}' <= c && c <= '\u{200a}') || c == '\u{2028}' || c == '\u{2029}'
        || c == '\u{202f}' || c == '\u{205f}' || c == '\u{3000}'
}

/// The bounds of `chars[from..to]` once the white space around it is left out.
pub fn trim_bounds(chars: &Vec<char>, from: usize, to: usize) -> (bounds: (usize, usize))
    requires
        from <= to <= chars@.len(),
    ensures
        from <= bounds.0 <= bounds.1 <= to,
        chars@.subrange(bounds.0 as int, bounds.1 as int) == trim(
            chars@.subrange(from as int, to as int),
        ),
{
    let mut lo: usize = from;
    let mut hi: usize = to;
    while lo < hi && is_space_char(chars[lo])
        invariant
            from <= lo <= hi,
            hi == to,
            to <= chars@.len(),
            trim_start(chars@.subrange(from as int, to as int)) == trim_start(
                chars@.subrange(lo as int, to as int),
            ),
        decreases hi - lo,
    {
        assert(chars@.subrange(lo as int, to as int).skip(1) =~= chars@.subrange(
            lo + 1,
            to as int,
        ));
        lo += 1;
    }
    let ghost front = chars@.subrange(lo as int, to as int);
    assert(trim_start(front) == front);
    while lo < hi && is_space_char(chars[hi - 1])
        invariant
            from <= lo <= hi <= to <= chars@.len(),
            trim_end(front) == trim_end(chars@.subrange(lo as int, hi as int)),
        decreases hi - lo,
    {
        assert(chars@.subrange(lo as int, hi as int).drop_last() =~= chars@.subrange(
            lo as int,
            hi - 1,
        ));
        hi -= 1;
    }
    (lo, hi)
}

/// `text` without the white space around it.
pub fn trimmed(text: &str) -> (result: String)
    ensures
        result@ == trim(text@),
{
    let chars = chars_of(text);
    let bounds = trim_bounds(&chars, 0, chars.len());
    assert(chars@.subrange(0, chars@.len() as int) =~= text@);
    text_of(&chars, bounds.0, bounds.1)
}

// ── Laws ─────────────────────────────────────────────────────────────────────

/// The text is white space.
pub open spec fn is_blank(text: Seq<char>) -> bool {
    forall|i: int| 0 <= i < text.len() ==> is_space(#[trigger] text[i])
}

proof fn lemma_trim_start(text: Seq<char>) -> (front: Seq<char>)
    ensures
        is_blank(front),
        text == front + trim_start(text),
        trim_start(text).len() > 0 ==> !is_space(trim_start(text)[0]),
    decreases text.len(),
{
    if text.len() > 0 && is_space(text[0]) {
        let more = lemma_trim_start(text.skip(1));
        let front = seq![text[0]] + more;
        assert forall|i: int| 0 <= i < front.len() implies is_space(#[trigger] front[i]) by {
            if i > 0 {
                assert(front[i] == more[i - 1]);
            }
        }
        assert(text =~= seq![text[0]] + text.skip(1));
        assert(text =~= front + trim_start(text));
        front
    } else {
        assert(text =~= Seq::<char>::empty() + text);
        Seq::empty()
    }
}

proof fn lemma_trim_end(text: Seq<char>) -> (back: Seq<char>)
    ensures
        is_blank(back),
        text == trim_end(text) + back,
        trim_end(text).len() > 0 ==> !is_space(trim_end(text).last()) && trim_end(text)[0]
            == text[0],
    decreases text.len(),
{
    if text.len() > 0 && is_space(text.last()) {
        let more = lemma_trim_end(text.drop_last());
        let back = more.push(text.last());
        assert forall|i: int| 0 <= i < back.len() implies is_space(#[trigger] back[i]) by {
            if i < more.len() {
                assert(back[i] == more[i]);
            }
        }
        assert(text =~= text.drop_last().push(text.last()));
        assert(text =~= trim_end(text) + back);
        back
    } else {
        assert(text =~= text + Seq::<char>::empty());
        Seq::empty()
    }
}

/// Trimming takes white space away at both ends, all of it and nothing else.
pub proof fn law_trimming_takes_white_space(text: Seq<char>) -> (ends: (Seq<char>, Seq<char>))
    ensures
        is_blank(ends.0),
        is_blank(ends.1),
        text == ends.0 + trim(text) + ends.1,
        trim(text).len() > 0 ==> !is_space(trim(text)[0]) && !is_space(trim(text).last()),
{
    let front = lemma_trim_start(text);
    let back = lemma_trim_end(trim_start(text));
    assert(text =~= front + trim(text) + back);
    (front, back)
}

/// Small letters take the place of capitals one by one, and nothing else changes.
pub proof fn law_lowering_changes_capitals_only(text: Seq<char>, i: int)
    requires
        0 <= i < text.len(),
    ensures
        lower(text).len() == text.len(),
        !('A' <= lower(text)[i] <= 'Z'),
        'A' <= text[i] <= 'Z' ==> lower(text)[i] as int - 'a' as int == text[i] as int - 'A' as int,
        !('A' <= text[i] <= 'Z') ==> lower(text)[i] == text[i],
{
}

/// The parts with `c` between them.
pub open spec fn rejoined(parts: Seq<Seq<char>>, c: char) -> Seq<char>
    decreases parts.len(),
{
    if parts.len() == 0 {
        Seq::empty()
    } else if parts.len() == 1 {
        parts[0]
    } else {
        rejoined(parts.drop_last(), c) + seq![c] + parts.last()
    }
}

/// A text is split at every `c` and nowhere else: no part holds one, and together they are the
/// text again.
pub proof fn law_parts_make_up_the_text(text: Seq<char>, c: char)
    ensures
        split_on(text, c).len() > 0,
        rejoined(split_on(text, c), c) == text,
        forall|i: int| 0 <= i < split_on(text, c).len() ==> !(#[trigger] split_on(text, c)[i]).contains(c),
    decreases text.len(),
{
    let parts = split_on(text, c);
    if text.len() == 0 {
        assert(rejoined(parts, c) =~= text);
    } else {
        let rest = text.drop_last();
        let before = split_on(rest, c);
        law_parts_make_up_the_text(rest, c);
        assert(text =~= rest.push(text.last()));
        if text.last() == c {
            assert(parts.drop_last() =~= before);
            assert(rejoined(parts, c) =~= rest + seq![c] + Seq::<char>::empty());
            assert(rejoined(parts, c) =~= text);
        } else {
            assert(parts.drop_last() =~= before.drop_last());
            assert(parts.last() == before.last().push(text.last()));
            if before.len() == 1 {
                assert(rejoined(parts, c) =~= text);
            } else {
                let head = rejoined(before.drop_last(), c) + seq![c];
                assert(rejoined(parts, c) =~= (head + before.last()).push(text.last()));
            }
            assert forall|i: int| 0 <= i < parts.len() implies !(#[trigger] parts[i]).contains(
                c,
            ) by {
                if i < before.len() - 1 {
                    assert(parts[i] == before[i]);
                } else {
                    let part = before.last();
                    assert(!part.contains(c)) by {
                        assert(before[before.len() - 1] == part);
                    }
                    if parts[i].contains(c) {
                        let k = parts[i].index_of(c);
                        assert(part[k] == c);
                    }
                }
            }
        }
    }
}

/// What stands on both sides of a `c` is split on its own.
pub proof fn lemma_split_sum(a: Seq<char>, b: Seq<char>, c: char)
    ensures
        split_on(a + seq![c] + b, c) == split_on(a, c) + split_on(b, c),
    decreases b.len(),
{
    let text = a + seq![c] + b;
    lemma_split_on_len(a, c);
    if b.len() == 0 {
        assert(text.drop_last() =~= a);
        assert(split_on(b, c) =~= seq![Seq::empty()]);
        assert(split_on(a, c).push(Seq::empty()) =~= split_on(a, c) + split_on(b, c));
    } else {
        let rest = b.drop_last();
        lemma_split_sum(a, rest, c);
        lemma_split_on_len(rest, c);
        assert(text.drop_last() =~= a + seq![c] + rest);
        let (x, y) = (split_on(a, c), split_on(rest, c));
        assert((x + y).last() == y.last());
        assert((x + y).drop_last() =~= x + y.drop_last());
        if b.last() == c {
            assert((x + y).push(Seq::empty()) =~= x + y.push(Seq::empty()));
        } else {
            let last = y.last().push(b.last());
            assert((x + y.drop_last()).push(last) =~= x + y.drop_last().push(last));
        }
    }
}

/// A text without `c` is one part.
pub proof fn lemma_split_whole(text: Seq<char>, c: char)
    requires
        !text.contains(c),
    ensures
        split_on(text, c) == seq![text],
    decreases text.len(),
{
    if text.len() == 0 {
        assert(text =~= Seq::empty());
    } else {
        let rest = text.drop_last();
        assert(text.last() != c) by {
            assert(text[text.len() - 1] == text.last());
        }
        assert(!rest.contains(c)) by {
            if rest.contains(c) {
                let k = rest.index_of(c);
                assert(text[k] == c);
            }
        }
        lemma_split_whole(rest, c);
        assert(rest.push(text.last()) =~= text);
        assert(seq![rest].drop_last().push(text) =~= seq![text]);
    }
}

/// A number is written in hexadecimal digits that stand for it.
pub proof fn law_hexadecimal_reads_back(n: nat)
    ensures
        hexadecimal(n).len() > 0,
        crate::motions::hex_value(hexadecimal(n)) == Some(n),
    decreases n,
{
    let text = hexadecimal(n);
    if n < 16 {
        assert(text.drop_last() =~= Seq::empty());
        assert(crate::motions::hex_value(text.drop_last()) == Some(0nat));
        assert(text.last() == digit(n));
    } else {
        law_hexadecimal_reads_back(n / 16);
        assert(text.drop_last() =~= hexadecimal(n / 16));
        assert(text.last() == digit(n % 16));
    }
}

/// A number in decimal is read as that number, and one above the limit is not.
pub proof fn law_decimals_read_back(n: nat, max: nat)
    ensures
        number_in(decimal(n), max) == if n <= max {
            Some(n)
        } else {
            None
        },
{
    crate::snapshots::lemma_decimal_digits(n);
}

/// Texts are ordered by the first character in which they differ, and a text comes before its
/// continuations.
pub proof fn law_order_goes_by_the_first_difference(a: Seq<char>, b: Seq<char>, i: int)
    requires
        0 <= i <= a.len(),
        i < b.len(),
        a.take(i) == b.take(i),
        i < a.len() ==> a[i] != b[i],
    ensures
        before(a, b) == (i == a.len() || a[i] < b[i]),
    decreases a.len(),
{
    if i > 0 {
        assert(a.take(i)[0] == a[0] && b.take(i)[0] == b[0]);
        assert(a.skip(1).take(i - 1) =~= a.take(i).skip(1));
        assert(b.skip(1).take(i - 1) =~= b.take(i).skip(1));
        law_order_goes_by_the_first_difference(a.skip(1), b.skip(1), i - 1);
    }
}

/// The white space that is taken away, by code point: no letter, digit or sign of ASCII is among it.
pub proof fn law_white_space_by_code_point(c: char)
    ensures
        is_space(c) <==> seq![9u32, 10, 11, 12, 13, 32, 0x85, 0xa0, 0x1680].contains(c as u32) || (
        0x2000 <= c as u32 <= 0x200a) || seq![0x2028u32, 0x2029, 0x202f, 0x205f, 0x3000].contains(
            c as u32,
        ),
        33 <= c as u32 <= 126 ==> !is_space(c),
        is_digit(c) <==> 48 <= c as u32 <= 57,
{
    let first = seq![9u32, 10, 11, 12, 13, 32, 0x85, 0xa0, 0x1680];
    let second = seq![0x2028u32, 0x2029, 0x202f, 0x205f, 0x3000];
    assert(first[0] == 9 && first[1] == 10 && first[2] == 11 && first[3] == 12 && first[4] == 13);
    assert(first[5] == 32 && first[6] == 0x85 && first[7] == 0xa0 && first[8] == 0x1680);
    assert(second[0] == 0x2028 && second[1] == 0x2029 && second[2] == 0x202f);
    assert(second[3] == 0x205f && second[4] == 0x3000);
}

/// A number with a sign reads back: the digits are those of its size, behind `-` just where it is
/// below 0.
pub proof fn law_signed_numbers_read_back(i: int, max: nat)
    requires
        -max <= i <= max,
    ensures
        signed_decimal(i).len() > 0,
        i >= 0 ==> number_in(signed_decimal(i), max) == Some(i as nat),
        i < 0 ==> signed_decimal(i)[0] == '-' && number_in(signed_decimal(i).skip(1), max) == Some(
            (-i) as nat,
        ),
{
    reveal_strlit("-");
    if i >= 0 {
        law_decimals_read_back(i as nat, max);
        crate::snapshots::lemma_decimal_digits(i as nat);
    } else {
        law_decimals_read_back((-i) as nat, max);
        assert(signed_decimal(i).skip(1) =~= decimal((-i) as nat));
    }
}

/// Hexadecimal numbers are written with the digits `0` to `9` and `a` to `f`, with no `0` in front.
pub proof fn law_hexadecimal_digits(n: nat, i: int)
    requires
        0 <= i < hexadecimal(n).len(),
    ensures
        ({
            let code = hexadecimal(n)[i] as u32;
            48 <= code <= 57 || 97 <= code <= 102
        }),
        n > 0 ==> hexadecimal(n)[0] != '0',
    decreases n,
{
    if n >= 16 {
        law_hexadecimal_reads_back(n / 16);
        if i < hexadecimal(n).len() - 1 {
            law_hexadecimal_digits(n / 16, i);
        } else {
            law_hexadecimal_digits(n / 16, 0);
        }
    }
}

} // verus!
