//! Character sequences: the string operations that the rules are stated with.
use vstd::prelude::*;

verus! {

/// `String::push`: the given character is appended, nothing else changes.
pub assume_specification[ std::string::String::push ](s: &mut std::string::String, c: char)
    ensures
        final(s)@ == old(s)@.push(c),
;

/// The characters of each string of a list.
pub open spec fn texts(v: Seq<String>) -> Seq<Seq<char>> {
    Seq::new(v.len(), |i: int| v[i]@)
}

/// The characters of each entry of a list of character vectors.
pub open spec fn pieces(v: Seq<Vec<char>>) -> Seq<Seq<char>> {
    Seq::new(v.len(), |i: int| v[i]@)
}

/// The characters of an optional string.
pub open spec fn optional(s: Option<String>) -> Option<Seq<char>> {
    match s {
        Some(t) => Some(t@),
        None => None,
    }
}

/// The characters of an optional string slice.
pub open spec fn optional_str(s: Option<&str>) -> Option<Seq<char>> {
    match s {
        Some(t) => Some(t@),
        None => None,
    }
}

/// An ASCII upper-case letter as its lower-case letter; any other character as it is.
pub open spec fn lower_char(c: char) -> char {
    if 'A' <= c && c <= 'Z' {
        (c as int + 32) as char
    } else {
        c
    }
}

/// ASCII lower case, character by character.
pub open spec fn lower(s: Seq<char>) -> Seq<char> {
    Seq::new(s.len(), |i: int| lower_char(s[i]))
}

/// Every occurrence of one character replaced by another.
pub open spec fn replaced(s: Seq<char>, from: char, to: char) -> Seq<char> {
    Seq::new(s.len(), |i: int| if s[i] == from { to } else { s[i] })
}

/// The sequence without the occurrences of one character.
pub open spec fn without(s: Seq<char>, c: char) -> Seq<char>
    decreases s.len(),
{
    if s.len() == 0 {
        s
    } else if s.last() == c {
        without(s.drop_last(), c)
    } else {
        without(s.drop_last(), c).push(s.last())
    }
}

/// The sequence without the given character at its end, however often it stands there.
pub open spec fn trim_end_char(s: Seq<char>, c: char) -> Seq<char>
    decreases s.len(),
{
    if s.len() > 0 && s.last() == c {
        trim_end_char(s.drop_last(), c)
    } else {
        s
    }
}

/// Unicode's White_Space property.
pub open spec fn white_space(c: char) -> bool {
    ||| '\u{9}' <= c && c <= '\u{d}'
    ||| c == '\u{20}'
    ||| c == '\u{85}'
    ||| c == '\u{a0}'
    ||| c == '\u{1680}'
    ||| '\u{2000}' <= c && c <= '\u{200a}'
    ||| c == '\u{2028}'
    ||| c == '\u{2029}'
    ||| c == '\u{202f}'
    ||| c == '\u{205f}'
    ||| c == '\u{3000}'
}

/// The sequence without white space at its end.
pub open spec fn trim_end(s: Seq<char>) -> Seq<char>
    decreases s.len(),
{
    if s.len() > 0 && white_space(s.last()) {
        trim_end(s.drop_last())
    } else {
        s
    }
}

/// The sequence without white space at its beginning.
pub open spec fn trim_start(s: Seq<char>) -> Seq<char>
    decreases s.len(),
{
    if s.len() > 0 && white_space(s.first()) {
        trim_start(s.drop_first())
    } else {
        s
    }
}

/// The sequence without white space at either end.
pub open spec fn trim(s: Seq<char>) -> Seq<char> {
    trim_end(trim_start(s))
}

/// The pieces between the occurrences of a separator: one more than there are separators.
pub open spec fn split(s: Seq<char>, sep: char) -> Seq<Seq<char>>
    decreases s.len(),
{
    if s.len() == 0 {
        seq![Seq::empty()]
    } else {
        let front = split(s.drop_last(), sep);
        if s.last() == sep {
            front.push(Seq::empty())
        } else {
            front.drop_last().push(front.last().push(s.last()))
        }
    }
}

/// Whether `t` is the end of `s`.
pub open spec fn ends_with(s: Seq<char>, t: Seq<char>) -> bool {
    t.len() <= s.len() && s.skip(s.len() - t.len()) == t
}

/// Whether `t` is the beginning of `s`.
pub open spec fn starts_with(s: Seq<char>, t: Seq<char>) -> bool {
    t.len() <= s.len() && s.take(t.len() as int) == t
}

/// Every occurrence of `from` replaced by `to`, found from the left and without overlap.
pub open spec fn replaced_all(s: Seq<char>, from: Seq<char>, to: Seq<char>) -> Seq<char>
    decreases s.len(),
{
    if from.len() == 0 || s.len() < from.len() {
        s
    } else if starts_with(s, from) {
        to + replaced_all(s.skip(from.len() as int), from, to)
    } else {
        seq![s[0]] + replaced_all(s.skip(1), from, to)
    }
}

/// The sequence without `t` at its end, however often it stands there.
pub open spec fn trim_end_text(s: Seq<char>, t: Seq<char>) -> Seq<char>
    decreases s.len(),
{
    if t.len() > 0 && ends_with(s, t) {
        trim_end_text(s.take(s.len() - t.len()), t)
    } else {
        s
    }
}

/// The first characters of a sequence, at most `n` of them.
pub open spec fn at_most(s: Seq<char>, n: int) -> Seq<char> {
    if s.len() <= n {
        s
    } else {
        s.take(n)
    }
}

/// The decimal digit with a value below ten.
pub open spec fn digit(d: int) -> char {
    (48 + d) as char
}

/// A number in decimal, without leading zeros.
pub open spec fn decimal(n: nat) -> Seq<char>
    decreases n,
{
    if n < 10 {
        seq![digit(n as int)]
    } else {
        decimal(n / 10).push(digit((n % 10) as int))
    }
}

/// Whether a character is an ASCII decimal digit.
pub open spec fn is_digit(c: char) -> bool {
    '0' <= c && c <= '9'
}

/// Whether a character is an ASCII hexadecimal digit.
pub open spec fn is_hex(c: char) -> bool {
    is_digit(c) || ('a' <= c && c <= 'f') || ('A' <= c && c <= 'F')
}

/// The number that a sequence of decimal digits denotes.
pub open spec fn digits_value(s: Seq<char>) -> nat
    decreases s.len(),
{
    if s.len() == 0 {
        0
    } else {
        (digits_value(s.drop_last()) * 10 + (s.last() as int - 48)) as nat
    }
}

/// Whether a sequence holds decimal digits and nothing else.
pub open spec fn all_digits(s: Seq<char>) -> bool {
    forall|i: int| 0 <= i < s.len() ==> is_digit(#[trigger] s[i])
}

/// An unsigned 32-bit number as text gives it: at least one decimal digit, an
/// optional plus sign before them, and a value that fits.
pub open spec fn u32_value(s: Seq<char>) -> Option<u32> {
    let digits = if s.len() > 0 && s[0] == '+' { s.skip(1) } else { s };
    if digits.len() > 0 && all_digits(digits) && digits_value(digits) <= u32::MAX {
        Some(digits_value(digits) as u32)
    } else {
        None
    }
}

/// The characters of a string, in order.
pub fn chars_of(s: &str) -> (r: Vec<char>)
    ensures
        r@ == s@,
{
    let mut out: Vec<char> = Vec::new();
    for c in it: s.chars()
        invariant
            out@ == it.seq().take(it.index()),
            it.seq() == s@,
    {
        out.push(c);
        assert(it.seq().take(it.index() + 1) == it.seq().take(it.index()).push(c));
    }
    out
}

/// The string that holds the given characters.
pub fn string_of(v: &Vec<char>) -> (r: String)
    ensures
        r@ == v@,
{
    let mut out = String::new();
    for i in 0..v.len()
        invariant
            out@ == v@.take(i as int),
    {
        out.push(v[i]);
        assert(v@.take(i + 1) == v@.take(i as int).push(v@[i as int]));
    }
    assert(v@.take(v@.len() as int) == v@);
    out
}

/// Whether two strings hold the same characters.
pub fn same(a: &str, b: &str) -> (r: bool)
    ensures
        r == (a@ == b@),
{
    let x = a.to_owned();
    let y = b.to_owned();
    x == y
}

/// Whether a character is white space.
pub fn is_white_space(c: char) -> (r: bool)
    ensures
        r == white_space(c),
{
    ('\u{9}' <= c && c <= '\u{d}') || c == '\u{20}' || c == '\u{85}' || c == '\u{a0}' || c == '\u{1680}'
        || ('\u{2000}' <= c && c <= '\u{200a}') || c == '\u{2028}' || c == '\u{2029}' || c == '\u{202f}'
        || c == '\u{205f}' || c == '\u{3000}'
}

/// A character in ASCII lower case.
pub fn lowered_char(c: char) -> (r: char)
    ensures
        r == lower_char(c),
{
    if 'A' <= c && c <= 'Z' {
        ((c as u8) + 32) as char
    } else {
        c
    }
}

/// The characters in ASCII lower case.
pub fn lowered(v: &Vec<char>) -> (r: Vec<char>)
    ensures
        r@ == lower(v@),
{
    let mut out: Vec<char> = Vec::new();
    for i in 0..v.len()
        invariant
            out@ == lower(v@.take(i as int)),
    {
        out.push(lowered_char(v[i]));
        assert(lower(v@.take(i + 1)) == lower(v@.take(i as int)).push(lower_char(v@[i as int])));
    }
    assert(v@.take(v@.len() as int) == v@);
    out
}

/// The characters with every `from` replaced by `to`.
pub fn with_replaced(v: &Vec<char>, from: char, to: char) -> (r: Vec<char>)
    ensures
        r@ == replaced(v@, from, to),
{
    let mut out: Vec<char> = Vec::new();
    for i in 0..v.len()
        invariant
            out@ == replaced(v@.take(i as int), from, to),
    {
        out.push(if v[i] == from { to } else { v[i] });
        assert(replaced(v@.take(i + 1), from, to) == replaced(v@.take(i as int), from, to).push(
            if v@[i as int] == from { to } else { v@[i as int] },
        ));
    }
    assert(v@.take(v@.len() as int) == v@);
    out
}

/// The characters without the occurrences of `c`.
pub fn with_removed(v: &Vec<char>, c: char) -> (r: Vec<char>)
    ensures
        r@ == without(v@, c),
{
    let mut out: Vec<char> = Vec::new();
    for i in 0..v.len()
        invariant
            out@ == without(v@.take(i as int), c),
    {
        assert(v@.take(i + 1).drop_last() == v@.take(i as int));
        if v[i] != c {
            out.push(v[i]);
        }
    }
    assert(v@.take(v@.len() as int) == v@);
    out
}

/// The characters without `c` at their end.
pub fn trimmed_end_char(v: &Vec<char>, c: char) -> (r: Vec<char>)
    ensures
        r@ == trim_end_char(v@, c),
{
    let mut out = v.clone();
    assert(out@ == v@);
    while out.len() > 0 && out[out.len() - 1] == c
        invariant
            trim_end_char(out@, c) == trim_end_char(v@, c),
        decreases out.len(),
    {
        out.pop();
    }
    out
}

/// The characters without white space at either end.
pub fn trimmed(v: &Vec<char>) -> (r: Vec<char>)
    ensures
        r@ == trim(v@),
{
    let mut start: usize = 0;
    assert(v@.skip(0) == v@);
    while start < v.len() && is_white_space(v[start])
        invariant
            start <= v.len(),
            trim_start(v@.skip(start as int)) == trim_start(v@),
        decreases v.len() - start,
    {
        assert(v@.skip(start as int).drop_first() == v@.skip(start + 1));
        start += 1;
    }
    let mut end: usize = v.len();
    assert(v@.subrange(start as int, end as int) == v@.skip(start as int));
    while end > start && is_white_space(v[end - 1])
        invariant
            start <= end <= v.len(),
            trim_end(v@.subrange(start as int, end as int)) == trim_end(v@.skip(start as int)),
        decreases end,
    {
        assert(v@.subrange(start as int, end as int).drop_last() == v@.subrange(start as int, end - 1));
        end -= 1;
    }
    part(v, start, end)
}

/// The characters from one position up to another.
pub fn part(v: &Vec<char>, from: usize, to: usize) -> (r: Vec<char>)
    requires
        from <= to <= v.len(),
    ensures
        r@ == v@.subrange(from as int, to as int),
{
    let mut out: Vec<char> = Vec::new();
    for i in from..to
        invariant
            from <= to <= v.len(),
            out@ == v@.subrange(from as int, i as int),
    {
        out.push(v[i]);
        assert(v@.subrange(from as int, i + 1) == v@.subrange(from as int, i as int).push(v@[i as int]));
    }
    out
}

/// Splitting gives at least one piece.
pub proof fn lemma_split_nonempty(s: Seq<char>, sep: char)
    ensures
        split(s, sep).len() > 0,
    decreases s.len(),
{
    if s.len() > 0 {
        lemma_split_nonempty(s.drop_last(), sep);
    }
}

/// The pieces between the occurrences of a separator.
pub fn split_at(v: &Vec<char>, sep: char) -> (r: Vec<Vec<char>>)
    ensures
        pieces(r@) == split(v@, sep),
{
    let mut out: Vec<Vec<char>> = Vec::new();
    let mut current: Vec<char> = Vec::new();
    assert(v@.take(0) == Seq::<char>::empty());
    assert(pieces(out@).push(current@) == split(v@.take(0), sep));
    for i in 0..v.len()
        invariant
            pieces(out@).push(current@) == split(v@.take(i as int), sep),
    {
        let ghost before = pieces(out@);
        assert(v@.take(i + 1).drop_last() == v@.take(i as int));
        assert(before.push(current@).drop_last() == before);
        if v[i] == sep {
            let ghost done = current@;
            out.push(current);
            assert(pieces(out@) == before.push(done));
            current = Vec::new();
        } else {
            current.push(v[i]);
        }
    }
    assert(v@.take(v@.len() as int) == v@);
    let ghost before = pieces(out@);
    let ghost done = current@;
    out.push(current);
    assert(pieces(out@) == before.push(done));
    out
}

/// Whether two character vectors are equal.
pub fn same_chars(a: &Vec<char>, b: &Vec<char>) -> (r: bool)
    ensures
        r == (a@ == b@),
{
    if a.len() != b.len() {
        return false;
    }
    for i in 0..a.len()
        invariant
            a.len() == b.len(),
            forall|j: int| 0 <= j < i ==> a@[j] == b@[j],
    {
        if a[i] != b[i] {
            return false;
        }
    }
    assert(a@ == b@);
    true
}

/// Whether `t` is the end of `s`.
pub fn has_end(s: &Vec<char>, t: &Vec<char>) -> (r: bool)
    ensures
        r == ends_with(s@, t@),
{
    if t.len() > s.len() {
        return false;
    }
    let shift: usize = s.len() - t.len();
    for i in 0..t.len()
        invariant
            shift == s.len() - t.len(),
            t.len() <= s.len(),
            forall|j: int| 0 <= j < i ==> s@[shift + j] == t@[j],
    {
        if s[shift + i] != t[i] {
            assert(s@.skip(shift as int)[i as int] != t@[i as int]);
            return false;
        }
    }
    assert(s@.skip(shift as int) == t@);
    true
}

/// Whether `t` is the beginning of `s`.
pub fn has_start(s: &Vec<char>, t: &Vec<char>) -> (r: bool)
    ensures
        r == starts_with(s@, t@),
{
    if t.len() > s.len() {
        return false;
    }
    for i in 0..t.len()
        invariant
            t.len() <= s.len(),
            forall|j: int| 0 <= j < i ==> s@[j] == t@[j],
    {
        if s[i] != t[i] {
            assert(s@.take(t@.len() as int)[i as int] != t@[i as int]);
            return false;
        }
    }
    assert(s@.take(t@.len() as int) == t@);
    true
}

/// Whether a string begins with another.
pub fn begins(s: &str, t: &str) -> (r: bool)
    ensures
        r == starts_with(s@, t@),
{
    let a = chars_of(s);
    let b = chars_of(t);
    has_start(&a, &b)
}

/// Whether a string holds a character.
pub fn has_char(s: &str, c: char) -> (r: bool)
    ensures
        r == s@.contains(c),
{
    let v = chars_of(s);
    for i in 0..v.len()
        invariant
            v@ == s@,
            forall|j: int| 0 <= j < i ==> v@[j] != c,
    {
        if v[i] == c {
            assert(s@[i as int] == c);
            return true;
        }
    }
    false
}

/// A string in ASCII lower case.
pub fn lowercase(s: &str) -> (r: String)
    ensures
        r@ == lower(s@),
{
    let v = chars_of(s);
    string_of(&lowered(&v))
}

/// A string without white space at either end.
pub fn trimmed_str(s: &str) -> (r: String)
    ensures
        r@ == trim(s@),
{
    let v = chars_of(s);
    string_of(&trimmed(&v))
}

/// Two strings, one after the other.
pub fn join(a: &str, b: &str) -> (r: String)
    ensures
        r@ == a@ + b@,
{
    let mut out = a.to_owned();
    out.append(b);
    out
}

/// Every occurrence of a text replaced by another.
pub fn with_replaced_all(v: &Vec<char>, from: &Vec<char>, to: &Vec<char>) -> (r: Vec<char>)
    requires
        from.len() > 0,
    ensures
        r@ == replaced_all(v@, from@, to@),
{
    let mut out: Vec<char> = Vec::new();
    let mut i: usize = 0;
    assert(v@.skip(0) == v@);
    while v.len() - i >= from.len()
        invariant
            from.len() > 0,
            i <= v.len(),
            out@ + replaced_all(v@.skip(i as int), from@, to@) == replaced_all(v@, from@, to@),
        decreases v.len() - i,
    {
        let rest = part(v, i, v.len());
        assert(rest@ == v@.skip(i as int));
        if has_start(&rest, from) {
            let ghost before = out@;
            let mut k: usize = 0;
            while k < to.len()
                invariant
                    k <= to.len(),
                    out@ == before + to@.take(k as int),
                decreases to.len() - k,
            {
                out.push(to[k]);
                k += 1;
                assert(to@.take(k as int) == to@.take(k - 1).push(to@[k - 1]));
            }
            assert(to@.take(k as int) == to@);
            assert(v@.skip(i as int).skip(from@.len() as int) == v@.skip(i + from@.len()));
            i = i + from.len();
            assert(out@ + replaced_all(v@.skip(i as int), from@, to@) == before + (to@ + replaced_all(
                v@.skip(i as int),
                from@,
                to@,
            )));
        } else {
            let ghost before = out@;
            out.push(v[i]);
            assert(v@.skip(i as int).skip(1) == v@.skip(i + 1));
            i += 1;
            assert(out@ + replaced_all(v@.skip(i as int), from@, to@) == before + (seq![v@[i - 1]] + replaced_all(
                v@.skip(i as int),
                from@,
                to@,
            )));
        }
    }
    let ghost before = out@;
    let ghost rest = v@.skip(i as int);
    let ghost start = i as int;
    while i < v.len()
        invariant
            0 <= start <= i <= v.len(),
            rest == v@.skip(start),
            out@ == before + rest.take(i - start),
        decreases v.len() - i,
    {
        out.push(v[i]);
        i += 1;
        assert(rest.take(i - start) == rest.take(i - start - 1).push(v@[i - 1]));
    }
    assert(rest.take(i - start) == rest);
    out
}

/// The characters without a text at their end.
pub fn trimmed_end_text(v: &Vec<char>, t: &Vec<char>) -> (r: Vec<char>)
    requires
        t.len() > 0,
    ensures
        r@ == trim_end_text(v@, t@),
{
    let mut end: usize = v.len();
    assert(v@.take(v@.len() as int) == v@);
    let mut out = part(v, 0, end);
    while has_end(&out, t)
        invariant
            t.len() > 0,
            trim_end_text(out@, t@) == trim_end_text(v@, t@),
        decreases out.len(),
    {
        end = out.len() - t.len();
        let next = part(&out, 0, end);
        assert(next@ == out@.take(out@.len() - t@.len()));
        out = next;
    }
    out
}

/// The first characters of a string, at most `n` of them.
pub fn limited(s: &str, n: usize) -> (r: String)
    ensures
        r@ == at_most(s@, n as int),
{
    let v = chars_of(s);
    if v.len() <= n {
        string_of(&v)
    } else {
        string_of(&part(&v, 0, n))
    }
}

/// A number in decimal.
pub fn decimal_of(n: u64) -> (r: String)
    ensures
        r@ == decimal(n as nat),
    decreases n,
{
    let d = (48u8 + (n % 10) as u8) as char;
    if n < 10 {
        let mut out = String::new();
        out.push(d);
        assert(out@ == decimal(n as nat));
        out
    } else {
        let mut out = decimal_of(n / 10);
        out.push(d);
        out
    }
}

/// The value of digits only grows as digits follow.
proof fn lemma_digits_value_grows(s: Seq<char>, n: int)
    requires
        0 <= n <= s.len(),
        all_digits(s),
    ensures
        digits_value(s.take(n)) <= digits_value(s),
    decreases s.len() - n,
{
    if n < s.len() {
        assert(s.take(n + 1).drop_last() == s.take(n));
        assert(is_digit(s[n]));
        lemma_digits_value_grows(s, n + 1);
    } else {
        assert(s.take(n) == s);
    }
}

/// An unsigned 32-bit number from its text.
pub fn u32_of(v: &Vec<char>) -> (r: Option<u32>)
    ensures
        r == u32_value(v@),
{
    let start: usize = if v.len() > 0 && v[0] == '+' { 1 } else { 0 };
    let ghost digits = if v@.len() > 0 && v@[0] == '+' { v@.skip(1) } else { v@ };
    assert(digits == v@.skip(start as int));
    if start == v.len() {
        return None;
    }
    let mut value: u32 = 0;
    for i in start..v.len()
        invariant
            start <= v.len(),
            digits == v@.skip(start as int),
            value == digits_value(digits.take(i - start)),
            forall|j: int| 0 <= j < i - start ==> is_digit(#[trigger] digits[j]),
            u32_value(v@) == (if digits.len() > 0 && all_digits(digits) && digits_value(digits) <= u32::MAX {
                Some(digits_value(digits) as u32)
            } else {
                None
            }),
    {
        let c = v[i];
        assert(digits[i - start] == c);
        if c < '0' || c > '9' {
            assert(!is_digit(digits[i - start]));
            return None;
        }
        let d: u32 = c as u32 - 48;
        proof {
            assert(digits.take(i + 1 - start).drop_last() == digits.take(i - start));
            if all_digits(digits) {
                lemma_digits_value_grows(digits, i + 1 - start);
            }
        }
        if value > u32::MAX / 10 || value * 10 > u32::MAX - d {
            return None;
        }
        value = value * 10 + d;
    }
    assert(digits.take(digits.len() as int) == digits);
    Some(value)
}

/// The strings of a list, once more.
pub fn copies(v: &Vec<String>) -> (r: Vec<String>)
    ensures
        texts(r@) == texts(v@),
{
    let mut out: Vec<String> = Vec::new();
    for i in 0..v.len()
        invariant
            texts(out@) == texts(v@.take(i as int)),
    {
        let ghost before = out@;
        out.push(v[i].clone());
        assert(texts(out@) == texts(before).push(v@[i as int]@));
        assert(texts(v@.take(i + 1)) == texts(v@.take(i as int)).push(v@[i as int]@));
    }
    assert(v@.take(v@.len() as int) == v@);
    out
}

/// Lower case keeps the length and every character that is no ASCII capital; a capital
/// becomes the letter 32 places further.
pub proof fn law_lower_changes_capitals_only(s: Seq<char>, i: int)
    requires
        0 <= i < s.len(),
    ensures
        lower(s).len() == s.len(),
        65 <= s[i] as int <= 90 ==> lower(s)[i] as int == s[i] as int + 32,
        !(65 <= s[i] as int <= 90) ==> lower(s)[i] == s[i],
{
}

/// The characters that count as white space, by their numbers.
pub proof fn law_white_space_characters(c: char)
    ensures
        white_space(c) <==> {
            ||| 9 <= c as int <= 13
            ||| c as int == 32 || c as int == 133 || c as int == 160 || c as int == 5760
            ||| 8192 <= c as int <= 8202
            ||| c as int == 8232 || c as int == 8233 || c as int == 8239 || c as int == 8287 || c as int == 12288
        },
{
}

proof fn lemma_trim_start_parts(s: Seq<char>) -> (n: int)
    ensures
        0 <= n <= s.len(),
        trim_start(s) == s.skip(n),
        forall|i: int| 0 <= i < n ==> white_space(#[trigger] s[i]),
        n < s.len() ==> !white_space(s[n]),
    decreases s.len(),
{
    if s.len() > 0 && white_space(s.first()) {
        let rest = s.drop_first();
        let n = lemma_trim_start_parts(rest);
        assert(rest.skip(n) =~= s.skip(n + 1));
        assert forall|i: int| 0 <= i < n + 1 implies white_space(#[trigger] s[i]) by {
            if i > 0 {
                assert(white_space(rest[i - 1]));
            }
        }
        n + 1
    } else {
        assert(s.skip(0) =~= s);
        0
    }
}

proof fn lemma_trim_end_parts(s: Seq<char>) -> (n: int)
    ensures
        0 <= n <= s.len(),
        trim_end(s) == s.take(n),
        forall|i: int| n <= i < s.len() ==> white_space(#[trigger] s[i]),
        n > 0 ==> !white_space(s[n - 1]),
    decreases s.len(),
{
    if s.len() > 0 && white_space(s.last()) {
        let rest = s.drop_last();
        let n = lemma_trim_end_parts(rest);
        assert(rest.take(n) =~= s.take(n));
        assert forall|i: int| n <= i < s.len() implies white_space(#[trigger] s[i]) by {
            if i < rest.len() {
                assert(white_space(rest[i]));
            }
        }
        n
    } else {
        assert(s.take(s.len() as int) =~= s);
        s.len() as int
    }
}

/// Trimming takes white space off both ends, all of it and nothing else: what is left is the
/// text from its first other character to its last one.
pub proof fn law_trim_cuts_white_space_off(s: Seq<char>, from: int, to: int)
    requires
        0 <= from < to <= s.len(),
        forall|i: int| 0 <= i < from ==> white_space(#[trigger] s[i]),
        forall|i: int| to <= i < s.len() ==> white_space(#[trigger] s[i]),
        !white_space(s[from]),
        !white_space(s[to - 1]),
    ensures
        trim(s) == s.subrange(from, to),
{
    let a = lemma_trim_start_parts(s);
    assert(a == from) by {
        if a < from {
            assert(white_space(s[a]));
        } else if from < a {
            assert(white_space(s[from]));
        }
    }
    let rest = s.skip(from);
    let b = lemma_trim_end_parts(rest);
    assert(b == to - from) by {
        if b < to - from {
            assert(white_space(rest[to - 1 - from]));
            assert(rest[to - 1 - from] == s[to - 1]);
        } else if b > to - from {
            assert(rest[b - 1] == s[from + b - 1]);
            assert(white_space(s[from + b - 1]));
        }
    }
    assert(rest.take(b) =~= s.subrange(from, to));
}

/// A text of white space alone is trimmed to nothing.
pub proof fn law_white_space_is_trimmed_away(s: Seq<char>)
    requires
        forall|i: int| 0 <= i < s.len() ==> white_space(#[trigger] s[i]),
    ensures
        trim(s).len() == 0,
{
    let a = lemma_trim_start_parts(s);
    if a < s.len() {
        assert(white_space(s[a]));
    }
    assert(trim_start(s).len() == 0);
}

/// Cutting a character off the end leaves the text up to the last other character.
pub proof fn law_end_is_cut_off(s: Seq<char>, c: char, n: int)
    requires
        0 <= n <= s.len(),
        forall|i: int| n <= i < s.len() ==> #[trigger] s[i] == c,
        n > 0 ==> s[n - 1] != c,
    ensures
        trim_end_char(s, c) == s.take(n),
    decreases s.len(),
{
    if n < s.len() {
        assert(s[s.len() - 1] == c);
        let front = s.drop_last();
        law_end_is_cut_off(front, c, n);
        assert(front.take(n) =~= s.take(n));
    } else {
        assert(s.take(n) =~= s);
    }
}

/// A text ends with another exactly where it is something followed by the other.
pub proof fn law_ends_are_what_follows(head: Seq<char>, s: Seq<char>, t: Seq<char>)
    ensures
        ends_with(head + t, t),
        ends_with(s, t) ==> s == s.take(s.len() - t.len()) + t,
{
    assert((head + t).skip((head + t).len() - t.len()) =~= t);
    if ends_with(s, t) {
        assert(s =~= s.take(s.len() - t.len()) + s.skip(s.len() - t.len()));
    }
}

/// A text starts with another exactly where it is the other followed by something.
pub proof fn law_starts_are_what_leads(s: Seq<char>, t: Seq<char>, tail: Seq<char>)
    ensures
        starts_with(t + tail, t),
        starts_with(s, t) ==> s == t + s.skip(t.len() as int),
{
    assert((t + tail).take(t.len() as int) =~= t);
    if starts_with(s, t) {
        assert(s =~= s.take(t.len() as int) + s.skip(t.len() as int));
    }
}

/// Pieces with a separator between them.
pub open spec fn joined(parts: Seq<Seq<char>>, sep: char) -> Seq<char>
    decreases parts.len(),
{
    if parts.len() == 0 {
        Seq::empty()
    } else if parts.len() == 1 {
        parts[0]
    } else {
        joined(parts.drop_last(), sep).push(sep) + parts.last()
    }
}

/// The pieces of a text hold no separator, and with separators between them they give the
/// text again.
pub proof fn law_split_pieces_make_the_text(s: Seq<char>, sep: char)
    ensures
        split(s, sep).len() > 0,
        joined(split(s, sep), sep) == s,
        forall|i: int| 0 <= i < split(s, sep).len() ==> !(#[trigger] split(s, sep)[i]).contains(sep),
    decreases s.len(),
{
    let all = split(s, sep);
    if s.len() == 0 {
        assert(all =~= seq![Seq::<char>::empty()]);
        assert(joined(all, sep) =~= s);
    } else {
        let front = split(s.drop_last(), sep);
        law_split_pieces_make_the_text(s.drop_last(), sep);
        if s.last() == sep {
            assert(all.drop_last() =~= front);
            assert(joined(all, sep) =~= s);
        } else {
            let last = front.last().push(s.last());
            assert(all == front.drop_last().push(last));
            assert(all.drop_last() =~= front.drop_last());
            assert(!last.contains(sep)) by {
                assert(!front[front.len() - 1].contains(sep));
                if last.contains(sep) {
                    let k = choose|k: int| 0 <= k < last.len() && last[k] == sep;
                    assert(front.last()[k] == sep);
                }
            }
            if front.len() == 1 {
                assert(joined(all, sep) =~= s);
            } else {
                assert(joined(all, sep) =~= joined(front, sep).push(s.last()));
                assert(joined(all, sep) =~= s);
            }
            assert forall|i: int| 0 <= i < all.len() implies !(#[trigger] all[i]).contains(sep) by {
                if i < front.len() - 1 {
                    assert(!front[i].contains(sep));
                }
            }
        }
    }
}

/// A character is put in the place of another wherever that stands, and nothing else changes.
pub proof fn law_replacing_is_place_by_place(s: Seq<char>, from: char, to: char, i: int)
    requires
        0 <= i < s.len(),
    ensures
        replaced(s, from, to).len() == s.len(),
        s[i] == from ==> replaced(s, from, to)[i] == to,
        s[i] != from ==> replaced(s, from, to)[i] == s[i],
{
}

/// Leaving a character out of two texts one after the other is leaving it out of each; of a
/// single character it leaves all or nothing.
pub proof fn law_leaving_out_is_place_by_place(a: Seq<char>, b: Seq<char>, c: char, d: char)
    ensures
        without(a + b, c) == without(a, c) + without(b, c),
        without(seq![c], c).len() == 0,
        d != c ==> without(seq![d], c) == seq![d],
        !without(a, c).contains(c),
    decreases b.len(),
{
    reveal_with_fuel(without, 2);
    assert(seq![c].drop_last() =~= Seq::<char>::empty());
    assert(seq![d].drop_last() =~= Seq::<char>::empty());
    assert(d != c ==> without(seq![d], c) =~= seq![d]);
    lemma_without_lacks(a, c);
    if b.len() == 0 {
        assert(a + b =~= a);
        assert(without(a, c) + without(b, c) =~= without(a, c));
    } else {
        assert((a + b).drop_last() =~= a + b.drop_last());
        law_leaving_out_is_place_by_place(a, b.drop_last(), c, d);
        assert((a + b).last() == b.last());
        assert(without(a + b, c) =~= without(a, c) + without(b, c));
    }
}

proof fn lemma_without_lacks(s: Seq<char>, c: char)
    ensures
        !without(s, c).contains(c),
    decreases s.len(),
{
    if s.len() > 0 {
        lemma_without_lacks(s.drop_last(), c);
        let front = without(s.drop_last(), c);
        if s.last() != c && front.push(s.last()).contains(c) {
            let all = front.push(s.last());
            let k = choose|k: int| 0 <= k < all.len() && all[k] == c;
            assert(front[k] == c);
        }
    }
}

/// A text that is too long is cut to its beginning, and no other text is changed.
pub proof fn law_limits_keep_the_beginning(s: Seq<char>, n: int)
    requires
        n >= 0,
    ensures
        s.len() <= n ==> at_most(s, n) == s,
        s.len() > n ==> at_most(s, n).len() == n,
        forall|i: int| 0 <= i < at_most(s, n).len() ==> #[trigger] at_most(s, n)[i] == s[i],
{
}

/// A number is written with the digits that denote it, and without a leading zero.
pub proof fn law_decimal_denotes_its_number(n: nat)
    ensures
        decimal(n).len() > 0,
        all_digits(decimal(n)),
        digits_value(decimal(n)) == n,
        n > 0 ==> decimal(n)[0] != '0',
        n <= u32::MAX ==> u32_value(decimal(n)) == Some(n as u32),
    decreases n,
{
    reveal_with_fuel(digits_value, 2);
    let d = decimal(n);
    if n < 10 {
        assert(d.drop_last() =~= Seq::<char>::empty());
        assert(digits_value(d) == n);
    } else {
        law_decimal_denotes_its_number(n / 10);
        assert(d.drop_last() =~= decimal(n / 10));
        assert(d.last() as int == 48 + n % 10);
        assert(d[0] == decimal(n / 10)[0]);
        assert forall|i: int| 0 <= i < d.len() implies is_digit(#[trigger] d[i]) by {
            if i < d.len() - 1 {
                assert(is_digit(decimal(n / 10)[i]));
            }
        }
    }
    assert(is_digit(d[0]));
}

/// A text is a number exactly where it holds at least one decimal digit, nothing but digits
/// after an optional plus sign, and no more than fits.
pub proof fn law_numbers_are_digits(s: Seq<char>, i: int)
    ensures
        u32_value(s) is Some ==> s.len() > 0,
        u32_value(s) is Some && 0 < i < s.len() ==> 48 <= s[i] as int <= 57,
        u32_value(s) is Some ==> 48 <= s[0] as int <= 57 || (s[0] == '+' && s.len() > 1),
        u32_value(seq!['+'] + s) is Some ==> u32_value(s) == u32_value(seq!['+'] + s),
{
    if u32_value(s) is Some {
        if s[0] == '+' {
            let digits = s.skip(1);
            if 0 < i < s.len() {
                assert(is_digit(digits[i - 1]));
            }
        } else {
            assert(is_digit(s[0]));
            if 0 < i < s.len() {
                assert(is_digit(s[i]));
            }
        }
    }
    let signed = seq!['+'] + s;
    assert(signed.skip(1) =~= s);
    if u32_value(signed) is Some {
        assert(is_digit(s[0]));
    }
}

/// A text that stands at the beginning is replaced, and then what follows it; a text that begins with
/// another character keeps it.
pub proof fn law_occurrences_are_replaced_from_the_left(
    s: Seq<char>,
    from: Seq<char>,
    to: Seq<char>,
    c: char,
)
    requires
        from.len() > 0,
    ensures
        replaced_all(from + s, from, to) == to + replaced_all(s, from, to),
        c != from[0] ==> replaced_all(seq![c] + s, from, to) == seq![c] + replaced_all(s, from, to),
        replaced_all(Seq::empty(), from, to) == Seq::<char>::empty(),
{
    let whole = from + s;
    assert(whole.take(from.len() as int) =~= from);
    assert(whole.skip(from.len() as int) =~= s);
    let other = seq![c] + s;
    assert(other.skip(1) =~= s);
    if c != from[0] {
        if starts_with(other, from) {
            assert(other.take(from.len() as int)[0] == c);
        }
        if other.len() < from.len() {
            assert(replaced_all(s, from, to) == s);
        }
    }
}

/// A text is cut off the end of another as often as it stands there, and not once more.
pub proof fn law_ends_are_cut_off_again_and_again(s: Seq<char>, t: Seq<char>)
    requires
        t.len() > 0,
    ensures
        trim_end_text(s + t, t) == trim_end_text(s, t),
        !ends_with(s, t) ==> trim_end_text(s, t) == s,
{
    let whole = s + t;
    assert(whole.skip(whole.len() - t.len()) =~= t);
    assert(whole.take(whole.len() - t.len()) =~= s);
}

/// The hexadecimal digits are the ten digits and the first six letters, small or capital.
pub proof fn law_hexadecimal_digits_are_sixteen(c: char)
    ensures
        is_hex(c) <==> 48 <= c as int <= 57 || 65 <= c as int <= 70 || 97 <= c as int <= 102,
{
}

} // verus!
