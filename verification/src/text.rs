//! Text helpers: digits, searching, letter case.

use vstd::prelude::*;
use vstd::string::{StrSliceExecFns, StringExecFns};

verus! {

/// The character of digit `d`, below 16; letters are upper case.
pub open spec fn digit_char(d: int) -> char {
    if d < 10 {
        (48 + d) as char
    } else {
        (55 + d) as char
    }
}

/// The bytes of a text in UTF-8.
pub open spec fn utf8(s: Seq<char>) -> Seq<u8> {
    vstd::utf8::encode_utf8(s)
}

/// `n` in decimal, without leading zeros.
pub open spec fn decimal_text(n: nat) -> Seq<char>
    decreases n,
{
    if n < 10 {
        seq![digit_char(n as int)]
    } else {
        decimal_text(n / 10).push(digit_char((n % 10) as int))
    }
}

/// `v` as two upper-case hexadecimal digits.
pub open spec fn hex2_text(v: u8) -> Seq<char> {
    seq![digit_char(v as int / 16), digit_char(v as int % 16)]
}

/// `v` as four upper-case hexadecimal digits.
pub open spec fn hex4_text(v: u16) -> Seq<char> {
    hex2_text((v / 256) as u8) + hex2_text((v % 256) as u8)
}

/// Digit `d` as text.
pub fn digit(d: u8) -> (r: &'static str)
    requires
        d < 16,
    ensures
        r@ == seq![digit_char(d as int)],
{
    proof {
        reveal_strlit("0");
        reveal_strlit("1");
        reveal_strlit("2");
        reveal_strlit("3");
        reveal_strlit("4");
        reveal_strlit("5");
        reveal_strlit("6");
        reveal_strlit("7");
        reveal_strlit("8");
        reveal_strlit("9");
        reveal_strlit("A");
        reveal_strlit("B");
        reveal_strlit("C");
        reveal_strlit("D");
        reveal_strlit("E");
        reveal_strlit("F");
    }
    let r = match d {
        0 => "0",
        1 => "1",
        2 => "2",
        3 => "3",
        4 => "4",
        5 => "5",
        6 => "6",
        7 => "7",
        8 => "8",
        9 => "9",
        10 => "A",
        11 => "B",
        12 => "C",
        13 => "D",
        14 => "E",
        _ => "F",
    };
    assert(r@ =~= seq![digit_char(d as int)]);
    r
}

/// Append `n` in decimal.
pub fn push_decimal(out: &mut String, n: u64)
    ensures
        final(out)@ == old(out)@ + decimal_text(n as nat),
    decreases n,
{
    if n >= 10 {
        push_decimal(out, n / 10);
    }
    out.append(digit((n % 10) as u8));
    assert(out@ =~= old(out)@ + decimal_text(n as nat));
}

/// Append `v` as two hexadecimal digits.
pub fn push_hex2(out: &mut String, v: u8)
    ensures
        final(out)@ == old(out)@ + hex2_text(v),
{
    out.append(digit(v / 16));
    out.append(digit(v % 16));
    assert(out@ =~= old(out)@ + hex2_text(v));
}

/// Append `v` as four hexadecimal digits.
pub fn push_hex4(out: &mut String, v: u16)
    ensures
        final(out)@ == old(out)@ + hex4_text(v),
{
    push_hex2(out, (v / 256) as u8);
    push_hex2(out, (v % 256) as u8);
    assert(out@ =~= old(out)@ + hex4_text(v));
}

/// `a` followed by `b`.
pub fn joined(a: &str, b: &str) -> (r: String)
    ensures
        r@ == a@ + b@,
{
    let mut out = a.to_owned();
    out.append(b);
    out
}

/// A copy of a text, where there is one.
pub fn copied(value: &Option<String>) -> (r: Option<String>)
    ensures
        r == *value,
{
    match value {
        Some(v) => Some(v.clone()),
        None => None,
    }
}

/// The characters of `s`.
pub fn chars_of(s: &str) -> (r: Vec<char>)
    ensures
        r@ == s@,
{
    let mut r: Vec<char> = Vec::new();
    for c in it: s.chars()
        invariant
            it.seq() == s@,
            r@ == s@.subrange(0, it.index() as int),
    {
        r.push(c);
        assert(r@ =~= s@.subrange(0, it.index() + 1));
    }
    assert(r@ =~= s@);
    r
}

/// Whether `needle` stands in `hay` at place `at`.
pub open spec fn stands_at(hay: Seq<char>, needle: Seq<char>, at: int) -> bool {
    &&& 0 <= at
    &&& at + needle.len() <= hay.len()
    &&& hay.subrange(at, at + needle.len()) == needle
}

/// Whether `needle` stands anywhere in `hay`.
pub open spec fn holds(hay: Seq<char>, needle: Seq<char>) -> bool {
    exists|at: int| stands_at(hay, needle, at)
}

/// Whether `needle` stands in `hay` at place `at`.
fn found_at(hay: &Vec<char>, needle: &Vec<char>, at: usize) -> (r: bool)
    requires
        at + needle@.len() <= hay@.len(),
    ensures
        r == stands_at(hay@, needle@, at as int),
{
    let mut i: usize = 0;
    while i < needle.len()
        invariant
            at + needle.len() <= hay.len(),
            i <= needle.len(),
            forall|j: int| 0 <= j < i ==> hay@[at + j] == needle@[j],
        decreases needle@.len() - i,
    {
        if hay[at + i] != needle[i] {
            assert(hay@.subrange(at as int, at + needle@.len())[i as int] != needle@[i as int]);
            return false;
        }
        i = i + 1;
    }
    assert(hay@.subrange(at as int, at + needle@.len()) =~= needle@);
    true
}

/// Whether `needle` stands anywhere in `hay`.
pub fn contains(hay: &str, needle: &str) -> (r: bool)
    ensures
        r == holds(hay@, needle@),
{
    let hay_chars = chars_of(hay);
    let needle_chars = chars_of(needle);
    if needle_chars.len() > hay_chars.len() {
        return false;
    }
    let last: usize = hay_chars.len() - needle_chars.len();
    let mut at: usize = 0;
    loop
        invariant
            hay_chars@ == hay@,
            needle_chars@ == needle@,
            last + needle@.len() == hay@.len(),
            at <= last,
            forall|i: int| 0 <= i < at ==> !#[trigger] stands_at(hay@, needle@, i),
        decreases last - at,
    {
        if found_at(&hay_chars, &needle_chars, at) {
            return true;
        }
        if at == last {
            assert forall|i: int| !#[trigger] stands_at(hay@, needle@, i) by {}
            return false;
        }
        at = at + 1;
    }
}

/// Whether a character is an ASCII one.
pub open spec fn ascii(c: char) -> bool {
    c as int <= 0x7f
}

/// A character in lower case, where it is an ASCII letter.
pub open spec fn ascii_lower(c: char) -> char {
    if 65 <= c as int <= 90 {
        (c as int + 32) as char
    } else {
        c
    }
}

/// A character in lower case, where it is an ASCII letter.
fn lower_ascii(c: char) -> (r: char)
    ensures
        r == ascii_lower(c),
{
    match c {
        'A' => 'a',
        'B' => 'b',
        'C' => 'c',
        'D' => 'd',
        'E' => 'e',
        'F' => 'f',
        'G' => 'g',
        'H' => 'h',
        'I' => 'i',
        'J' => 'j',
        'K' => 'k',
        'L' => 'l',
        'M' => 'm',
        'N' => 'n',
        'O' => 'o',
        'P' => 'p',
        'Q' => 'q',
        'R' => 'r',
        'S' => 's',
        'T' => 't',
        'U' => 'u',
        'V' => 'v',
        'W' => 'w',
        'X' => 'x',
        'Y' => 'y',
        'Z' => 'z',
        _ => c,
    }
}

/// Whether two texts are equal but for the case of ASCII letters.
pub fn eq_ignore_ascii_case(a: &str, b: &str) -> (r: bool)
    ensures
        r == (a@.map_values(|c: char| ascii_lower(c)) == b@.map_values(|c: char| ascii_lower(c))),
{
    let a_chars = chars_of(a);
    let b_chars = chars_of(b);
    let ghost a_low = a@.map_values(|c: char| ascii_lower(c));
    let ghost b_low = b@.map_values(|c: char| ascii_lower(c));
    if a_chars.len() != b_chars.len() {
        assert(a_low.len() != b_low.len());
        return false;
    }
    let mut i: usize = 0;
    while i < a_chars.len()
        invariant
            a_chars@ == a@,
            b_chars@ == b@,
            a_low == a@.map_values(|c: char| ascii_lower(c)),
            b_low == b@.map_values(|c: char| ascii_lower(c)),
            a@.len() == b@.len(),
            i <= a@.len(),
            forall|j: int| 0 <= j < i ==> a_low[j] == b_low[j],
        decreases a@.len() - i,
    {
        if lower_ascii(a_chars[i]) != lower_ascii(b_chars[i]) {
            assert(a_low[i as int] != b_low[i as int]);
            return false;
        }
        i = i + 1;
    }
    assert(a_low =~= b_low);
    true
}

/// What `str::to_lowercase` makes of a text.
pub uninterp spec fn lowered(s: Seq<char>) -> Seq<char>;

/// `str::to_lowercase` of the standard library.
///
/// The result follows Unicode and has a name of its own; text of ASCII
/// characters alone has each letter mapped to the lower-case one.
#[verifier::external_body]
pub(crate) fn to_lowercase(s: &str) -> (r: String)
    ensures
        r@ == lowered(s@),
        (forall|i: int| 0 <= i < s@.len() ==> ascii(#[trigger] s@[i])) ==> r@ == s@.map_values(
            |c: char| ascii_lower(c),
        ),
{
    s.to_lowercase()
}

/// Whether a character has the Unicode property White_Space.
pub open spec fn white(c: char) -> bool {
    let code = c as int;
    ||| 0x9 <= code <= 0xD
    ||| code == 0x20
    ||| code == 0x85
    ||| code == 0xA0
    ||| code == 0x1680
    ||| 0x2000 <= code <= 0x200A
    ||| code == 0x2028
    ||| code == 0x2029
    ||| code == 0x202F
    ||| code == 0x205F
    ||| code == 0x3000
}

/// `char::is_whitespace` of the standard library: whether a character has the
/// Unicode property White_Space, which is that of 25 characters.
#[verifier::external_body]
pub(crate) fn is_whitespace(c: char) -> (r: bool)
    ensures
        r == white(c),
{
    c.is_whitespace()
}

/// `String::push` of the standard library: the character is appended.
#[verifier::external_body]
pub(crate) fn push_char(out: &mut String, c: char)
    ensures
        final(out)@ == old(out)@.push(c),
{
    out.push(c)
}

/// A line without the carriage return that it may end with.
pub open spec fn chomped(line: Seq<char>) -> Seq<char> {
    if line.len() > 0 && line.last() == '\r' {
        line.drop_last()
    } else {
        line
    }
}

/// The lines of `s` that are ended by a line feed, and what stands behind the
/// last of them.
pub open spec fn split_lines(s: Seq<char>) -> (Seq<Seq<char>>, Seq<char>)
    decreases s.len(),
{
    if s.len() == 0 {
        (Seq::empty(), Seq::empty())
    } else {
        let (ended, rest) = split_lines(s.drop_last());
        if s.last() == '\n' {
            (ended.push(chomped(rest)), Seq::empty())
        } else {
            (ended, rest.push(s.last()))
        }
    }
}

/// The lines of `s`: each ends with a line feed, alone or behind a carriage
/// return, and the last may go without.
pub open spec fn lines(s: Seq<char>) -> Seq<Seq<char>> {
    let (ended, rest) = split_lines(s);
    if rest.len() == 0 {
        ended
    } else {
        ended.push(rest)
    }
}

/// The texts of `strings`.
pub open spec fn texts(strings: Seq<String>) -> Seq<Seq<char>> {
    strings.map_values(|s: String| s@)
}

/// The lines of `s`.
pub fn lines_of(s: &str) -> (r: Vec<String>)
    ensures
        texts(r@) == lines(s@),
{
    let mut ended: Vec<String> = Vec::new();
    let mut rest = String::new();
    // Whether a carriage return stands behind `rest`.
    let mut returned: bool = false;
    assert(texts(ended@) =~= Seq::<Seq<char>>::empty());
    for c in it: s.chars()
        invariant
            it.seq() == s@,
            texts(ended@) == split_lines(s@.subrange(0, it.index() as int)).0,
            split_lines(s@.subrange(0, it.index() as int)).1 == if returned {
                rest@.push('\r')
            } else {
                rest@
            },
            !returned ==> chomped(rest@) == rest@,
    {
        let ghost next = s@.subrange(0, it.index() + 1);
        let ghost before = ended@;
        proof {
            assert(next.drop_last() =~= s@.subrange(0, it.index() as int));
            assert(next.last() == c);
            assert(rest@.push('\r').drop_last() =~= rest@);
        }
        if c == '\n' {
            let mut line = String::new();
            core::mem::swap(&mut rest, &mut line);
            ended.push(line);
            returned = false;
            assert(texts(ended@) =~= texts(before).push(line@));
            assert(rest@ =~= Seq::<char>::empty());
        } else {
            if returned {
                push_char(&mut rest, '\r');
            }
            if c == '\r' {
                returned = true;
            } else {
                returned = false;
                push_char(&mut rest, c);
            }
        }
    }
    assert(s@.subrange(0, s@.len() as int) =~= s@);
    if returned {
        push_char(&mut rest, '\r');
    }
    if !rest.as_str().is_empty() {
        let ghost before = ended@;
        ended.push(rest);
        assert(texts(ended@) =~= texts(before).push(rest@));
    }
    ended
}

/// Whether a text is empty but for white space.
pub open spec fn blank(s: Seq<char>) -> bool {
    forall|i: int| 0 <= i < s.len() ==> white(#[trigger] s[i])
}

/// Whether a text is empty but for white space.
pub fn is_blank(s: &str) -> (r: bool)
    ensures
        r == blank(s@),
{
    let chars = chars_of(s);
    let mut i: usize = 0;
    while i < chars.len()
        invariant
            chars@ == s@,
            i <= chars@.len(),
            forall|j: int| 0 <= j < i ==> white(#[trigger] s@[j]),
        decreases chars@.len() - i,
    {
        if !is_whitespace(chars[i]) {
            assert(!white(s@[i as int]));
            return false;
        }
        i = i + 1;
    }
    true
}

/// Where the text of `s` begins behind leading white space.
pub open spec fn trim_start(s: Seq<char>) -> int
    decreases s.len(),
{
    if s.len() > 0 && white(s[0]) {
        1 + trim_start(s.drop_first())
    } else {
        0
    }
}

/// Where the text of `s` ends before trailing white space.
pub open spec fn trim_end(s: Seq<char>) -> int
    decreases s.len(),
{
    if s.len() > 0 && white(s.last()) {
        trim_end(s.drop_last())
    } else {
        s.len() as int
    }
}

/// `s` without white space at either end.
pub open spec fn trimmed(s: Seq<char>) -> Seq<char> {
    if blank(s) {
        Seq::empty()
    } else {
        s.subrange(trim_start(s), trim_end(s))
    }
}

proof fn trim_start_is_first(s: Seq<char>, k: int)
    requires
        0 <= k < s.len(),
        !white(s[k]),
        forall|i: int| 0 <= i < k ==> white(#[trigger] s[i]),
    ensures
        trim_start(s) == k,
    decreases s.len(),
{
    if k > 0 {
        assert(white(s[0]));
        let rest = s.drop_first();
        assert forall|i: int| 0 <= i < k - 1 implies white(#[trigger] rest[i]) by {
            assert(rest[i] == s[i + 1]);
        }
        trim_start_is_first(rest, k - 1);
    }
}

proof fn trim_end_is_last(s: Seq<char>, k: int)
    requires
        0 < k <= s.len(),
        !white(s[k - 1]),
        forall|i: int| k <= i < s.len() ==> white(#[trigger] s[i]),
    ensures
        trim_end(s) == k,
    decreases s.len(),
{
    if k < s.len() {
        assert(white(s[s.len() - 1]));
        trim_end_is_last(s.drop_last(), k);
    }
}

/// `s` without white space at either end.
pub fn trim(s: &str) -> (r: &str)
    ensures
        r@ == trimmed(s@),
{
    let chars = chars_of(s);
    let mut from: usize = 0;
    while from < chars.len() && is_whitespace(chars[from])
        invariant
            chars@ == s@,
            from <= chars@.len(),
            forall|i: int| 0 <= i < from ==> white(#[trigger] s@[i]),
        ensures
            from < chars@.len() ==> !white(s@[from as int]),
        decreases chars@.len() - from,
    {
        from = from + 1;
    }
    if from == chars.len() {
        let r = s.substring_char(0, 0);
        assert(r@ =~= trimmed(s@));
        return r;
    }
    let mut to: usize = chars.len();
    while is_whitespace(chars[to - 1])
        invariant
            chars@ == s@,
            from < to <= chars@.len(),
            !white(s@[from as int]),
            forall|i: int| to <= i < s@.len() ==> white(#[trigger] s@[i]),
        ensures
            !white(s@[to - 1]),
        decreases to,
    {
        to = to - 1;
    }
    proof {
        trim_start_is_first(s@, from as int);
        trim_end_is_last(s@, to as int);
    }
    s.substring_char(from, to)
}

/// Trimming law: what is left neither begins nor ends with white space, and
/// nothing but white space was taken.
pub proof fn trimming_takes_white_space(s: Seq<char>)
    ensures
        trimmed(s).len() == 0 <==> blank(s),
        trimmed(s).len() > 0 ==> {
            &&& !white(trimmed(s)[0])
            &&& !white(trimmed(s).last())
            &&& 0 <= trim_start(s) < trim_end(s) <= s.len()
            &&& trimmed(s) == s.subrange(trim_start(s), trim_end(s))
            &&& forall|i: int| 0 <= i < trim_start(s) ==> white(#[trigger] s[i])
            &&& forall|i: int| trim_end(s) <= i < s.len() ==> white(#[trigger] s[i])
        },
{
    if !blank(s) {
        trim_start_stops(s);
        trim_end_stops(s);
        let a = choose|a: int| 0 <= a < s.len() && !white(#[trigger] s[a]);
        assert(trim_start(s) <= a < trim_end(s));
    }
}

proof fn trim_start_stops(s: Seq<char>)
    ensures
        0 <= trim_start(s) <= s.len(),
        forall|i: int| 0 <= i < trim_start(s) ==> white(#[trigger] s[i]),
        trim_start(s) < s.len() ==> !white(s[trim_start(s)]),
    decreases s.len(),
{
    if s.len() > 0 && white(s[0]) {
        let rest = s.drop_first();
        trim_start_stops(rest);
        assert forall|i: int| 0 <= i < trim_start(s) implies white(#[trigger] s[i]) by {
            if i > 0 {
                assert(white(rest[i - 1]));
            }
        }
    }
}

proof fn trim_end_stops(s: Seq<char>)
    ensures
        0 <= trim_end(s) <= s.len(),
        forall|i: int| trim_end(s) <= i < s.len() ==> white(#[trigger] s[i]),
        trim_end(s) > 0 ==> !white(s[trim_end(s) - 1]),
    decreases s.len(),
{
    if s.len() > 0 && white(s.last()) {
        let init = s.drop_last();
        trim_end_stops(init);
        assert forall|i: int| trim_end(s) <= i < s.len() implies white(#[trigger] s[i]) by {
            if i < init.len() {
                assert(white(init[i]));
            }
        }
    }
}

/// Whether `char::is_alphabetic` counts a character as a letter.
pub uninterp spec fn letter(c: char) -> bool;

/// `char::is_alphabetic` of the standard library: whether a character has the
/// Unicode property Alphabetic.
///
/// The answer has a name of its own; among ASCII characters it is yes for the
/// letters of both cases.
#[verifier::external_body]
pub(crate) fn is_alphabetic(c: char) -> (r: bool)
    ensures
        r == letter(c),
        ascii(c) ==> r == (65 <= c as int <= 90 || 97 <= c as int <= 122),
{
    c.is_alphabetic()
}

/// Whether a text has a letter.
pub open spec fn lettered(s: Seq<char>) -> bool {
    exists|i: int| 0 <= i < s.len() && letter(#[trigger] s[i])
}

/// Whether a text has a letter.
pub fn has_letter(s: &str) -> (r: bool)
    ensures
        r == lettered(s@),
{
    let chars = chars_of(s);
    let mut i: usize = 0;
    while i < chars.len()
        invariant
            chars@ == s@,
            i <= chars@.len(),
            forall|j: int| 0 <= j < i ==> !letter(#[trigger] s@[j]),
        decreases chars@.len() - i,
    {
        if is_alphabetic(chars[i]) {
            assert(letter(s@[i as int]));
            return true;
        }
        i = i + 1;
    }
    false
}

/// `s` with every occurrence of `part` taken out, found from the left.
pub open spec fn without(s: Seq<char>, part: Seq<char>) -> Seq<char>
    decreases s.len(),
{
    if s.len() == 0 || part.len() == 0 {
        s
    } else if stands_at(s, part, 0) {
        without(s.subrange(part.len() as int, s.len() as int), part)
    } else {
        seq![s[0]] + without(s.drop_first(), part)
    }
}

/// `s` with every occurrence of `part` taken out, found from the left.
pub fn remove_all(s: &str, part: &str) -> (r: String)
    requires
        part@.len() > 0,
    ensures
        r@ == without(s@, part@),
{
    let chars = chars_of(s);
    let part_chars = chars_of(part);
    let mut out = String::new();
    let mut at: usize = 0;
    assert(s@.subrange(0, s@.len() as int) =~= s@);
    while at < chars.len()
        invariant
            chars@ == s@,
            part_chars@ == part@,
            part@.len() > 0,
            at <= chars@.len(),
            out@ + without(s@.subrange(at as int, s@.len() as int), part@) == without(s@, part@),
        decreases chars@.len() - at,
    {
        let ghost rest = s@.subrange(at as int, s@.len() as int);
        let ghost before = out@;
        if part_chars.len() <= chars.len() - at && found_at(&chars, &part_chars, at) {
            proof {
                assert(rest.subrange(0, part@.len() as int) =~= s@.subrange(
                    at as int,
                    at + part@.len(),
                ));
                assert(rest.subrange(part@.len() as int, rest.len() as int) =~= s@.subrange(
                    at + part@.len(),
                    s@.len() as int,
                ));
            }
            at = at + part_chars.len();
        } else {
            proof {
                if stands_at(rest, part@, 0) {
                    assert(rest.subrange(0, part@.len() as int) =~= s@.subrange(
                        at as int,
                        at + part@.len(),
                    ));
                }
                assert(rest.drop_first() =~= s@.subrange(at + 1, s@.len() as int));
            }
            let one = s.substring_char(at, at + 1);
            out.append(one);
            at = at + 1;
            proof {
                let tail = without(s@.subrange(at as int, s@.len() as int), part@);
                assert(one@ =~= seq![rest[0]]);
                assert(out@ + tail =~= before + (seq![rest[0]] + tail));
            }
        }
    }
    assert(out@ + without(s@.subrange(at as int, s@.len() as int), part@) =~= out@);
    out
}

/// The number that decimal digits stand for.
pub open spec fn number_read(digits: Seq<char>) -> int
    decreases digits.len(),
{
    if digits.len() == 0 {
        0
    } else {
        number_read(digits.drop_last()) * 10 + (digits.last() as int - '0' as int)
    }
}

/// Digit law: a number in decimal reads as that number, is made of the digits 0
/// to 9, and has no leading zero unless it is zero.
pub proof fn decimals_read_as_their_number(n: nat)
    ensures
        number_read(decimal_text(n)) == n,
        decimal_text(n).len() > 0,
        forall|i: int|
            0 <= i < decimal_text(n).len() ==> '0' as int <= #[trigger] decimal_text(n)[i] as int
                <= '9' as int,
        n > 0 ==> decimal_text(n)[0] != '0',
        n == 0 ==> decimal_text(n).len() == 1,
    decreases n,
{
    let text = decimal_text(n);
    if n < 10 {
        assert(number_read(text.drop_last()) == 0);
    } else {
        decimals_read_as_their_number(n / 10);
        assert(text.drop_last() =~= decimal_text(n / 10));
    }
}

/// The number that an upper-case hexadecimal digit stands for.
pub open spec fn hex_read(c: char) -> int {
    if c as int <= '9' as int {
        c as int - '0' as int
    } else {
        c as int - 'A' as int + 10
    }
}

/// Whether a character is a hexadecimal digit, letters in upper case.
pub open spec fn hex_digit(c: char) -> bool {
    '0' as int <= c as int <= '9' as int || 'A' as int <= c as int <= 'F' as int
}

/// Digit law: two and four hexadecimal digits read as the number they are made
/// of, the most significant one first.
pub proof fn hex_digits_read_as_their_number(byte: u8, word: u16)
    ensures
        hex2_text(byte).len() == 2,
        forall|i: int| 0 <= i < 2 ==> hex_digit(#[trigger] hex2_text(byte)[i]),
        hex_read(hex2_text(byte)[0]) * 16 + hex_read(hex2_text(byte)[1]) == byte,
        hex4_text(word).len() == 4,
        forall|i: int| 0 <= i < 4 ==> hex_digit(#[trigger] hex4_text(word)[i]),
        hex_read(hex4_text(word)[0]) * 0x1000 + hex_read(hex4_text(word)[1]) * 0x100 + hex_read(
            hex4_text(word)[2],
        ) * 0x10 + hex_read(hex4_text(word)[3]) == word,
{
}

/// Search law: a text is found between any others, and where it is found it
/// stands between two others. The result is the place, where there is one.
pub proof fn found_texts_stand_between_others(hay: Seq<char>, needle: Seq<char>) -> (at: int)
    ensures
        holds(hay, needle) ==> {
            &&& 0 <= at <= hay.len() - needle.len()
            &&& hay == hay.subrange(0, at) + needle + hay.subrange(
                at + needle.len(),
                hay.len() as int,
            )
        },
        forall|before: Seq<char>, after: Seq<char>| #[trigger]
            (before + needle + after) == hay ==> holds(hay, needle),
{
    assert forall|before: Seq<char>, after: Seq<char>| #[trigger]
        (before + needle + after) == hay implies holds(hay, needle) by {
        let at = before.len() as int;
        assert(hay.subrange(at, at + needle.len()) =~= needle);
        assert(stands_at(hay, needle, at));
    }
    if holds(hay, needle) {
        let at = choose|at: int| stands_at(hay, needle, at);
        assert(hay =~= hay.subrange(0, at) + needle + hay.subrange(
            at + needle.len(),
            hay.len() as int,
        ));
        at
    } else {
        0
    }
}

/// Letter case law: two characters are equal but for the case of ASCII letters
/// exactly if they are the same, or one is an upper-case ASCII letter and the
/// other its lower-case one.
pub proof fn only_ascii_letters_have_a_case(a: char, b: char)
    ensures
        ascii_lower(a) == ascii_lower(b) <==> {
            ||| a == b
            ||| 'A' as int <= a as int <= 'Z' as int && b as int == a as int + 32
            ||| 'A' as int <= b as int <= 'Z' as int && a as int == b as int + 32
        },
        ascii_lower(ascii_lower(a)) == ascii_lower(a),
        !('A' as int <= ascii_lower(a) as int <= 'Z' as int),
        !('A' as int <= a as int <= 'Z' as int) ==> ascii_lower(a) == a,
{
}

proof fn lines_split_apart(before: Seq<char>, after: Seq<char>)
    requires
        split_lines(before).1 == Seq::<char>::empty(),
    ensures
        split_lines(before + after) == (
            split_lines(before).0 + split_lines(after).0,
            split_lines(after).1,
        ),
    decreases after.len(),
{
    if after.len() == 0 {
        assert(before + after =~= before);
        assert(split_lines(before).0 + Seq::<Seq<char>>::empty() =~= split_lines(before).0);
    } else {
        let init = after.drop_last();
        lines_split_apart(before, init);
        assert((before + after).drop_last() =~= before + init);
        assert((before + after).last() == after.last());
        if after.last() == '\n' {
            assert((split_lines(before).0 + split_lines(init).0).push(
                chomped(split_lines(init).1),
            ) =~= split_lines(before).0 + split_lines(after).0);
        }
    }
}

proof fn texts_without_line_feed_stay_whole(line: Seq<char>)
    requires
        !line.contains('\n'),
    ensures
        split_lines(line) == (Seq::<Seq<char>>::empty(), line),
    decreases line.len(),
{
    if line.len() > 0 {
        let init = line.drop_last();
        assert(line[line.len() - 1] == line.last());
        assert forall|c: char| init.contains(c) implies #[trigger] line.contains(c) by {
            let i = choose|i: int| 0 <= i < init.len() && init[i] == c;
            assert(line[i] == c);
        }
        texts_without_line_feed_stay_whole(init);
        assert(init.push(line.last()) =~= line);
    }
}

/// Line law: the lines of a text are those before a line, the line itself
/// without the carriage return that it may end with, and those behind it. A text
/// without a line feed is one line, unless it is empty.
pub proof fn lines_follow_one_another(before: Seq<char>, line: Seq<char>, after: Seq<char>)
    requires
        before.len() == 0 || before.last() == '\n',
        !line.contains('\n'),
    ensures
        lines(before + line.push('\n') + after) == lines(before).push(
            if line.len() > 0 && line.last() == '\r' {
                line.drop_last()
            } else {
                line
            },
        ) + lines(after),
        line.len() > 0 ==> lines(line) == seq![line],
        lines(Seq::<char>::empty()) == Seq::<Seq<char>>::empty(),
{
    texts_without_line_feed_stay_whole(line);
    let ended = line.push('\n');
    assert(ended.drop_last() =~= line);
    assert(split_lines(before).1 =~= Seq::<char>::empty());
    lines_split_apart(before, ended);
    assert((split_lines(before + ended)).1 =~= Seq::<char>::empty());
    lines_split_apart(before + ended, after);
    let one = if line.len() > 0 && line.last() == '\r' {
        line.drop_last()
    } else {
        line
    };
    assert(split_lines(ended).0 =~= seq![one]);
    assert(lines(before + ended + after) =~= lines(before).push(one) + lines(after));
    assert(lines(line) =~= if line.len() > 0 {
        seq![line]
    } else {
        Seq::empty()
    });
}

/// Removal law: a text without any occurrence of what is taken out stays whole.
pub proof fn removal_leaves_other_texts(s: Seq<char>, part: Seq<char>)
    requires
        part.len() > 0,
        !holds(s, part),
    ensures
        without(s, part) == s,
    decreases s.len(),
{
    if s.len() > 0 {
        let rest = s.drop_first();
        assert(!stands_at(s, part, 0));
        if holds(rest, part) {
            let at = choose|at: int| stands_at(rest, part, at);
            assert(rest.subrange(at, at + part.len()) =~= s.subrange(at + 1, at + 1 + part.len()));
            assert(stands_at(s, part, at + 1));
        }
        removal_leaves_other_texts(rest, part);
        assert(seq![s[0]] + rest =~= s);
    }
}

proof fn shifted_occurrence(s: Seq<char>, part: Seq<char>, at: int)
    requires
        s.len() > 0,
        0 <= at,
    ensures
        stands_at(s.drop_first(), part, at) == stands_at(s, part, at + 1),
{
    if at + 1 + part.len() <= s.len() {
        assert(s.drop_first().subrange(at, at + part.len()) =~= s.subrange(
            at + 1,
            at + 1 + part.len(),
        ));
    }
}

proof fn removal_skips(s: Seq<char>, part: Seq<char>, upto: int)
    requires
        part.len() > 0,
        0 <= upto <= s.len(),
        forall|at: int| 0 <= at < upto ==> !#[trigger] stands_at(s, part, at),
    ensures
        without(s, part) == s.subrange(0, upto) + without(s.subrange(upto, s.len() as int), part),
    decreases upto,
{
    if upto == 0 {
        assert(s.subrange(0, s.len() as int) =~= s);
        assert(s.subrange(0, 0) + without(s, part) =~= without(s, part));
    } else {
        let rest = s.drop_first();
        assert(!stands_at(s, part, 0));
        assert forall|at: int| 0 <= at < upto - 1 implies !#[trigger] stands_at(rest, part, at) by {
            shifted_occurrence(s, part, at);
            assert(!stands_at(s, part, at + 1));
        }
        removal_skips(rest, part, upto - 1);
        let tail = s.subrange(upto, s.len() as int);
        assert(rest.subrange(upto - 1, rest.len() as int) =~= tail);
        assert(seq![s[0]] + (rest.subrange(0, upto - 1) + without(tail, part)) =~= s.subrange(
            0,
            upto,
        ) + without(tail, part));
    }
}

/// Removal law: up to the first occurrence of what is taken out a text stays as
/// it is, the occurrence goes, and the same holds of what stands behind it.
pub proof fn removal_takes_each_occurrence(before: Seq<char>, part: Seq<char>, after: Seq<char>)
    requires
        part.len() > 0,
        forall|at: int|
            0 <= at < before.len() ==> !#[trigger] stands_at(before + part + after, part, at),
    ensures
        without(before + part + after, part) == before + without(after, part),
{
    let all = before + part + after;
    let n = before.len() as int;
    removal_skips(all, part, n);
    let tail = all.subrange(n, all.len() as int);
    assert(all.subrange(0, n) =~= before);
    assert(tail.subrange(0, part.len() as int) =~= part);
    assert(stands_at(tail, part, 0));
    assert(tail.subrange(part.len() as int, tail.len() as int) =~= after);
}

/// Trimming law: white space around a text makes no difference.
pub proof fn trimming_ignores_what_is_around(before: Seq<char>, s: Seq<char>, after: Seq<char>)
    requires
        blank(before),
        blank(after),
    ensures
        trimmed(before + s + after) == trimmed(s),
{
    let all = before + s + after;
    if blank(s) {
        assert(blank(all)) by {
            assert forall|i: int| 0 <= i < all.len() implies white(#[trigger] all[i]) by {
                if i < before.len() {
                    assert(white(before[i]));
                } else if i < before.len() + s.len() {
                    assert(white(s[i - before.len()]));
                } else {
                    assert(white(after[i - before.len() - s.len()]));
                }
            }
        }
    } else {
        trimming_takes_white_space(s);
        let from = trim_start(s);
        let to = trim_end(s);
        let n = before.len() as int;
        assert(trimmed(s)[0] == s[from] && trimmed(s).last() == s[to - 1]);
        assert(all[n + from] == s[from]);
        assert(all[n + to - 1] == s[to - 1]);
        assert forall|i: int| 0 <= i < n + from implies white(#[trigger] all[i]) by {
            if i < n {
                assert(white(before[i]));
            } else {
                assert(white(s[i - n]));
            }
        }
        assert forall|i: int| n + to <= i < all.len() implies white(#[trigger] all[i]) by {
            if i < n + s.len() {
                assert(white(s[i - n]));
            } else {
                assert(white(after[i - n - s.len()]));
            }
        }
        trim_start_is_first(all, n + from);
        trim_end_is_last(all, n + to);
        assert(all.subrange(n + from, n + to) =~= s.subrange(from, to));
    }
}

/// White space law: a text is blank exactly if none of its characters is
/// anything but white space, and the texts of strings are those of each.
pub proof fn blank_texts_have_no_mark(s: Seq<char>, strings: Seq<String>)
    ensures
        (exists|i: int| 0 <= i < s.len() && !white(#[trigger] s[i])) <==> !blank(s),
        texts(strings).len() == strings.len(),
        forall|i: int| 0 <= i < strings.len() ==> #[trigger] texts(strings)[i] == strings[i]@,
{
}

/// Letter law: a text has a letter exactly if one of its characters is one.
pub proof fn letters_are_found_anywhere(before: Seq<char>, c: char, after: Seq<char>)
    ensures
        letter(c) ==> lettered(before.push(c) + after),
        !letter(c) ==> lettered(before.push(c) + after) == (lettered(before) || lettered(after)),
        !lettered(Seq::<char>::empty()),
{
    let all = before.push(c) + after;
    let n = before.len() as int;
    assert(all[n] == c);
    if lettered(before) {
        let i = choose|i: int| 0 <= i < before.len() && letter(#[trigger] before[i]);
        assert(all[i] == before[i]);
    }
    if lettered(after) {
        let i = choose|i: int| 0 <= i < after.len() && letter(#[trigger] after[i]);
        assert(all[n + 1 + i] == after[i]);
    }
    if lettered(all) {
        let i = choose|i: int| 0 <= i < all.len() && letter(#[trigger] all[i]);
        if i < n {
            assert(before[i] == all[i]);
        } else if i > n {
            assert(after[i - n - 1] == all[i]);
        }
    }
}

} // verus!
