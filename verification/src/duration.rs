//! Human-readable durations, such as "30s", "5m" or "1h 5m 20s".

use vstd::prelude::*;

use crate::text;

verus! {

/// A length of time.
#[derive(Debug, Clone, Copy, PartialEq, Eq, Structural)]
pub struct Span {
    pub secs: u64,
    /// Nanoseconds beyond the seconds; less than one second.
    pub nanos: u32,
}

impl Span {
    /// The length in whole milliseconds, of which the 64 low bits count.
    pub open spec fn millis(self) -> int {
        (self.secs * 1000 + self.nanos as int / 1_000_000) % 0x1_0000_0000_0000_0000
    }

    /// The length in whole milliseconds, of which the 64 low bits count.
    pub fn as_millis(self) -> (r: u64)
        ensures
            r == self.millis(),
    {
        let wide: u128 = self.secs as u128 * 1000 + self.nanos as u128 / 1_000_000;
        (wide % 0x1_0000_0000_0000_0000) as u64
    }
}

/// Whether a character is an ASCII digit.
pub open spec fn digit(c: char) -> bool {
    48 <= c as int <= 57
}

/// The last character of a text that is not white space.
pub open spec fn last_mark(s: Seq<char>) -> Option<char>
    decreases s.len(),
{
    if s.len() == 0 {
        None
    } else if text::white(s.last()) {
        last_mark(s.drop_last())
    } else {
        Some(s.last())
    }
}

/// Whether the last character of a text begins another amount: what comes before
/// ends with a unit, and the character is a digit or stands behind white space.
/// Behind a digit or a decimal point it goes on with the same amount.
pub open spec fn begins_amount(s: Seq<char>) -> bool {
    &&& s.len() > 1
    &&& !text::white(s.last())
    &&& digit(s.last()) || text::white(s[s.len() - 2])
    &&& match last_mark(s.drop_last()) {
        Some(c) => !digit(c) && c != '.',
        None => false,
    }
}

/// Where the last amount of a text begins, which is at the start if there is
/// no other.
pub open spec fn last_amount(s: Seq<char>) -> int
    decreases s.len(),
{
    if s.len() == 0 {
        0
    } else if begins_amount(s) {
        s.len() - 1
    } else {
        last_amount(s.drop_last())
    }
}

/// Whether a text has no decimal point and no unit below a second.
pub open spec fn whole_seconds(s: Seq<char>) -> bool {
    &&& !text::holds(s, "."@)
    &&& !text::holds(s, "ms"@)
    &&& !text::holds(s, "msec"@)
    &&& !text::holds(s, "millis"@)
    &&& !text::holds(s, "us"@)
    &&& !text::holds(s, "\u{B5}s"@)
    &&& !text::holds(s, "usec"@)
    &&& !text::holds(s, "ns"@)
    &&& !text::holds(s, "nsec"@)
    &&& !text::holds(s, "nanos"@)
}

/// Whether adding the last amount of a text, `last`, to what those before it
/// amount to may pass the largest duration by a carry from the nanoseconds.
///
/// An amount of whole seconds carries nothing. One below a second, without a
/// fraction, does where the seconds are at their largest and the nanoseconds
/// come to another second exactly. One with a fraction is added in two parts,
/// and does at most where the seconds come to one more than the largest, give
/// or take what is left of a millisecond, or where the second part is refused.
pub open spec fn may_carry(before: (u64, u32), last: Seq<char>) -> bool {
    &&& !whole_seconds(last)
    &&& match parsed(last) {
        Ok((secs, nanos)) => {
            let total = (before.0 + secs) * 1_000_000_000 + before.1 + nanos;
            let beyond = total - (u64::MAX + 1) * 1_000_000_000;
            if text::holds(last, "."@) {
                0 <= beyond < 1_000_000
            } else {
                before.0 == u64::MAX && beyond == 0
            }
        },
        Err(_) => before.0 == u64::MAX && text::holds(last, "."@),
    }
}

/// Whether the amounts of a text can be added up, one by one, without a carry
/// past the largest duration.
pub open spec fn moderate(s: Seq<char>) -> bool
    decreases s.len(),
{
    let at = last_amount(s);
    at <= 0 || at >= s.len() || {
        let before = s.subrange(0, at);
        &&& moderate(before)
        &&& match parsed(before) {
            Ok(sum) => !may_carry(sum, s.subrange(at, s.len() as int)),
            Err(_) => true,
        }
    }
}

/// What `humantime::parse_duration` makes of a text: seconds and nanoseconds,
/// or the message of the error.
pub uninterp spec fn parsed(s: Seq<char>) -> Result<(u64, u32), Seq<char>>;

/// `humantime::parse_duration`, with the message of its error.
///
/// The result has a name of its own; the nanoseconds are less than a second.
///
/// The amounts of a text are added up one by one, and the first that cannot be
/// read or added is the error. The call panics where an addition comes to the
/// largest number of seconds and exactly another billion nanoseconds; for a
/// text of a single amount it never does. Texts that may come to that are left
/// out, by what the amounts before the last, and the last alone, are parsed as.
#[verifier::external_body]
fn parse(s: &str) -> (r: Result<(u64, u32), String>)
    requires
        moderate(s@),
    ensures
        match r {
            Ok(span) => parsed(s@) == Ok::<(u64, u32), Seq<char>>(span) && span.1 < 1_000_000_000,
            Err(message) => parsed(s@) == Err::<(u64, u32), Seq<char>>(message@),
        },
{
    match humantime::parse_duration(s) {
        Ok(d) => Ok((d.as_secs(), d.subsec_nanos())),
        Err(e) => Err(e.to_string()),
    }
}

proof fn last_amount_is_within(s: Seq<char>)
    ensures
        0 <= last_amount(s),
        s.len() > 0 ==> last_amount(s) < s.len(),
        last_amount(s.subrange(last_amount(s), s.len() as int)) == 0,
    decreases s.len(),
{
    let at = last_amount(s);
    if s.len() == 0 {
        assert(s.subrange(0, 0) =~= s);
    } else if begins_amount(s) {
        let one = s.subrange(at, s.len() as int);
        assert(one.drop_last() =~= Seq::<char>::empty());
        assert(last_mark(one.drop_last()) is None);
        assert(last_amount(one.drop_last()) == 0);
    } else {
        last_amount_is_within(s.drop_last());
        let one = s.subrange(at, s.len() as int);
        if at < s.len() {
            let shorter = s.drop_last().subrange(at, s.len() - 1);
            assert(one.drop_last() =~= shorter);
            if begins_amount(one) {
                marks_agree(s.drop_last(), at);
            }
        }
    }
}

proof fn marks_agree(s: Seq<char>, at: int)
    requires
        0 <= at <= s.len(),
        last_mark(s.subrange(at, s.len() as int)) is Some,
    ensures
        last_mark(s) == last_mark(s.subrange(at, s.len() as int)),
    decreases s.len(),
{
    let part = s.subrange(at, s.len() as int);
    if part.len() > 0 {
        assert(part.last() == s.last());
        assert(part.drop_last() =~= s.drop_last().subrange(at, s.len() - 1));
        if text::white(s.last()) {
            marks_agree(s.drop_last(), at);
        }
    }
}

/// Where the last amount of a text begins.
fn find_last_amount(chars: &Vec<char>) -> (r: usize)
    ensures
        r == last_amount(chars@),
{
    let mut r: usize = 0;
    let mut mark: Option<char> = None;
    let mut i: usize = 0;
    while i < chars.len()
        invariant
            i <= chars@.len(),
            r == last_amount(chars@.subrange(0, i as int)),
            mark == last_mark(chars@.subrange(0, i as int)),
        decreases chars@.len() - i,
    {
        let c = chars[i];
        proof {
            let next = chars@.subrange(0, i + 1);
            assert(next.drop_last() =~= chars@.subrange(0, i as int));
            assert(next.last() == c);
        }
        if !text::is_whitespace(c) {
            if i > 0 && ('0' <= c && c <= '9' || text::is_whitespace(chars[i - 1])) {
                match mark {
                    Some(m) => if !('0' <= m && m <= '9') && m != '.' {
                        r = i;
                    },
                    None => {},
                }
            }
            mark = Some(c);
        }
        i = i + 1;
    }
    assert(chars@.subrange(0, i as int) =~= chars@);
    r
}

fn is_whole_seconds(s: &str) -> (r: bool)
    ensures
        r == whole_seconds(s@),
{
    !(text::contains(s, ".") || text::contains(s, "ms") || text::contains(s, "msec")
        || text::contains(s, "millis") || text::contains(s, "us") || text::contains(s, "\u{B5}s")
        || text::contains(s, "usec") || text::contains(s, "ns") || text::contains(s, "nsec")
        || text::contains(s, "nanos"))
}

/// Whether adding `last` to what comes before may carry past the largest
/// duration.
fn carry_is_possible(before: (u64, u32), last: &str) -> (r: bool)
    requires
        moderate(last@),
    ensures
        r == may_carry(before, last@),
{
    if is_whole_seconds(last) {
        return false;
    }
    let fraction = text::contains(last, ".");
    match parse(last) {
        Ok((secs, nanos)) => {
            let total: u128 = (before.0 as u128 + secs as u128) * 1_000_000_000 + before.1 as u128
                + nanos as u128;
            let limit: u128 = 0x1_0000_0000_0000_0000u128 * 1_000_000_000;
            if fraction {
                limit <= total && total - limit < 1_000_000
            } else {
                before.0 == u64::MAX && total == limit
            }
        },
        Err(_) => before.0 == u64::MAX && fraction,
    }
}

/// Whether a text is one that [`parse_duration`] takes.
pub fn is_moderate(s: &str) -> (r: bool)
    ensures
        r == moderate(s@),
    decreases s@.len(),
{
    let chars = text::chars_of(s);
    let at: usize = find_last_amount(&chars);
    proof {
        last_amount_is_within(s@);
    }
    if at == 0 {
        return true;
    }
    let before = s.substring_char(0, at);
    let last = s.substring_char(at, chars.len());
    if !is_moderate(before) {
        return false;
    }
    match parse(before) {
        Ok(sum) => !carry_is_possible(sum, last),
        Err(_) => true,
    }
}

/// What became of a text: a duration, or the message of the error.
pub open spec fn outcome(s: Seq<char>) -> Result<Span, Seq<char>> {
    match parsed(s) {
        Ok((secs, nanos)) => Ok(Span { secs, nanos }),
        Err(message) => Err(message),
    }
}

/// Parse a human-readable duration, white space around it aside.
pub fn parse_duration(s: &str) -> (r: Result<Span, String>)
    requires
        moderate(text::trimmed(s@)),
    ensures
        match r {
            Ok(span) => outcome(text::trimmed(s@)) == Ok::<Span, Seq<char>>(span) && span.nanos
                < 1_000_000_000,
            Err(message) => outcome(text::trimmed(s@)) == Err::<Span, Seq<char>>(message@),
        },
{
    match parse(text::trim(s)) {
        Ok((secs, nanos)) => Ok(Span { secs, nanos }),
        Err(message) => Err(message),
    }
}

/// The text that is parsed for a duration limit: nothing where the input is
/// blank, the input in seconds where it has no letter, and else the input.
pub open spec fn limit_text(s: Seq<char>) -> Option<Seq<char>> {
    let input = text::trimmed(s);
    if input.len() == 0 {
        None
    } else if text::lettered(input) {
        Some(input)
    } else {
        Some(input + "s"@)
    }
}

/// The text that is parsed for a duration limit.
pub fn limit_input(s: &str) -> (r: Option<String>)
    ensures
        match r {
            Some(input) => limit_text(s@) == Some(input@),
            None => limit_text(s@) is None,
        },
{
    let input = text::trim(s);
    if input.is_empty() {
        None
    } else if text::has_letter(input) {
        Some(input.to_owned())
    } else {
        Some(text::joined(input, "s"))
    }
}

/// Parse a duration limit (e.g. "30", "30s", "5m", "1m 30s", "1h 5m 20s").
///
/// Returns `None` if the text is blank or invalid. A bare number with no
/// letters is a number of seconds.
pub fn parse_duration_str(s: &str) -> (r: Option<Span>)
    requires
        limit_text(s@) matches Some(input) ==> moderate(input),
    ensures
        r == match limit_text(s@) {
            None => None::<Span>,
            Some(input) => match outcome(input) {
                Ok(span) => Some(span),
                Err(_) => None,
            },
        },
        r matches Some(span) ==> span.nanos < 1_000_000_000,
{
    match limit_input(s) {
        None => None,
        Some(input) => match parse(input.as_str()) {
            Ok((secs, nanos)) => Some(Span { secs, nanos }),
            Err(_) => None,
        },
    }
}

/// [`parse_duration`] where it takes the text, and `None` where it does not.
pub fn try_parse_duration(s: &str) -> (r: Option<Result<Span, String>>)
    ensures
        r is Some <==> moderate(text::trimmed(s@)),
        r matches Some(Ok(span)) ==> outcome(text::trimmed(s@)) == Ok::<Span, Seq<char>>(span),
        r matches Some(Err(message)) ==> outcome(text::trimmed(s@)) == Err::<Span, Seq<char>>(
            message@,
        ),
{
    if is_moderate(text::trim(s)) {
        Some(parse_duration(s))
    } else {
        None
    }
}

/// [`parse_duration_str`] where it takes the text, and `None` where it does not.
pub fn try_parse_duration_str(s: &str) -> (r: Option<Option<Span>>)
    ensures
        r is None <==> limit_text(s@) is Some && !moderate(limit_text(s@)->0),
        r matches Some(limit) ==> limit == match limit_text(s@) {
            None => None::<Span>,
            Some(input) => match outcome(input) {
                Ok(span) => Some(span),
                Err(_) => None,
            },
        },
{
    match limit_input(s) {
        None => Some(None),
        Some(input) => if is_moderate(input.as_str()) {
            Some(parse_duration_str(s))
        } else {
            None
        },
    }
}

/// Duration law: in milliseconds a duration is less than a millisecond shorter,
/// as long as the number fits in 64 bits.
pub proof fn milliseconds_are_rounded_down(span: Span)
    requires
        span.secs * 1000 + span.nanos as int / 1_000_000 < 0x1_0000_0000_0000_0000,
    ensures
        0 <= span.secs * 1_000_000_000 + span.nanos - span.millis() * 1_000_000 < 1_000_000,
{
}

/// Duration law: what a text is parsed as is handed on as it is.
pub proof fn outcomes_are_handed_on(s: Seq<char>)
    ensures
        match (parsed(s), outcome(s)) {
            (Ok(read), Ok(span)) => span.secs == read.0 && span.nanos == read.1,
            (Err(message), Err(given)) => given == message,
            _ => false,
        },
{
}

/// Limit law: white space around a limit makes no difference, a blank one is
/// none, one with a letter is taken as it is, and one without is a number of
/// seconds, as if it had the unit.
pub proof fn bare_limits_are_seconds(before: Seq<char>, s: Seq<char>, after: Seq<char>)
    requires
        text::blank(before),
        text::blank(after),
        s.len() > 0 ==> !text::white(s[0]) && !text::white(s.last()),
    ensures
        s.len() == 0 ==> limit_text(before + s + after) is None,
        s.len() > 0 && (forall|i: int| 0 <= i < s.len() ==> !text::letter(#[trigger] s[i]))
            ==> limit_text(before + s + after) == Some(s.push('s')),
        s.len() > 0 && (exists|i: int| 0 <= i < s.len() && text::letter(#[trigger] s[i]))
            ==> limit_text(before + s + after) == Some(s),
{
    reveal_strlit("s");
    text::trimming_ignores_what_is_around(before, s, after);
    text::trimming_takes_white_space(s);
    if s.len() > 0 {
        assert(!text::blank(s));
        assert(text::trim_start(s) == 0);
        assert(text::trim_end(s) == s.len());
        assert(s.subrange(0, s.len() as int) =~= s);
        assert(s + "s"@ =~= s.push('s'));
    }
}

/// Duration law: an amount that does not bring the sum near the largest number
/// of seconds carries nothing past it.
pub proof fn small_amounts_do_not_carry(before: (u64, u32), last: Seq<char>)
    requires
        before.1 < 1_000_000_000,
        parsed(last) matches Ok(read) && before.0 + read.0 < u64::MAX - 1 && read.1 < 1_000_000_000,
    ensures
        !may_carry(before, last),
{
}

proof fn parts_are_whole_seconds(s: Seq<char>, from: int, to: int)
    requires
        0 <= from <= to <= s.len(),
        whole_seconds(s),
    ensures
        whole_seconds(s.subrange(from, to)),
{
    let part = s.subrange(from, to);
    parts_hold_no_more(s, from, to, "."@);
    parts_hold_no_more(s, from, to, "ms"@);
    parts_hold_no_more(s, from, to, "msec"@);
    parts_hold_no_more(s, from, to, "millis"@);
    parts_hold_no_more(s, from, to, "us"@);
    parts_hold_no_more(s, from, to, "\u{B5}s"@);
    parts_hold_no_more(s, from, to, "usec"@);
    parts_hold_no_more(s, from, to, "ns"@);
    parts_hold_no_more(s, from, to, "nsec"@);
    parts_hold_no_more(s, from, to, "nanos"@);
}

proof fn parts_hold_no_more(s: Seq<char>, from: int, to: int, word: Seq<char>)
    requires
        0 <= from <= to <= s.len(),
    ensures
        text::holds(s.subrange(from, to), word) ==> text::holds(s, word),
{
    let part = s.subrange(from, to);
    if text::holds(part, word) {
        let at = choose|at: int| text::stands_at(part, word, at);
        assert(s.subrange(from + at, from + at + word.len()) =~= part.subrange(
            at,
            at + word.len(),
        ));
        assert(text::stands_at(s, word, from + at));
    }
}

/// Duration law: a text of whole seconds, minutes or larger units is always
/// taken, however many amounts it has.
pub proof fn whole_seconds_are_taken(s: Seq<char>)
    requires
        whole_seconds(s),
    ensures
        moderate(s),
    decreases s.len(),
{
    let at = last_amount(s);
    if 0 < at < s.len() {
        parts_are_whole_seconds(s, 0, at);
        parts_are_whole_seconds(s, at, s.len() as int);
        whole_seconds_are_taken(s.subrange(0, at));
    }
}

/// Duration law: a text of one amount is always taken.
pub proof fn single_amounts_are_taken(s: Seq<char>)
    requires
        forall|i: int|
            0 < i < s.len() ==> !begins_amount(#[trigger] s.subrange(0, i + 1)),
    ensures
        last_amount(s) == 0,
        moderate(s),
    decreases s.len(),
{
    if s.len() > 0 {
        assert(s.subrange(0, s.len() as int) =~= s);
        if s.len() > 1 {
            assert(!begins_amount(s.subrange(0, (s.len() - 1) + 1)));
        }
        let init = s.drop_last();
        assert forall|i: int| 0 < i < init.len() implies !begins_amount(
            #[trigger] init.subrange(0, i + 1),
        ) by {
            assert(init.subrange(0, i + 1) =~= s.subrange(0, i + 1));
        }
        single_amounts_are_taken(init);
    }
}

/// Duration law: behind an amount with its unit, digits begin another amount,
/// which lasts to the end of its own unit.
pub proof fn amounts_are_told_apart(before: Seq<char>, digits: Seq<char>, unit: Seq<char>)
    requires
        before.len() > 0,
        !text::white(before.last()),
        !('0' as int <= before.last() as int <= '9' as int),
        before.last() != '.',
        digits.len() > 0,
        forall|i: int|
            0 <= i < digits.len() ==> '0' as int <= #[trigger] digits[i] as int <= '9' as int,
        forall|i: int|
            0 <= i < unit.len() ==> !text::white(#[trigger] unit[i]) && !('0' as int
                <= unit[i] as int <= '9' as int),
    ensures
        last_amount(before + digits + unit) == before.len(),
    decreases unit.len(), digits.len(),
{
    let s = before + digits + unit;
    let n = s.len() as int;
    if unit.len() > 0 {
        let shorter = unit.drop_last();
        assert(s.drop_last() =~= before + digits + shorter);
        assert(s.last() == unit[unit.len() - 1]);
        if unit.len() > 1 {
            assert(s[n - 2] == unit[unit.len() - 2]);
        } else {
            assert(s[n - 2] == digits[digits.len() - 1]);
        }
        assert(forall|i: int| 0 <= i < shorter.len() ==> #[trigger] shorter[i] == unit[i]);
        amounts_are_told_apart(before, digits, shorter);
    } else {
        assert(s.last() == digits[digits.len() - 1]);
        if digits.len() > 1 {
            let fewer = digits.drop_last();
            assert(s.drop_last() =~= before + fewer + unit);
            assert(s.drop_last().last() == digits[digits.len() - 2]);
            assert(forall|i: int| 0 <= i < fewer.len() ==> #[trigger] fewer[i] == digits[i]);
            amounts_are_told_apart(before, fewer, unit);
        } else {
            assert(s.drop_last() =~= before);
        }
    }
}

/// Duration law: a text is not taken where its last amount, of a unit below a
/// second and without a fraction, would bring the sum of the others to exactly a
/// second more than the largest number of seconds; nor where one with a fraction
/// would bring it there or less than a millisecond beyond.
pub proof fn carries_past_the_largest_are_refused(
    before: Seq<char>,
    digits: Seq<char>,
    unit: Seq<char>,
    sum: (u64, u32),
    last: (u64, u32),
)
    requires
        last_amount(before + digits + unit) == before.len(),
        before.len() > 0,
        digits.len() > 0,
        parsed(before) == Ok::<(u64, u32), Seq<char>>(sum),
        parsed(digits + unit) == Ok::<(u64, u32), Seq<char>>(last),
        ({
            let amount = digits + unit;
            let beyond = (sum.0 + last.0) * 1_000_000_000 + sum.1 + last.1 - 0x1_0000_0000_0000_0000
                * 1_000_000_000;
            ||| text::holds(amount, "."@) && 0 <= beyond < 1_000_000
            ||| !text::holds(amount, "."@) && sum.0 == u64::MAX && beyond == 0 && (text::holds(
                amount,
                "ms"@,
            ) || text::holds(amount, "us"@) || text::holds(amount, "\u{B5}s"@) || text::holds(
                amount,
                "ns"@,
            ) || text::holds(amount, "millis"@) || text::holds(amount, "nanos"@))
        }),
    ensures
        !moderate(before + digits + unit),
{
    let s = before + digits + unit;
    let at = before.len() as int;
    assert(s.subrange(0, at) =~= before);
    assert(s.subrange(at, s.len() as int) =~= digits + unit);
    assert(may_carry(sum, digits + unit));
}

} // verus!
