//! Instants, local calendar fields in the display time zone, and the display
//! pattern `YYYY-MM-DD HH:MM:SS`.
use vstd::prelude::*;
use chrono::{Datelike, Timelike};

verus! {

/// An absolute instant: whole seconds since the Unix epoch, in UTC, and the
/// nanoseconds past that second.
#[derive(Clone, Copy, PartialEq, Eq, Structural, Debug)]
pub struct UtcInstant {
    pub secs: i64,
    pub nanos: u32,
}

/// Calendar date and time of day in the display time zone.
#[derive(Clone, Copy, PartialEq, Eq, Structural, Debug)]
pub struct LocalTime {
    pub year: i32,
    pub month: u32,
    pub day: u32,
    pub hour: u32,
    pub minute: u32,
    pub second: u32,
}

/// What chrono's RFC 2822 parser makes of a text: seconds and nanoseconds.
pub uninterp spec fn rfc2822_instant(s: Seq<char>) -> Option<(int, int)>;

/// What chrono's relaxed RFC 3339 parser for UTC instants makes of a text.
pub uninterp spec fn rfc3339_instant(s: Seq<char>) -> Option<(int, int)>;

/// The calendar fields of an instant in the Europe/Oslo zone, as chrono-tz
/// computes them from its zone table.
pub uninterp spec fn oslo_fields(secs: int, nanos: int) -> Option<(int, int, int, int, int, int)>;

pub open spec fn fields_of(l: LocalTime) -> (int, int, int, int, int, int) {
    (l.year as int, l.month as int, l.day as int, l.hour as int, l.minute as int, l.second as int)
}

/// Field ranges of a calendar date and time of day.
pub open spec fn local_wf(l: LocalTime) -> bool {
    1 <= l.month <= 12 && 1 <= l.day <= 31 && l.hour < 24 && l.minute < 60 && l.second < 60
}

pub open spec fn instant_of(p: (int, int)) -> UtcInstant {
    UtcInstant { secs: p.0 as i64, nanos: p.1 as u32 }
}

/// Relies on chrono's `DateTime::parse_from_rfc2822`, converted to UTC by
/// `timestamp` and `timestamp_subsec_nanos`.
#[verifier::external_body]
fn parse_rfc2822(s: &str) -> (r: Option<UtcInstant>)
    ensures
        match r {
            Some(t) => rfc2822_instant(s@) == Some((t.secs as int, t.nanos as int)),
            None => rfc2822_instant(s@) is None,
        },
{
    chrono::DateTime::parse_from_rfc2822(s).ok().map(
        |d| UtcInstant { secs: d.timestamp(), nanos: d.timestamp_subsec_nanos() },
    )
}

/// Relies on chrono's `FromStr` for `DateTime<Utc>` (relaxed RFC 3339).
#[verifier::external_body]
fn parse_rfc3339(s: &str) -> (r: Option<UtcInstant>)
    ensures
        match r {
            Some(t) => rfc3339_instant(s@) == Some((t.secs as int, t.nanos as int)),
            None => rfc3339_instant(s@) is None,
        },
{
    s.parse::<chrono::DateTime<chrono::Utc>>().ok().map(
        |d| UtcInstant { secs: d.timestamp(), nanos: d.timestamp_subsec_nanos() },
    )
}

/// Relies on chrono's `DateTime::from_timestamp` and `with_timezone` to
/// chrono-tz's `Europe::Oslo`; `Datelike` and `Timelike` document the ranges
/// of month, day, hour, minute and second.
#[verifier::external_body]
fn oslo_local(t: UtcInstant) -> (r: Option<LocalTime>)
    ensures
        match r {
            Some(l) => oslo_fields(t.secs as int, t.nanos as int) == Some(fields_of(l)) && local_wf(l),
            None => oslo_fields(t.secs as int, t.nanos as int) is None,
        },
{
    chrono::DateTime::from_timestamp(t.secs, t.nanos).map(|d| {
        let l = d.with_timezone(&chrono_tz::Europe::Oslo);
        LocalTime {
            year: l.year(),
            month: l.month(),
            day: l.day(),
            hour: l.hour(),
            minute: l.minute(),
            second: l.second(),
        }
    })
}

/// Parses a wire timestamp of the syndication source (RFC 2822).
pub fn parse_feed_time(s: &str) -> (r: Option<UtcInstant>)
    ensures
        r == match rfc2822_instant(s@) {
            Some(p) => Some(instant_of(p)),
            None => None::<UtcInstant>,
        },
{
    parse_rfc2822(s)
}

/// Parses a wire timestamp of the metadata-lookup source (RFC 3339).
pub fn parse_lookup_time(s: &str) -> (r: Option<UtcInstant>)
    ensures
        r == match rfc3339_instant(s@) {
            Some(p) => Some(instant_of(p)),
            None => None::<UtcInstant>,
        },
{
    parse_rfc3339(s)
}

/// The calendar fields of an instant in the display time zone.
pub fn to_local(t: UtcInstant) -> (r: Option<LocalTime>)
    ensures
        match r {
            Some(l) => oslo_fields(t.secs as int, t.nanos as int) == Some(fields_of(l)) && local_wf(l),
            None => oslo_fields(t.secs as int, t.nanos as int) is None,
        },
{
    oslo_local(t)
}

pub open spec fn digit(d: int) -> char {
    if d == 0 { '0' } else if d == 1 { '1' } else if d == 2 { '2' } else if d == 3 { '3' }
    else if d == 4 { '4' } else if d == 5 { '5' } else if d == 6 { '6' } else if d == 7 { '7' }
    else if d == 8 { '8' } else { '9' }
}

pub open spec fn is_digit(c: char) -> bool {
    '0' <= c && c <= '9'
}

pub open spec fn digit_value(c: char) -> int {
    c as int - '0' as int
}

/// The last `w` decimal digits of `n`, most significant first.
pub open spec fn fixed(n: nat, w: nat) -> Seq<char>
    decreases w,
{
    if w == 0 {
        Seq::empty()
    } else {
        fixed(n / 10, (w - 1) as nat).push(digit((n % 10) as int))
    }
}

/// The number of decimal digits of `n`.
pub open spec fn ndigits(n: nat) -> nat
    decreases n,
{
    if n < 10 { 1 } else { 1 + ndigits(n / 10) }
}

/// The value of a sequence of decimal digits.
pub open spec fn value(s: Seq<char>) -> int
    decreases s.len(),
{
    if s.len() == 0 { 0 } else { value(s.drop_last()) * 10 + digit_value(s.last()) }
}

pub open spec fn abs(y: int) -> nat {
    if y < 0 { (-y) as nat } else { y as nat }
}

/// A year as four digits; outside 0..=9999 with a sign and at least four digits.
pub open spec fn year_text(y: int) -> Seq<char> {
    let w: nat = if ndigits(abs(y)) < 4 { 4 } else { ndigits(abs(y)) };
    if 0 <= y <= 9999 {
        fixed(y as nat, 4)
    } else if y < 0 {
        seq!['-'] + fixed(abs(y), w)
    } else {
        seq!['+'] + fixed(abs(y), w)
    }
}

/// The display text `YYYY-MM-DD HH:MM:SS` of local calendar fields.
pub open spec fn display_of(l: LocalTime) -> Seq<char> {
    year_text(l.year as int) + seq!['-'] + fixed(l.month as nat, 2) + seq!['-'] + fixed(l.day as nat, 2)
        + seq![' '] + fixed(l.hour as nat, 2) + seq![':'] + fixed(l.minute as nat, 2) + seq![':']
        + fixed(l.second as nat, 2)
}


pub open spec fn pow10(k: nat) -> nat
    decreases k,
{
    if k == 0 { 1 } else { 10 * pow10((k - 1) as nat) }
}

proof fn lemma_digit(d: int)
    requires
        0 <= d < 10,
    ensures
        is_digit(digit(d)),
        digit_value(digit(d)) == d,
{
}

proof fn lemma_fixed(n: nat, w: nat)
    ensures
        fixed(n, w).len() == w,
        forall|i: int| 0 <= i < w ==> is_digit(#[trigger] fixed(n, w)[i]),
    decreases w,
{
    if w > 0 {
        lemma_fixed(n / 10, (w - 1) as nat);
        lemma_digit((n % 10) as int);
    }
}

proof fn lemma_value_zero(w: nat)
    ensures
        value(fixed(0, w)) == 0,
    decreases w,
{
    if w > 0 {
        lemma_value_zero((w - 1) as nat);
        lemma_digit(0);
        assert(fixed(0, w).drop_last() =~= fixed(0, (w - 1) as nat));
    }
}

proof fn lemma_value_fixed(n: nat, w: nat)
    requires
        ndigits(n) <= w,
    ensures
        value(fixed(n, w)) == n,
    decreases w,
{
    let f = fixed(n, w);
    assert(f.drop_last() =~= fixed(n / 10, (w - 1) as nat));
    lemma_digit((n % 10) as int);
    if n < 10 {
        lemma_value_zero((w - 1) as nat);
    } else {
        lemma_value_fixed(n / 10, (w - 1) as nat);
    }
}

proof fn lemma_pow10_mono(a: nat, b: nat)
    requires
        a <= b,
    ensures
        pow10(a) <= pow10(b),
    decreases b,
{
    if a < b {
        lemma_pow10_mono(a, (b - 1) as nat);
    }
}

proof fn lemma_ndigits_le(n: nat, k: nat)
    requires
        k >= 1,
        n < pow10(k),
    ensures
        ndigits(n) <= k,
    decreases k,
{
    if n >= 10 {
        if k == 1 {
            assert(pow10(1) == 10) by {
                reveal_with_fuel(pow10, 2);
            }
        } else {
            lemma_ndigits_le(n / 10, (k - 1) as nat);
        }
    }
}

proof fn lemma_year_text(y: int)
    requires
        i32::MIN <= y <= i32::MAX,
    ensures
        year_text(y).len() >= 4,
        year_text(y).len() <= 11,
        0 <= y <= 9999 ==> year_text(y) == fixed(y as nat, 4) && ndigits(y as nat) <= 4,
        !(0 <= y <= 9999) ==> year_text(y).len() - 1 <= 10 && year_text(y).drop_first()
            == fixed(abs(y), (year_text(y).len() - 1) as nat) && ndigits(abs(y)) <= year_text(y).len() - 1
            && year_text(y)[0] == (if y < 0 { '-' } else { '+' }),
        is_digit(year_text(y)[0]) <==> 0 <= y <= 9999,
{
    assert(pow10(4) == 10000 && pow10(10) == 10000000000) by {
        reveal_with_fuel(pow10, 11);
    }
    lemma_ndigits_le(abs(y), 10);
    let w: nat = if ndigits(abs(y)) < 4 { 4 } else { ndigits(abs(y)) };
    lemma_fixed(abs(y), w);
    if 0 <= y <= 9999 {
        lemma_ndigits_le(y as nat, 4);
    } else {
        assert(year_text(y).drop_first() =~= fixed(abs(y), w));
    }
}

proof fn lemma_display_parts(l: LocalTime)
    ensures
        ({
            let d = display_of(l);
            let y = year_text(l.year as int);
            let n = d.len() as int;
            &&& y.len() >= 4
            &&& n == y.len() + 15
            &&& d.subrange(0, y.len() as int) == y
            &&& d[n - 15] == '-'
            &&& d.subrange(n - 14, n - 12) == fixed(l.month as nat, 2)
            &&& d[n - 12] == '-'
            &&& d.subrange(n - 11, n - 9) == fixed(l.day as nat, 2)
            &&& d[n - 9] == ' '
            &&& d.subrange(n - 8, n - 6) == fixed(l.hour as nat, 2)
            &&& d[n - 6] == ':'
            &&& d.subrange(n - 5, n - 3) == fixed(l.minute as nat, 2)
            &&& d[n - 3] == ':'
            &&& d.subrange(n - 2, n) == fixed(l.second as nat, 2)
        }),
{
    lemma_year_text(l.year as int);
    lemma_fixed(l.month as nat, 2);
    lemma_fixed(l.day as nat, 2);
    lemma_fixed(l.hour as nat, 2);
    lemma_fixed(l.minute as nat, 2);
    lemma_fixed(l.second as nat, 2);
    let d = display_of(l);
    let y = year_text(l.year as int);
    let n = d.len() as int;
    assert(d.subrange(0, y.len() as int) =~= y);
    assert(d.subrange(n - 14, n - 12) =~= fixed(l.month as nat, 2));
    assert(d.subrange(n - 11, n - 9) =~= fixed(l.day as nat, 2));
    assert(d.subrange(n - 8, n - 6) =~= fixed(l.hour as nat, 2));
    assert(d.subrange(n - 5, n - 3) =~= fixed(l.minute as nat, 2));
    assert(d.subrange(n - 2, n) =~= fixed(l.second as nat, 2));
}

fn push_digit(s: &mut String, d: u32)
    requires
        d < 10,
    ensures
        final(s)@ == old(s)@.push(digit(d as int)),
{
    if d == 0 {
        proof { reveal_strlit("0"); }
        s.append("0");
    } else if d == 1 {
        proof { reveal_strlit("1"); }
        s.append("1");
    } else if d == 2 {
        proof { reveal_strlit("2"); }
        s.append("2");
    } else if d == 3 {
        proof { reveal_strlit("3"); }
        s.append("3");
    } else if d == 4 {
        proof { reveal_strlit("4"); }
        s.append("4");
    } else if d == 5 {
        proof { reveal_strlit("5"); }
        s.append("5");
    } else if d == 6 {
        proof { reveal_strlit("6"); }
        s.append("6");
    } else if d == 7 {
        proof { reveal_strlit("7"); }
        s.append("7");
    } else if d == 8 {
        proof { reveal_strlit("8"); }
        s.append("8");
    } else {
        proof { reveal_strlit("9"); }
        s.append("9");
    }
}

fn push_fixed(s: &mut String, n: u32, w: usize)
    ensures
        final(s)@ == old(s)@ + fixed(n as nat, w as nat),
    decreases w,
{
    if w > 0 {
        push_fixed(s, n / 10, w - 1);
        push_digit(s, n % 10);
    }
    assert(final(s)@ =~= old(s)@ + fixed(n as nat, w as nat));
}

fn push_char(s: &mut String, c: &str)
    ensures
        final(s)@ == old(s)@ + c@,
{
    s.append(c);
}

fn count_digits(n: u32) -> (r: usize)
    ensures
        r == ndigits(n as nat),
        r <= 10,
    decreases n,
{
    if n < 10 {
        1
    } else {
        let k = count_digits(n / 10);
        proof {
            assert(pow10(10) == 10000000000) by {
                reveal_with_fuel(pow10, 11);
            }
            lemma_ndigits_le(n as nat, 10);
        }
        k + 1
    }
}

/// Renders local calendar fields in the display pattern `YYYY-MM-DD HH:MM:SS`.
pub fn format_display(l: LocalTime) -> (r: String)
    ensures
        r@ == display_of(l),
{
    let mut s = String::new();
    let y = l.year;
    if 0 <= y && y <= 9999 {
        push_fixed(&mut s, y as u32, 4);
    } else {
        let a: u32 = if y < 0 { (-(y as i64)) as u32 } else { y as u32 };
        let k = count_digits(a);
        let w: usize = if k < 4 { 4 } else { k };
        if y < 0 {
            proof { reveal_strlit("-"); }
            push_char(&mut s, "-");
        } else {
            proof { reveal_strlit("+"); }
            push_char(&mut s, "+");
        }
        push_fixed(&mut s, a, w);
    }
    assert(s@ =~= year_text(y as int));
    proof {
        reveal_strlit("-");
        reveal_strlit(" ");
        reveal_strlit(":");
    }
    push_char(&mut s, "-");
    push_fixed(&mut s, l.month, 2);
    push_char(&mut s, "-");
    push_fixed(&mut s, l.day, 2);
    push_char(&mut s, " ");
    push_fixed(&mut s, l.hour, 2);
    push_char(&mut s, ":");
    push_fixed(&mut s, l.minute, 2);
    push_char(&mut s, ":");
    push_fixed(&mut s, l.second, 2);
    assert(s@ =~= display_of(l));
    s
}


fn char_digit(c: char) -> (r: Option<u32>)
    ensures
        match r {
            Some(v) => is_digit(c) && v == digit_value(c) && v < 10,
            None => !is_digit(c),
        },
{
    if '0' <= c && c <= '9' {
        Some((c as u32) - ('0' as u32))
    } else {
        None
    }
}

/// Reads two decimal digits at `i`.
fn two_digits(s: &str, i: usize) -> (r: Option<u32>)
    requires
        i + 2 <= s@.len(),
    ensures
        forall|n: nat| n < 100 && s@.subrange(i as int, i + 2) == fixed(n, 2) ==> r == Some(n as u32),
        r matches Some(v) ==> v < 100,
{
    let _len = s.unicode_len();
    let a = char_digit(s.get_char(i));
    let b = char_digit(s.get_char(i + 1));
    let r = match (a, b) {
        (Some(x), Some(y)) => Some(x * 10 + y),
        _ => None,
    };
    proof {
        assert forall|n: nat| n < 100 && s@.subrange(i as int, i + 2) == fixed(n, 2) implies r == Some(
            n as u32,
        ) by {
            reveal_with_fuel(fixed, 3);
            lemma_digit(((n / 10) % 10) as int);
            lemma_digit((n % 10) as int);
            assert(s@[i as int] == s@.subrange(i as int, i + 2)[0]);
            assert(s@[i + 1] == s@.subrange(i as int, i + 2)[1]);
        }
    }
    r
}

/// Reads a year written as `year_text` in `s[0..end]`.
fn parse_year(s: &str, end: usize) -> (r: Option<i32>)
    requires
        end <= s@.len(),
    ensures
        forall|y: i32| s@.subrange(0, end as int) == year_text(y as int) ==> r == Some(y),
{
    if end < 4 || end > 11 {
        proof {
            assert forall|y: i32| s@.subrange(0, end as int) == year_text(y as int) implies false by {
                lemma_year_text(y as int);
            }
        }
        return None;
    }
    let c0 = s.get_char(0);
    let start: usize = if c0 == '-' || c0 == '+' { 1 } else { 0 };
    if start == 0 && end != 4 {
        proof {
            assert forall|y: i32| s@.subrange(0, end as int) == year_text(y as int) implies false by {
                lemma_year_text(y as int);
                lemma_fixed(y as nat, 4);
                assert(s@[0] == s@.subrange(0, end as int)[0]);
            }
        }
        return None;
    }
    let ghost ds = s@.subrange(start as int, end as int);
    let mut acc: u64 = 0;
    let mut i: usize = start;
    proof {
        assert(pow10(10) == 10000000000) by {
            reveal_with_fuel(pow10, 11);
        }
    }
    while i < end
        invariant
            start <= i <= end,
            end - start <= 10,
            4 <= end <= s@.len(),
            c0 == s@[0],
            start == (if c0 == '-' || c0 == '+' { 1usize } else { 0usize }),
            start == 0 ==> end == 4,
            pow10(10) == 10000000000,
            acc == value(s@.subrange(start as int, i as int)),
            acc < pow10((i - start) as nat),
        decreases end - i,
    {
        match char_digit(s.get_char(i)) {
            Some(d) => {
                proof {
                    lemma_pow10_mono((i - start) as nat, 9);
                    assert(s@.subrange(start as int, i + 1).drop_last() =~= s@.subrange(
                        start as int,
                        i as int,
                    ));
                }
                acc = acc * 10 + d as u64;
                i = i + 1;
            },
            None => {
                proof {
                    assert forall|y: i32| s@.subrange(0, end as int) == year_text(y as int) implies false by {
                        lemma_year_text(y as int);
                        let t = year_text(y as int);
                        assert(s@[0] == s@.subrange(0, end as int)[0]);
                        assert(s@[i as int] == s@.subrange(0, end as int)[i as int]);
                        if 0 <= y <= 9999 {
                            lemma_fixed(y as nat, 4);
                            assert(t[i as int] == s@[i as int]);
                        } else {
                            lemma_fixed(abs(y as int), (t.len() - 1) as nat);
                            assert(t.drop_first()[i - 1] == s@[i as int]);
                        }
                    }
                }
                return None;
            },
        }
    }
    proof {
        lemma_pow10_mono((end - start) as nat, 10);
        assert(pow10(4) == 10000) by {
            reveal_with_fuel(pow10, 5);
        }
    }
    let r: Option<i32> = if start == 0 {
        Some(acc as i32)
    } else if c0 == '-' {
        if acc <= 2147483648 {
            Some((0 - (acc as i64)) as i32)
        } else {
            None
        }
    } else {
        if acc <= 2147483647 {
            Some(acc as i32)
        } else {
            None
        }
    };
    proof {
        assert forall|y: i32| s@.subrange(0, end as int) == year_text(y as int) implies r == Some(y) by {
            lemma_year_text(y as int);
            let t = year_text(y as int);
            assert(s@[0] == t[0]);
            if 0 <= y <= 9999 {
                assert(ds =~= t);
                lemma_value_fixed(y as nat, 4);
            } else {
                assert(ds =~= t.drop_first());
                lemma_value_fixed(abs(y as int), (t.len() - 1) as nat);
            }
        }
    }
    r
}

/// Reads the display pattern `YYYY-MM-DD HH:MM:SS` back into calendar fields.
/// Text that `format_display` made of well-formed fields gives those fields.
pub fn parse_display(s: &str) -> (r: Option<LocalTime>)
    ensures
        forall|l: LocalTime| local_wf(l) && display_of(l) == s@ ==> r == Some(l),
        r matches Some(l) ==> local_wf(l),
{
    let n = s.unicode_len();
    if n < 19 {
        proof {
            assert forall|l: LocalTime| local_wf(l) && display_of(l) == s@ implies false by {
                lemma_display_parts(l);
            }
        }
        return None;
    }
    let seps = s.get_char(n - 15) == '-' && s.get_char(n - 12) == '-' && s.get_char(n - 9) == ' '
        && s.get_char(n - 6) == ':' && s.get_char(n - 3) == ':';
    let year = parse_year(s, n - 15);
    let month = two_digits(s, n - 14);
    let day = two_digits(s, n - 11);
    let hour = two_digits(s, n - 8);
    let minute = two_digits(s, n - 5);
    let second = two_digits(s, n - 2);
    let r = match (year, month, day, hour, minute, second) {
        (Some(y), Some(mo), Some(d), Some(h), Some(mi), Some(se)) => {
            let l = LocalTime { year: y, month: mo, day: d, hour: h, minute: mi, second: se };
            if seps && 1 <= mo && mo <= 12 && 1 <= d && d <= 31 && h < 24 && mi < 60 && se < 60 {
                Some(l)
            } else {
                None
            }
        },
        _ => None,
    };
    proof {
        assert forall|l: LocalTime| local_wf(l) && display_of(l) == s@ implies r == Some(l) by {
            lemma_display_parts(l);
        }
    }
    r
}

} // verus!
