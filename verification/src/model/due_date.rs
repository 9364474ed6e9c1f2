use chrono::Datelike;
use vstd::prelude::*;
use vstd::string::StringSliceAdditionalSpecFns;

verus! {

/// A calendar day, held as plain year / month / day values.
#[derive(Clone, Copy, Debug, PartialEq, Eq, Structural)]
pub struct Date {
    pub year: i32,
    pub month: u8,
    pub day: u8,
}

/// A time of day, held as plain hour / minute / second values.
#[derive(Clone, Copy, Debug, PartialEq, Eq, Structural)]
pub struct Time {
    pub hour: u8,
    pub minute: u8,
    pub second: u8,
}

/// When a task is due: either a whole day or an exact moment of one.
#[derive(Clone, Copy, Debug, PartialEq, Eq, Structural)]
pub enum DueDate {
    Date(Date),
    DateTime(Date, Time),
}

/// The due date attached to a task.
#[derive(Clone, Copy, Debug, PartialEq, Eq, Structural)]
pub struct Due {
    pub date: DueDate,
}

/// What scanning a text for a date phrase yields: the day the phrase denotes
/// (relative to the day the scan is given as "today") and the byte range of
/// the phrase in the text.  The scan is a fixed function of the text and that
/// day, so its outcome is given this name and contracts speak of the name.
pub uninterp spec fn due_scan(input: Seq<u8>, today: Date) -> Option<(Date, usize, usize)>;

/// Relies on smart_date::FlexibleDate::find_and_parse_in_str and
/// FlexibleDate::into_naive_date: they find a date phrase in the text and
/// resolve it to a day relative to `today`.  Both results depend on their
/// arguments alone.  Resolving moves `today` up to a week forward, and
/// chrono's calendar ends with the year 262142, where that step would
/// panic: the bound on the year keeps a whole year of room.
#[verifier::external_body]
fn scan_for_due_phrase(input: &str, today: Date) -> (r: Option<(Date, usize, usize)>)
    requires
        today.year <= 262141,
    ensures
        r == due_scan(input.spec_bytes(), today),
{
    let base = chrono::NaiveDate::from_ymd_opt(today.year, u32::from(today.month), u32::from(today.day))?;
    let parsed = smart_date::FlexibleDate::find_and_parse_in_str(input)?;
    let day = parsed.data.into_naive_date(base);
    let date = Date { year: day.year(), month: day.month() as u8, day: day.day() as u8 };
    Some((date, parsed.range.start, parsed.range.end))
}

impl Due {
    /// Scans `input` for a date phrase.  On a match, returns the due date the
    /// phrase denotes together with the byte range of the phrase in `input`.
    /// `today` must lie before chrono's last calendar year, 262142: the
    /// phrase is resolved by moving `today` up to a week forward.
    #[must_use]
    pub fn parse_from_str(input: &str, today: Date) -> (r: Option<(Due, (usize, usize))>)
        requires
            today.year <= 262141,
        ensures
            r == (match due_scan(input.spec_bytes(), today) {
                Some(t) => Some((Due { date: DueDate::Date(t.0) }, (t.1, t.2))),
                None => None::<(Due, (usize, usize))>,
            }),
    {
        match scan_for_due_phrase(input, today) {
            Some((date, start, end)) => Some((Due { date: DueDate::Date(date) }, (start, end))),
            None => None,
        }
    }

    /// Accepts a date phrase only where it spans the whole of `input`:
    /// anything else scans as `None`.  `today` is bounded as in
    /// `parse_from_str`.
    #[must_use]
    pub fn parse_exact(input: &str, today: Date) -> (r: Option<Due>)
        requires
            today.year <= 262141,
        ensures
            r == (match due_scan(input.spec_bytes(), today) {
                Some(t) => if t.1 == 0 && t.2 == input.spec_bytes().len() as usize {
                    Some(Due { date: DueDate::Date(t.0) })
                } else {
                    None::<Due>
                },
                None => None::<Due>,
            }),
    {
        match Due::parse_from_str(input, today) {
            Some((due, (start, end))) => {
                if start == 0 && end == input.len() {
                    Some(due)
                } else {
                    None
                }
            },
            None => None,
        }
    }
}

/// The text of an entry with the scanned date phrase taken out: the bytes
/// before the phrase, then the bytes past it and one joining byte (the
/// blank the phrase was set off by), both ends clamped to the text.
pub open spec fn without_phrase(bytes: Seq<u8>, start: usize, end: usize) -> Seq<u8> {
    let cut_from: int = if start > bytes.len() {
        bytes.len() as int
    } else {
        start as int
    };
    let resume: int = if end + 1 > bytes.len() {
        bytes.len() as int
    } else {
        end + 1
    };
    bytes.take(cut_from) + bytes.skip(resume)
}

/// Cuts the byte range of a scanned phrase, and the byte joining it to the
/// rest, out of an entry's text.
pub fn cut_phrase_bytes(bytes: &[u8], start: usize, end: usize) -> (r: Vec<u8>)
    ensures
        r@ == without_phrase(bytes@, start, end),
{
    let n = bytes.len();
    let cut_from = if start > n {
        n
    } else {
        start
    };
    let resume = if end >= n {
        n
    } else {
        end + 1
    };
    let mut r: Vec<u8> = Vec::new();
    let mut i: usize = 0;
    proof {
        assert(r@ =~= bytes@.take(0));
    }
    while i < cut_from
        invariant
            n == bytes@.len(),
            cut_from <= n,
            i <= cut_from,
            r@ == bytes@.take(i as int),
        decreases cut_from - i,
    {
        r.push(bytes[i]);
        i += 1;
        proof {
            assert(bytes@.take(i as int) =~= bytes@.take(i as int - 1).push(bytes@[i as int - 1]));
        }
    }
    let mut j: usize = resume;
    proof {
        assert(bytes@.subrange(resume as int, resume as int) =~= Seq::<u8>::empty());
        assert(r@ =~= bytes@.take(cut_from as int) + bytes@.subrange(resume as int, resume as int));
    }
    while j < n
        invariant
            n == bytes@.len(),
            resume <= j <= n,
            cut_from <= n,
            r@ == bytes@.take(cut_from as int) + bytes@.subrange(resume as int, j as int),
        decreases n - j,
    {
        r.push(bytes[j]);
        j += 1;
        proof {
            assert(bytes@.subrange(resume as int, j as int) =~= bytes@.subrange(
                resume as int,
                j as int - 1,
            ).push(bytes@[j as int - 1]));
            assert(bytes@.take(cut_from as int) + bytes@.subrange(resume as int, j as int) =~= (
            bytes@.take(cut_from as int) + bytes@.subrange(resume as int, j as int - 1)).push(
                bytes@[j as int - 1],
            ));
        }
    }
    proof {
        assert(bytes@.subrange(resume as int, n as int) =~= bytes@.skip(resume as int));
        assert(r@ =~= without_phrase(bytes@, start, end));
    }
    r
}

/// The character of one decimal digit.
pub open spec fn digit_char(d: int) -> char {
    if d == 0 {
        '0'
    } else if d == 1 {
        '1'
    } else if d == 2 {
        '2'
    } else if d == 3 {
        '3'
    } else if d == 4 {
        '4'
    } else if d == 5 {
        '5'
    } else if d == 6 {
        '6'
    } else if d == 7 {
        '7'
    } else if d == 8 {
        '8'
    } else {
        '9'
    }
}

/// The decimal digits of `n`, most significant first.
pub open spec fn dec_digits(n: int) -> Seq<char>
    decreases n,
{
    if n < 10 {
        seq![digit_char(n)]
    } else {
        dec_digits(n / 10).push(digit_char(n % 10))
    }
}

/// The decimal digits of `n`, zero-padded to at least two places.
pub open spec fn padded2(n: int) -> Seq<char> {
    if n < 10 {
        seq!['0'] + dec_digits(n)
    } else {
        dec_digits(n)
    }
}

/// The decimal digits of `n`, zero-padded to at least four places.
pub open spec fn padded4(n: int) -> Seq<char> {
    if n < 10 {
        seq!['0', '0', '0'] + dec_digits(n)
    } else if n < 100 {
        seq!['0', '0'] + dec_digits(n)
    } else if n < 1000 {
        seq!['0'] + dec_digits(n)
    } else {
        dec_digits(n)
    }
}

/// How a day reads: four-digit year, two-digit month and day, dashes in
/// between, a leading sign for a year before the common era.
pub open spec fn date_text(d: Date) -> Seq<char> {
    (if d.year < 0 {
        seq!['-'] + padded4(-(d.year as int))
    } else {
        padded4(d.year as int)
    }) + seq!['-'] + padded2(d.month as int) + seq!['-'] + padded2(d.day as int)
}

/// How a time of day reads: two digits each for hour, minute and second,
/// colons in between.
pub open spec fn time_text(t: Time) -> Seq<char> {
    padded2(t.hour as int) + seq![':'] + padded2(t.minute as int) + seq![':'] + padded2(
        t.second as int,
    )
}

/// How a due date reads: the day, and for an exact moment the time of day
/// after a space.
pub open spec fn due_text(d: Due) -> Seq<char> {
    match d.date {
        DueDate::Date(day) => date_text(day),
        DueDate::DateTime(day, time) => date_text(day) + seq![' '] + time_text(time),
    }
}

/// Relies on String::push: appends one character at the end of the text.
#[verifier::external_body]
fn push_char(s: &mut String, c: char)
    ensures
        final(s)@ == old(s)@.push(c),
{
    s.push(c);
}

/// Appends one decimal digit.
fn push_digit(s: &mut String, d: u32)
    requires
        d < 10,
    ensures
        final(s)@ == old(s)@.push(digit_char(d as int)),
{
    match d {
        0 => push_char(s, '0'),
        1 => push_char(s, '1'),
        2 => push_char(s, '2'),
        3 => push_char(s, '3'),
        4 => push_char(s, '4'),
        5 => push_char(s, '5'),
        6 => push_char(s, '6'),
        7 => push_char(s, '7'),
        8 => push_char(s, '8'),
        _ => push_char(s, '9'),
    }
}

/// Appends the decimal digits of `n`.
fn push_decimal(s: &mut String, n: u32)
    ensures
        final(s)@ == old(s)@ + dec_digits(n as int),
    decreases n,
{
    if n < 10 {
        push_digit(s, n);
        proof {
            assert(old(s)@.push(digit_char(n as int)) =~= old(s)@ + dec_digits(n as int));
        }
    } else {
        push_decimal(s, n / 10);
        push_digit(s, n % 10);
        proof {
            assert((old(s)@ + dec_digits(n as int / 10)).push(digit_char(n as int % 10)) =~= old(
                s,
            )@ + dec_digits(n as int));
        }
    }
}

/// Appends the decimal digits of `n`, zero-padded to at least two places.
fn push_padded2(s: &mut String, n: u32)
    ensures
        final(s)@ == old(s)@ + padded2(n as int),
{
    if n < 10 {
        push_char(s, '0');
        push_decimal(s, n);
        proof {
            assert(old(s)@.push('0') =~= old(s)@ + seq!['0']);
            assert((old(s)@ + seq!['0']) + dec_digits(n as int) =~= old(s)@ + padded2(n as int));
        }
    } else {
        push_decimal(s, n);
    }
}

/// Appends the decimal digits of `n`, zero-padded to at least four places.
fn push_padded4(s: &mut String, n: u32)
    ensures
        final(s)@ == old(s)@ + padded4(n as int),
{
    if n < 10 {
        push_char(s, '0');
        push_char(s, '0');
        push_char(s, '0');
        push_decimal(s, n);
        proof {
            assert(old(s)@.push('0').push('0').push('0') + dec_digits(n as int) =~= old(s)@
                + padded4(n as int));
        }
    } else if n < 100 {
        push_char(s, '0');
        push_char(s, '0');
        push_decimal(s, n);
        proof {
            assert(old(s)@.push('0').push('0') + dec_digits(n as int) =~= old(s)@ + padded4(
                n as int,
            ));
        }
    } else if n < 1000 {
        push_char(s, '0');
        push_decimal(s, n);
        proof {
            assert(old(s)@.push('0') + dec_digits(n as int) =~= old(s)@ + padded4(n as int));
        }
    } else {
        push_decimal(s, n);
    }
}

/// Appends how the day reads.
fn push_date(s: &mut String, d: Date)
    ensures
        final(s)@ == old(s)@ + date_text(d),
{
    if d.year < 0 {
        push_char(s, '-');
        let magnitude = (-(d.year as i64)) as u32;
        push_padded4(s, magnitude);
        proof {
            assert(old(s)@.push('-') =~= old(s)@ + seq!['-']);
        }
    } else {
        push_padded4(s, d.year as u32);
    }
    push_char(s, '-');
    push_padded2(s, u32::from(d.month));
    push_char(s, '-');
    push_padded2(s, u32::from(d.day));
    proof {
        let y = if d.year < 0 {
            seq!['-'] + padded4(-(d.year as int))
        } else {
            padded4(d.year as int)
        };
        assert((((old(s)@ + y).push('-') + padded2(d.month as int)).push('-') + padded2(
            d.day as int,
        )) =~= old(s)@ + date_text(d));
    }
}

impl Due {
    /// How the due date reads on screen.
    #[must_use]
    pub fn to_display_string(&self) -> (r: String)
        ensures
            r@ == due_text(*self),
    {
        let mut s = String::new();
        match self.date {
            DueDate::Date(day) => {
                push_date(&mut s, day);
            },
            DueDate::DateTime(day, time) => {
                push_date(&mut s, day);
                push_char(&mut s, ' ');
                push_padded2(&mut s, u32::from(time.hour));
                push_char(&mut s, ':');
                push_padded2(&mut s, u32::from(time.minute));
                push_char(&mut s, ':');
                push_padded2(&mut s, u32::from(time.second));
                proof {
                    assert(((((date_text(day).push(' ') + padded2(time.hour as int)).push(':')
                        + padded2(time.minute as int)).push(':') + padded2(time.second as int)))
                        =~= due_text(*self));
                }
            },
        }
        s
    }
}

} // verus!
