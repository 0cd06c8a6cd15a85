//! The date a message was sent, taken from its transport headers.

use crate::error::MsgError;
use crate::text::{chars_of, copy_range, find, find_chars, lines, lines_of, starts_with, string_of, views};
use vstd::prelude::*;

verus! {

/// `chrono::ParseError`, mapped to [`MsgError::FormatViolation`].
#[verifier::external_type_specification]
#[verifier::external_body]
pub struct ExParseError(chrono::ParseError);

/// A point in time, with the offset from UTC under which it was written.
#[derive(Debug, Clone, Copy, PartialEq, Eq, Structural)]
pub struct Timestamp {
    /// Seconds since 1970-01-01T00:00:00Z, leap seconds not counted.
    pub seconds: i64,
    /// Nanoseconds since the last full second.
    pub nanos: u32,
    /// Seconds that the local time of the writer is ahead of UTC.
    pub offset_seconds: i32,
}

impl Timestamp {
    /// The same point in time, written in UTC.
    pub open spec fn utc(self) -> Timestamp {
        Timestamp { seconds: self.seconds, nanos: self.nanos, offset_seconds: 0 }
    }

    /// The same point in time, written in UTC.
    pub fn to_utc(&self) -> (t: Timestamp)
        ensures
            t == self.utc(),
    {
        Timestamp { seconds: self.seconds, nanos: self.nanos, offset_seconds: 0 }
    }
}

/// What `chrono::DateTime::parse_from_rfc2822` makes of `text`: the seconds
/// since the epoch, the nanoseconds within the second and the offset from UTC
/// in seconds, or nothing where it reports an error.
pub uninterp spec fn rfc2822_instant(text: Seq<char>) -> Option<(i64, u32, i32)>;

/// Trusted: `chrono::DateTime::parse_from_rfc2822`, the date handed out as
/// plain numbers. Its outcome is a function of the text alone.
#[verifier::external_body]
fn parse_rfc2822(text: &str) -> (r: Result<(i64, u32, i32), chrono::ParseError>)
    ensures
        match r {
            Ok(instant) => rfc2822_instant(text@) == Some(instant),
            Err(_) => rfc2822_instant(text@) is None,
        },
{
    let date = chrono::DateTime::parse_from_rfc2822(text)?;
    Ok((date.timestamp(), date.timestamp_subsec_nanos(), date.offset().local_minus_utc()))
}

/// The word with which a date line begins.
pub open spec fn date_word() -> Seq<char> {
    seq!['D', 'a', 't', 'e']
}

/// The mark after which the date stands on its line.
pub open spec fn date_mark() -> Seq<char> {
    seq![':', ' ']
}

/// The first of `lines` that begins with `prefix`.
pub open spec fn first_with_prefix(lines: Seq<Seq<char>>, prefix: Seq<char>) -> Option<Seq<char>>
    decreases lines.len(),
{
    if lines.len() == 0 {
        None
    } else if prefix.is_prefix_of(lines[0]) {
        Some(lines[0])
    } else {
        first_with_prefix(lines.skip(1), prefix)
    }
}

/// The text of the date in transport headers: what follows the first `": "`
/// on the first line that begins with `Date`. Headers without such a line, or
/// with no `": "` on it, violate the format.
pub open spec fn date_text(headers: Seq<char>) -> Result<Seq<char>, MsgError> {
    match first_with_prefix(lines(headers), date_word()) {
        None => Err(MsgError::FormatViolation),
        Some(line) => match find(line, date_mark()) {
            None => Err(MsgError::FormatViolation),
            Some(at) => Ok(line.skip(at + 2)),
        },
    }
}

/// The date that `text` states in the form of RFC 2822.
pub open spec fn rfc2822_date(text: Seq<char>) -> Result<Timestamp, MsgError> {
    match rfc2822_instant(text) {
        Some(instant) => Ok(
            Timestamp { seconds: instant.0, nanos: instant.1, offset_seconds: instant.2 },
        ),
        None => Err(MsgError::FormatViolation),
    }
}

/// The date that transport headers give.
pub open spec fn header_date(headers: Seq<char>) -> Result<Timestamp, MsgError> {
    match date_text(headers) {
        Ok(text) => rfc2822_date(text),
        Err(e) => Err(e),
    }
}

/// The text of the date in transport headers.
pub fn find_date_text(headers: &str) -> (r: Result<Vec<char>, MsgError>)
    ensures
        match r {
            Ok(text) => date_text(headers@) == Ok::<Seq<char>, MsgError>(text@),
            Err(e) => date_text(headers@) == Err::<Seq<char>, MsgError>(e),
        },
{
    let chars = chars_of(headers);
    let all = lines_of(chars.as_slice());
    let word: Vec<char> = vec!['D', 'a', 't', 'e'];
    let mark: Vec<char> = vec![':', ' '];
    assert(word@ == date_word());
    assert(mark@ == date_mark());
    let mut k: usize = 0;
    assert(views(all@).skip(0) == views(all@));
    while k < all.len()
        invariant
            k <= all.len(),
            word@ == date_word(),
            mark@ == date_mark(),
            views(all@) == lines(headers@),
            first_with_prefix(views(all@).skip(k as int), date_word()) == first_with_prefix(
                lines(headers@),
                date_word(),
            ),
        decreases all.len() - k,
    {
        let line = &all[k];
        assert(views(all@).skip(k as int)[0] == line@);
        if starts_with(line.as_slice(), word.as_slice()) {
            match find_chars(line.as_slice(), mark.as_slice()) {
                Some(at) => {
                    let text = copy_range(line.as_slice(), at + 2, line.len());
                    return Ok(text);
                },
                None => {
                    return Err(MsgError::FormatViolation);
                },
            }
        }
        assert(views(all@).skip(k as int).skip(1) == views(all@).skip(k + 1));
        k += 1;
    }
    Err(MsgError::FormatViolation)
}

/// Parses a date in the form of RFC 2822.
pub fn parse_date(text: &str) -> (r: Result<Timestamp, MsgError>)
    ensures
        r == rfc2822_date(text@),
{
    match parse_rfc2822(text) {
        Ok(instant) => Ok(
            Timestamp { seconds: instant.0, nanos: instant.1, offset_seconds: instant.2 },
        ),
        Err(_) => Err(MsgError::FormatViolation),
    }
}

/// The date that transport headers give, under the offset that they state.
pub fn resolve_date(headers: &str) -> (r: Result<Timestamp, MsgError>)
    ensures
        r == header_date(headers@),
{
    match find_date_text(headers) {
        Ok(text) => {
            let text = string_of(text.as_slice());
            parse_date(text.as_str())
        },
        Err(e) => Err(e),
    }
}

/// Headers none of whose lines begins with `Date` give no date.
pub proof fn lemma_no_date_line(headers: Seq<char>)
    requires
        forall|k: int| 0 <= k < lines(headers).len() ==> !date_word().is_prefix_of(#[trigger] lines(headers)[k]),
    ensures
        header_date(headers) == Err::<Timestamp, MsgError>(MsgError::FormatViolation),
{
    lemma_none_with_prefix(lines(headers), date_word());
}

proof fn lemma_none_with_prefix(lines: Seq<Seq<char>>, prefix: Seq<char>)
    requires
        forall|k: int| 0 <= k < lines.len() ==> !prefix.is_prefix_of(#[trigger] lines[k]),
    ensures
        first_with_prefix(lines, prefix) is None,
    decreases lines.len(),
{
    if lines.len() > 0 {
        assert forall|k: int| 0 <= k < lines.skip(1).len() implies !prefix.is_prefix_of(
            #[trigger] lines.skip(1)[k],
        ) by {
            assert(lines.skip(1)[k] == lines[k + 1]);
        }
        lemma_none_with_prefix(lines.skip(1), prefix);
    }
}

} // verus!
