//! Points in time, as far as ordering messages needs them.

use vstd::prelude::*;

verus! {

/// A point in time: whole seconds since the Unix epoch and the nanoseconds
/// into that second. Two instants are ordered by the seconds, then by the
/// nanoseconds.
#[derive(Clone, Copy, Debug, PartialEq, Eq, Structural)]
pub struct Instant {
    pub secs: i64,
    pub nanos: u32,
}

impl Instant {
    /// Whether `self` is earlier than `other`.
    pub open spec fn before(self, other: Instant) -> bool {
        self.secs < other.secs || (self.secs == other.secs && self.nanos < other.nanos)
    }

    /// Whether `self` is earlier than `other`.
    pub fn is_before(&self, other: &Instant) -> (earlier: bool)
        ensures
            earlier == self.before(*other),
    {
        self.secs < other.secs || (self.secs == other.secs && self.nanos < other.nanos)
    }
}

/// The error of `chrono`'s parsers, `ParseError`: carried, never looked into.
#[verifier::external_type_specification]
#[verifier::external_body]
pub struct ExDateParseError(chrono::ParseError);

/// The instant that `chrono` reads from a date written as RFC 2822 has it,
/// as seconds since the epoch and nanoseconds; `None` where it rejects the
/// text.
pub uninterp spec fn rfc2822_instant(text: Seq<char>) -> Option<(i64, u32)>;

/// Reads a date with `chrono::DateTime::parse_from_rfc2822` and takes the
/// instant it denotes with `timestamp` and `timestamp_subsec_nanos`, by which
/// `chrono` orders its dates. The contract only names the outcome: the same
/// text gives the same instant or the same refusal.
#[verifier::external_body]
fn parse_from_rfc2822(text: &str) -> (parsed: Result<Instant, chrono::ParseError>)
    ensures
        match parsed {
            Ok(at) => rfc2822_instant(text@) == Some((at.secs, at.nanos)),
            Err(_) => rfc2822_instant(text@) is None,
        },
{
    let at = chrono::DateTime::parse_from_rfc2822(text)?;
    Ok(Instant { secs: at.timestamp(), nanos: at.timestamp_subsec_nanos() })
}

/// Reads the clock with `chrono::Local::now`. Nothing is promised of the
/// instant that comes back. (`chrono` gives up on a machine whose clock
/// stands before 1970.)
#[verifier::external_body]
pub(crate) fn local_now() -> Instant {
    let at = chrono::Local::now();
    Instant { secs: at.timestamp(), nanos: at.timestamp_subsec_nanos() }
}

/// The instant a date header denotes, if it is a date.
pub open spec fn stated_instant(text: Seq<char>) -> Option<Instant> {
    match rfc2822_instant(text) {
        Some((secs, nanos)) => Some(Instant { secs, nanos }),
        None => None,
    }
}

/// The instant that `text` denotes when it is a date in the form mail
/// headers use, and `None` when it is not.
pub fn parse_date(text: &str) -> (at: Option<Instant>)
    ensures
        at == stated_instant(text@),
{
    match parse_from_rfc2822(text) {
        Ok(at) => Some(at),
        Err(_) => None,
    }
}

} // verus!
