//! A point in time with nanosecond precision, held as a date and a time of day
//! in UTC, and its text form `YYYY-MM-DD HH:MM:SS.s+`.

use crate::ascii::ascii_string;
use crate::ascii::ascii_to_string;
use crate::calendar::DateTime;
use crate::timestamp_text::parse_outcome;
use crate::timestamp_text::read_timestamp;
use crate::timestamp_text::timestamp_text;
use crate::timestamp_text::write_timestamp;
use crate::timestamp_text::TimestampParseError;
use vstd::prelude::*;
use vstd::string::StringSliceAdditionalSpecFns;

verus! {

/// A point in time: a valid date and time of day in UTC.
#[derive(Debug, Clone, Copy, PartialEq, Eq, Hash, Ord)]
pub struct Timestamp {
    utc: DateTime,
}

impl View for Timestamp {
    type V = DateTime;

    closed spec fn view(&self) -> DateTime {
        self.utc
    }
}

impl Timestamp {
    #[verifier::type_invariant]
    spec fn well_formed(self) -> bool {
        self.utc.is_valid()
    }

    /// The timestamp of the given date and time of day in UTC, where they
    /// exist.
    pub fn new(utc: DateTime) -> (timestamp: Option<Timestamp>)
        ensures
            timestamp is Some <==> utc.is_valid(),
            timestamp matches Some(t) ==> t@ == utc,
    {
        if utc.validate() {
            Some(Timestamp { utc })
        } else {
            None
        }
    }

    /// The date and the time of day in UTC.
    pub fn utc(&self) -> (utc: DateTime)
        ensures
            utc == self@,
            utc.is_valid(),
    {
        proof {
            use_type_invariant(self);
        }
        self.utc
    }
}

/// The date and time of a decoded timestamp, or the cause that there is none.
pub open spec fn decoded(res: Result<Timestamp, TimestampParseError>) -> Result<
    DateTime,
    TimestampParseError,
> {
    match res {
        Ok(timestamp) => Ok(timestamp@),
        Err(cause) => Err(cause),
    }
}

impl Timestamp {
    /// The text form of the timestamp, `YYYY-MM-DD HH:MM:SS.s+`: the date and
    /// the time of day in UTC, with as many digits of the nanosecond as are
    /// needed, and at least one.
    pub fn encode(&self) -> (text: String)
        ensures
            text@ == ascii_string(timestamp_text(self@)),
    {
        let digits = write_timestamp(&self.utc());
        ascii_to_string(&digits)
    }

    /// Reads a timestamp from its text form `YYYY-MM-DD HH:MM:SS.s+`, taken
    /// as a date and time in UTC. The whole text has to fit the format;
    /// digits of the part of a second after the ninth are passed over.
    pub fn decode(text: &str) -> (res: Result<Timestamp, TimestampParseError>)
        ensures
            decoded(res) == parse_outcome(text.spec_bytes()),
    {
        match read_timestamp(text.as_bytes()) {
            Ok(utc) => Ok(Timestamp { utc }),
            Err(cause) => Err(cause),
        }
    }
}

} // verus!
