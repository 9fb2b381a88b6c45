use vstd::prelude::*;

use chrono::FixedOffset;
use std::str::FromStr;

use crate::error::RequestError;
use crate::request::same_chars;
use crate::text::{chars_of, string_of};

verus! {

#[verifier::external_type_specification]
#[verifier::external_body]
pub struct ExFixedOffset(FixedOffset);

/// Whether `chrono::FixedOffset::from_str` accepts the text as an offset from UTC.
pub uninterp spec fn offset_accepts(s: Seq<char>) -> bool;

/// Relies on `FixedOffset::from_str`: it succeeds exactly on the texts that it accepts.
#[verifier::external_body]
fn parse_offset(s: &str) -> (r: Option<FixedOffset>)
    ensures
        r is Some <==> offset_accepts(s@),
{
    FixedOffset::from_str(s).ok()
}

/// How a timestamp is written.
#[derive(Debug, Clone, PartialEq, Eq)]
pub enum TimestampFormat {
    UnixSeconds,
    UnixMillis,
    UnixMicros,
    Rfc2822,
    Rfc3339Seconds,
    Rfc3339Millis,
    Rfc3339Nanos,
    /// A `strftime`-like pattern.
    Pattern(String),
}

/// The zone a timestamp is written in.
#[derive(Debug)]
pub enum Zone {
    Utc,
    Local,
    Fixed(FixedOffset),
}

pub open spec fn is_iso_or_rfc(s: Seq<char>, suffix: Seq<char>) -> bool {
    s == seq!['i', 's', 'o', '8', '6', '0', '1'] + suffix || s == seq!['r', 'f', 'c', '3', '3', '3', '9']
        + suffix
}

/// The format that the word `s` names; any other word is a pattern.
pub open spec fn format_of(s: Seq<char>) -> TimestampFormat {
    if s == seq!['u', 'n', 'i', 'x'] {
        TimestampFormat::UnixSeconds
    } else if s == seq!['u', 'n', 'i', 'x', '_', 'm', 'i', 'l', 'l', 'i', 's'] {
        TimestampFormat::UnixMillis
    } else if s == seq!['u', 'n', 'i', 'x', '_', 'm', 'i', 'c', 'r', 'o', 's'] {
        TimestampFormat::UnixMicros
    } else if s == seq!['r', 'f', 'c', '2', '8', '2', '2'] {
        TimestampFormat::Rfc2822
    } else if is_iso_or_rfc(s, Seq::empty()) {
        TimestampFormat::Rfc3339Seconds
    } else if is_iso_or_rfc(s, seq!['_', 'm', 'i', 'l', 'l', 'i', 's']) {
        TimestampFormat::Rfc3339Millis
    } else if is_iso_or_rfc(s, seq!['_', 'n', 'a', 'n', 'o', 's']) {
        TimestampFormat::Rfc3339Nanos
    } else {
        TimestampFormat::Pattern(arbitrary())
    }
}

fn either(t: &Vec<char>, a: Vec<char>, b: Vec<char>) -> (r: bool)
    ensures
        r == (t@ == a@ || t@ == b@),
{
    same_chars(t, a) || same_chars(t, b)
}

/// Reads the format word of a timestamp.
pub fn parse_format(format: &str) -> (r: TimestampFormat)
    ensures
        format_of(format@) is Pattern ==> r == TimestampFormat::Pattern(r->Pattern_0) && r->Pattern_0@ == format@,
        !(format_of(format@) is Pattern) ==> r == format_of(format@),
{
    let t = chars_of(format);
    proof {
        assert(seq!['i', 's', 'o', '8', '6', '0', '1'] + Seq::<char>::empty() =~= seq!['i', 's', 'o', '8', '6', '0', '1']);
        assert(seq!['r', 'f', 'c', '3', '3', '3', '9'] + Seq::<char>::empty() =~= seq!['r', 'f', 'c', '3', '3', '3', '9']);
        assert(seq!['i', 's', 'o', '8', '6', '0', '1'] + seq!['_', 'm', 'i', 'l', 'l', 'i', 's'] =~= seq!['i', 's', 'o', '8', '6', '0', '1', '_', 'm', 'i', 'l', 'l', 'i', 's']);
        assert(seq!['r', 'f', 'c', '3', '3', '3', '9'] + seq!['_', 'm', 'i', 'l', 'l', 'i', 's'] =~= seq!['r', 'f', 'c', '3', '3', '3', '9', '_', 'm', 'i', 'l', 'l', 'i', 's']);
        assert(seq!['i', 's', 'o', '8', '6', '0', '1'] + seq!['_', 'n', 'a', 'n', 'o', 's'] =~= seq!['i', 's', 'o', '8', '6', '0', '1', '_', 'n', 'a', 'n', 'o', 's']);
        assert(seq!['r', 'f', 'c', '3', '3', '3', '9'] + seq!['_', 'n', 'a', 'n', 'o', 's'] =~= seq!['r', 'f', 'c', '3', '3', '3', '9', '_', 'n', 'a', 'n', 'o', 's']);
    }
    if same_chars(&t, vec!['u', 'n', 'i', 'x']) {
        TimestampFormat::UnixSeconds
    } else if same_chars(&t, vec!['u', 'n', 'i', 'x', '_', 'm', 'i', 'l', 'l', 'i', 's']) {
        TimestampFormat::UnixMillis
    } else if same_chars(&t, vec!['u', 'n', 'i', 'x', '_', 'm', 'i', 'c', 'r', 'o', 's']) {
        TimestampFormat::UnixMicros
    } else if same_chars(&t, vec!['r', 'f', 'c', '2', '8', '2', '2']) {
        TimestampFormat::Rfc2822
    } else if either(&t, vec!['i', 's', 'o', '8', '6', '0', '1'], vec!['r', 'f', 'c', '3', '3', '3', '9']) {
        TimestampFormat::Rfc3339Seconds
    } else if either(
        &t,
        vec!['i', 's', 'o', '8', '6', '0', '1', '_', 'm', 'i', 'l', 'l', 'i', 's'],
        vec!['r', 'f', 'c', '3', '3', '3', '9', '_', 'm', 'i', 'l', 'l', 'i', 's'],
    ) {
        TimestampFormat::Rfc3339Millis
    } else if either(
        &t,
        vec!['i', 's', 'o', '8', '6', '0', '1', '_', 'n', 'a', 'n', 'o', 's'],
        vec!['r', 'f', 'c', '3', '3', '3', '9', '_', 'n', 'a', 'n', 'o', 's'],
    ) {
        TimestampFormat::Rfc3339Nanos
    } else {
        TimestampFormat::Pattern(string_of(t.as_slice()))
    }
}

/// Reads the zone word of a timestamp: `utc`, `local`, or an offset such as `+02:00`.
/// Any other word is a template error.
pub fn parse_zone(offset: &str) -> (r: Result<Zone, RequestError>)
    ensures
        offset@ == seq!['u', 't', 'c'] ==> r matches Ok(Zone::Utc),
        offset@ == seq!['l', 'o', 'c', 'a', 'l'] ==> r matches Ok(Zone::Local),
        (offset@ != seq!['u', 't', 'c'] && offset@ != seq!['l', 'o', 'c', 'a', 'l']) ==> (
        r is Ok <==> offset_accepts(offset@)),
        (offset@ != seq!['u', 't', 'c'] && offset@ != seq!['l', 'o', 'c', 'a', 'l'] && r is Ok)
            ==> r.unwrap() is Fixed,
        r is Err ==> r.unwrap_err().is_template(),
{
    let t = chars_of(offset);
    if same_chars(&t, vec!['u', 't', 'c']) {
        Ok(Zone::Utc)
    } else if same_chars(&t, vec!['l', 'o', 'c', 'a', 'l']) {
        Ok(Zone::Local)
    } else {
        match parse_offset(offset) {
            Some(z) => Ok(Zone::Fixed(z)),
            None => Err(RequestError::Template(
                string_of(t.as_slice()),
                "not a fixed offset".to_string(),
            )),
        }
    }
}

} // verus!
