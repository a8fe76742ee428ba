//! Rendering a decoded record, and the per-file report line.
//!
//! A record prints as one line: the decoded name, then the deletion time's
//! calendar fields as raw decimal numbers, day/month/year hour:minute:second,
//! marked UTC.  `process_file` is the per-file step of the tool: it turns a
//! path and the outcome of reading it into exactly the line to print, so one
//! file's failure never disturbs the report for any other file.

use vstd::prelude::*;
use vstd::string::StringExecFns;
use crate::filetime::CalendarTime;
use crate::record::{Record, DecodeError, spec_file_name, spec_deletion_time};
use crate::filetime::spec_calendar_of;
use crate::utf16::push_char;

verus! {

/// The character for decimal digit `d`.
pub open spec fn digit_char(d: int) -> char {
    ((48 + d) as u8) as char
}

/// The decimal digits of `n`, most significant first, without leading zeros
/// (zero itself prints as one digit).
pub open spec fn dec_digits(n: int) -> Seq<char>
    decreases n,
{
    if n < 10 {
        seq![digit_char(n)]
    } else {
        dec_digits(n / 10).push(digit_char(n % 10))
    }
}

/// Appends the decimal digits of `n` to `s`.
pub fn push_decimal(s: &mut String, n: u64)
    ensures
        final(s)@ == old(s)@ + dec_digits(n as int),
    decreases n,
{
    let ghost pre = s@;
    if n >= 10 {
        push_decimal(s, n / 10);
    }
    let d = ((n % 10) as u8 + 48) as char;
    push_char(s, d);
    proof {
        assert(d == digit_char(n as int % 10));
        if n < 10 {
            assert(pre.push(d) =~= pre + dec_digits(n as int));
        } else {
            assert((pre + dec_digits(n as int / 10)).push(d) =~= pre + dec_digits(n as int));
        }
    }
}

/// The report line for a decoded name and its deletion-time breakdown:
/// `<name> | Deleted on <day>/<month>/<year> <hour>:<minute>:<second> UTC`,
/// every number in its natural width.
pub open spec fn spec_display_line(name: Seq<char>, c: CalendarTime) -> Seq<char> {
    name + " | Deleted on "@ + dec_digits(c.day as int) + "/"@ + dec_digits(c.month as int) + "/"@
        + dec_digits(c.year as int) + " "@ + dec_digits(c.hour as int) + ":"@ + dec_digits(
        c.minute as int,
    ) + ":"@ + dec_digits(c.second as int) + " UTC"@
}

/// The line reported when a file cannot be read, from the path and the
/// reading error's message.
pub open spec fn spec_read_error_line(path: Seq<char>, msg: Seq<char>) -> Seq<char> {
    "Could not read file "@ + path + ": "@ + msg
}

/// The line reported when a file is too short to hold a record.
pub open spec fn spec_decode_error_line(path: Seq<char>) -> Seq<char> {
    "Could not decode file "@ + path + ": insufficient data"@
}

impl Record {
    /// Renders the record's one-line report.
    pub fn display_line(&self) -> (line: String)
        ensures
            line@ == spec_display_line(self.file_name@, spec_calendar_of(self.deletion_time)),
    {
        let c = self.calendar_time();
        let mut line = self.file_name.clone();
        line.append(" | Deleted on ");
        push_decimal(&mut line, c.day as u64);
        line.append("/");
        push_decimal(&mut line, c.month as u64);
        line.append("/");
        push_decimal(&mut line, c.year);
        line.append(" ");
        push_decimal(&mut line, c.hour as u64);
        line.append(":");
        push_decimal(&mut line, c.minute as u64);
        line.append(":");
        push_decimal(&mut line, c.second as u64);
        line.append(" UTC");
        line
    }
}

/// One step of the tool's per-file loop: given a path and the outcome of
/// reading that path, the exact line to print for it.  A record line for a
/// readable buffer of at least 28 bytes, otherwise the per-file error line.
pub fn process_file(path: &str, contents: Result<Vec<u8>, String>) -> (line: String)
    ensures
        contents matches Ok(data) ==> ((data@.len() >= 28 ==> line@ == spec_display_line(
            spec_file_name(data@),
            spec_calendar_of(spec_deletion_time(data@) as u64),
        )) && (data@.len() < 28 ==> line@ == spec_decode_error_line(path@))),
        contents matches Err(msg) ==> line@ == spec_read_error_line(path@, msg@),
{
    match contents {
        Ok(data) => {
            match Record::from_bytes(data.as_slice()) {
                Ok(rec) => {
                    proof {
                        crate::le::lemma_le_value_bound(data@.subrange(16, 20));
                        crate::le::lemma_le_value_bound(data@.subrange(20, 24));
                        assert(crate::le::pow256(0nat) == 1);
                        assert(crate::le::pow256(1nat) == 256);
                        assert(crate::le::pow256(2nat) == 65536);
                        assert(crate::le::pow256(3nat) == 16777216);
                        assert(crate::le::pow256(4nat) == 4294967296);
                        assert(rec.deletion_time == spec_deletion_time(data@) as u64);
                    }
                    rec.display_line()
                },
                Err(DecodeError::InsufficientData) => {
                    let mut line = "Could not decode file ".to_owned();
                    line.append(path);
                    line.append(": insufficient data");
                    line
                },
            }
        },
        Err(msg) => {
            let mut line = "Could not read file ".to_owned();
            line.append(path);
            line.append(": ");
            line.append(msg.as_str());
            line
        },
    }
}

} // verus!
