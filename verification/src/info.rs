//! File metadata reporting: permission bits as an octal string, the size,
//! and the creation and modification times.
//!
//! The caller reads the metadata; turning the mode into its octal digits
//! is verified here, and only the local-time formatting of a timestamp is
//! a call into the chrono crate.

use vstd::prelude::*;
use vstd::string::*;

use crate::strings::push_char;

verus! {

/// What a metadata call reports to the caller.
pub struct FileInfo {
    /// The low permission bits, as an octal string.
    pub permissions: String,
    /// The file's length in bytes.
    pub size: u64,
    /// The creation time, formatted in local time, where the filesystem
    /// reports one.
    pub created: Option<String>,
    /// The modification time, formatted in local time, where the
    /// filesystem reports one.
    pub modified: Option<String>,
}

/// The octal digit for a value below eight.
pub open spec fn octal_digit(d: int) -> char {
    if d == 0 {
        '0'
    } else if d == 1 {
        '1'
    } else if d == 2 {
        '2'
    } else if d == 3 {
        '3'
    } else if d == 4 {
        '4'
    } else if d == 5 {
        '5'
    } else if d == 6 {
        '6'
    } else {
        '7'
    }
}

/// The octal digits of `n`, most significant first, with no leading
/// zeroes.
pub open spec fn spec_octal(n: int) -> Seq<char>
    decreases n,
{
    if n < 8 {
        seq![octal_digit(n)]
    } else {
        spec_octal(n / 8) + seq![octal_digit(n % 8)]
    }
}

/// Writes `n` in octal.
pub fn octal_string(n: u32) -> (r: String)
    ensures
        r@ == spec_octal(n as int),
    decreases n,
{
    if n < 8 {
        let mut digits = String::new();
        push_char(&mut digits, octal_digit_exec(n));
        proof {
            assert(digits@ =~= seq![octal_digit(n as int)]);
        }
        digits
    } else {
        let mut digits = octal_string(n / 8);
        push_char(&mut digits, octal_digit_exec(n % 8));
        proof {
            assert(digits@ =~= spec_octal(n as int / 8) + seq![octal_digit(n as int % 8)]);
        }
        digits
    }
}

/// The octal digit for a value below eight.
fn octal_digit_exec(d: u32) -> (r: char)
    requires
        d < 8,
    ensures
        r == octal_digit(d as int),
{
    if d == 0 {
        '0'
    } else if d == 1 {
        '1'
    } else if d == 2 {
        '2'
    } else if d == 3 {
        '3'
    } else if d == 4 {
        '4'
    } else if d == 5 {
        '5'
    } else if d == 6 {
        '6'
    } else {
        '7'
    }
}

/// Relies on chrono's `DateTime::from_timestamp` and local-time
/// formatting: the epoch seconds rendered as a short local-time stamp.
/// The text depends on the machine's time zone, so nothing is claimed of
/// it.
#[verifier::external_body]
fn format_system_time(epoch_secs: i64) -> (r: String)
{
    match chrono::DateTime::from_timestamp(epoch_secs, 0) {
        Some(dt) => dt.with_timezone(&chrono::Local).format("%b %d %H:%M").to_string(),
        None => String::new(),
    }
}

/// Assembles the metadata report: the mode's low nine bits as an octal
/// string, the size unchanged, and each timestamp formatted exactly when
/// the filesystem reported one.
pub fn get_file_info(mode: u32, size: u64, created: Option<i64>, modified: Option<i64>) -> (r:
    FileInfo)
    ensures
        r.permissions@ == spec_octal((mode & 0x1ff) as int),
        r.size == size,
        r.created is Some <==> created is Some,
        r.modified is Some <==> modified is Some,
{
    let permissions = octal_string(mode & 0x1ff);
    let created_text = match created {
        Some(secs) => Some(format_system_time(secs)),
        None => None,
    };
    let modified_text = match modified {
        Some(secs) => Some(format_system_time(secs)),
        None => None,
    };
    FileInfo { permissions, size, created: created_text, modified: modified_text }
}

} // verus!
