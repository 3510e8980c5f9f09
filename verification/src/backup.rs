//! The name under which the file is kept as it was: the seconds since the
//! Unix epoch, a hyphen, and the path as it was given.

use std::time::{SystemTime, UNIX_EPOCH};
use vstd::prelude::*;
use crate::decimal::{decimal_digits, push_digits};
use crate::text::{from_chars, push_all, to_chars};

verus! {

/// The backup name for `path` at `unix_seconds`.
pub open spec fn backup_name_spec(unix_seconds: nat, path: Seq<char>) -> Seq<char> {
    decimal_digits(unix_seconds) + seq!['-'] + path
}

/// The backup name for `path` at `unix_seconds`: the seconds in decimal, a
/// hyphen, and the path unchanged.
pub fn backup_file_name(unix_seconds: u64, path: &str) -> (name: String)
    ensures
        name@ == backup_name_spec(unix_seconds as nat, path@),
{
    let mut out: Vec<char> = Vec::new();
    push_digits(&mut out, unix_seconds);
    out.push('-');
    let chars = to_chars(path);
    push_all(&mut out, chars.as_slice());
    from_chars(out.as_slice())
}

/// Reads the system clock with `SystemTime::now` and gives the whole seconds
/// since `UNIX_EPOCH`, or nothing where the clock stands before the epoch.
/// Nothing is claimed of the value: it differs from call to call.
#[verifier::external_body]
pub(crate) fn timestamp_now() -> (seconds: Option<u64>) {
    match SystemTime::now().duration_since(UNIX_EPOCH) {
        Ok(elapsed) => Some(elapsed.as_secs()),
        Err(_) => None,
    }
}

} // verus!
