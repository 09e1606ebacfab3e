//! Logs of the scanning library. Their lines, which hold a date and time,
//! a severity in round brackets, an address, a source and a message, are
//! not read: the source stays as it is.

use vstd::prelude::*;
use crate::model::LogSource;

verus! {

/// Hands `root` back as it is, whatever the log holds.
pub fn to_log_entries(_bytes: &[u8], root: LogSource) -> (r: LogSource)
    ensures
        r == root,
{
    root
}

} // verus!
