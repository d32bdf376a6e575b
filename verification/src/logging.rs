//! Formatting of the session's lifecycle log.
//!
//! The log itself is append-only, line-oriented I/O and lives outside the
//! crate; what is computable — the exact shape of each line — is fixed
//! here: `<timestamp> <service> <event>`.

use vstd::prelude::*;

verus! {

/// One line of the lifecycle log, without the trailing newline.
pub fn log_line(timestamp: &str, service: &str, event: &str) -> (r: String)
    ensures
        r@ == timestamp@ + " "@ + service@ + " "@ + event@,
{
    let mut s = String::new();
    s.append(timestamp);
    s.append(" ");
    s.append(service);
    s.append(" ");
    s.append(event);
    proof {
        assert(s@ =~= timestamp@ + " "@ + service@ + " "@ + event@);
    }
    s
}

} // verus!
