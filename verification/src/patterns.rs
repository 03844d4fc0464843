//! Validation of glob patterns handed in on the command line.

use vstd::prelude::*;

verus! {

/// What compiling a glob pattern reports: `None` for a valid pattern,
/// the compiler's description for an invalid one. The outcome depends
/// on the pattern text alone.
pub uninterp spec fn glob_error_of(s: Seq<char>) -> Option<Seq<char>>;

/// Relies on `glob::Pattern::new`: it accepts or rejects a pattern by
/// its text alone, and its error values describe the rejection.
#[verifier::external_body]
fn glob_check(v: &str) -> (r: Option<String>)
    ensures
        match r {
            Some(e) => glob_error_of(v@) == Some(e@),
            None => glob_error_of(v@) is None,
        },
{
    match glob::Pattern::new(v) {
        Ok(_) => None,
        Err(err) => Some(err.to_string()),
    }
}

/// Checks one glob pattern argument: `Ok` exactly when the pattern
/// compiles, and otherwise the user-facing message naming the pattern
/// and the compiler's description.
pub fn glob_value(v: String) -> (r: Result<(), String>)
    ensures
        match r {
            Ok(_) => glob_error_of(v@) is None,
            Err(m) => glob_error_of(v@) matches Some(e) && m@ == "'"@ + v@
                + "' is not a valid glob pattern - "@ + e,
        },
{
    match glob_check(v.as_str()) {
        None => Ok(()),
        Some(e) => {
            let mut m = String::new();
            m.append("'");
            m.append(v.as_str());
            m.append("' is not a valid glob pattern - ");
            m.append(e.as_str());
            proof {
                assert(m@ =~= "'"@ + v@ + "' is not a valid glob pattern - "@ + e@);
            }
            Err(m)
        },
    }
}

} // verus!
