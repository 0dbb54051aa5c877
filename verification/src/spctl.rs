//! The gatekeeper switch-off: the argument list handed to the
//! assessment tool. Running the tool happens outside the library.

use vstd::prelude::*;
use vstd::string::StringExecFns;

verus! {

/// The assessment-tool invocation that disables assessment globally.
pub fn spctl_global_disable() -> (r: Vec<String>)
    ensures
        r@.map_values(|s: String| s@) == seq!["--global-disable"@],
{
    let mut out: Vec<String> = Vec::new();
    out.push(String::from_str("--global-disable"));
    proof {
        assert(out@.map_values(|s: String| s@) =~= seq!["--global-disable"@]);
    }
    out
}

} // verus!
