//! The Spotlight turn-off sequence: the argument lists handed to the
//! indexing tool, in order. Running the tool happens outside the
//! library; each invocation's exit code is deliberately ignored, so the
//! sequence itself is the whole decision.

use vstd::prelude::*;
use vstd::string::StringExecFns;

verus! {

/// The two indexing-tool invocations that switch indexing off and
/// disable it: first `-i off`, then `-d`.
pub fn turn_off_mdutil() -> (r: Vec<Vec<String>>)
    ensures
        r@.map_values(|a: Vec<String>| a@.map_values(|s: String| s@)) == seq![
            seq!["-i"@, "off"@],
            seq!["-d"@],
        ],
{
    let mut first: Vec<String> = Vec::new();
    first.push(String::from_str("-i"));
    first.push(String::from_str("off"));
    let mut second: Vec<String> = Vec::new();
    second.push(String::from_str("-d"));
    let mut out: Vec<Vec<String>> = Vec::new();
    proof {
        assert(first@.map_values(|s: String| s@) =~= seq!["-i"@, "off"@]);
        assert(second@.map_values(|s: String| s@) =~= seq!["-d"@]);
    }
    out.push(first);
    out.push(second);
    proof {
        assert(out@.map_values(|a: Vec<String>| a@.map_values(|s: String| s@)) =~= seq![
            seq!["-i"@, "off"@],
            seq!["-d"@],
        ]);
    }
    out
}

} // verus!
