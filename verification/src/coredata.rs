//! Classification of the preference-domain tool's outcomes: which exit
//! codes succeed, the wording of its failures, and the parsing of its
//! domain listing.
//!
//! Spawning the tool happens outside the library; every function here
//! takes the observed exit code and captured streams as plain values.

use vstd::prelude::*;
use vstd::string::StrSliceExecFns;
use vstd::string::StringExecFns;

use crate::errors::Error;
use crate::strutil::CharClass;
use crate::strutil::dec_rep_int;
use crate::strutil::has_prefix;
use crate::strutil::i64_to_string;
use crate::strutil::is_prefix_of;
use crate::strutil::join_spaces;
use crate::strutil::lemma_scan_end;
use crate::strutil::scan_end;
use crate::strutil::scan_while;
use crate::strutil::spec_join_spaces;
use crate::strutil::spec_split_commas_trimmed;
use crate::strutil::split_commas_trimmed;
use crate::strutil::str_eq;

verus! {

/// The message for a preference-tool invocation that failed outright.
pub open spec fn spec_defaults_error_msg(args: Seq<Seq<char>>, code: int) -> Seq<char> {
    "command `defaults "@ + spec_join_spaces(args) + "' failed with exit code "@ + dec_rep_int(code)
}

/// Classifies one completed invocation of the preference tool: exit
/// zero and exit one — the tool's "nothing to do" answer — both pass
/// through; anything else fails.
pub fn defaults(args: &Vec<String>, outcome: (i64, String, String)) -> (r: Result<
    (i64, String, String),
    Error,
>)
    ensures
        r is Ok <==> (outcome.0 == 0 || outcome.0 == 1),
        r matches Ok(t) ==> t.0 == outcome.0 && t.1@ == outcome.1@ && t.2@ == outcome.2@,
        (outcome.0 != 0 && outcome.0 != 1) ==> (r matches Err(e) && e matches Error::IOError(m)
            && m@ == spec_defaults_error_msg(args@.map_values(|s: String| s@), outcome.0 as int)),
{
    let (exit_code, out, err) = outcome;
    if exit_code == 0 || exit_code == 1 {
        Ok((exit_code, out, err))
    } else {
        let mut m = String::from_str("command `defaults ");
        let joined = join_spaces(args);
        m.append(joined.as_str());
        m.append("' failed with exit code ");
        let num = i64_to_string(exit_code);
        m.append(num.as_str());
        proof {
            assert(m@ =~= spec_defaults_error_msg(
                args@.map_values(|s: String| s@),
                exit_code as int,
            ));
        }
        Err(Error::IOError(m))
    }
}

/// Classifies one completed deletion: the argument list is the delete
/// word followed by the key path, and the lenient exit codes of the
/// preference tool decide.
pub fn defaults_delete(key: &Vec<String>, outcome: (i64, String, String)) -> (r: Result<(), Error>)
    ensures
        r is Ok <==> (outcome.0 == 0 || outcome.0 == 1),
        (outcome.0 != 0 && outcome.0 != 1) ==> (r matches Err(e) && e matches Error::IOError(m)
            && m@ == spec_defaults_error_msg(
            seq!["delete"@] + key@.map_values(|s: String| s@),
            outcome.0 as int,
        )),
{
    let mut args: Vec<String> = Vec::new();
    args.push(String::from_str("delete"));
    let mut i: usize = 0;
    while i < key.len()
        invariant
            i <= key@.len(),
            args@.map_values(|s: String| s@) =~= seq!["delete"@] + key@.map_values(
                |s: String| s@,
            ).subrange(0, i as int),
        decreases key@.len() - i,
    {
        let ghost prev = args@.map_values(|s: String| s@);
        args.push(key[i].clone());
        proof {
            assert(args@.map_values(|s: String| s@) =~= prev.push(key@[i as int]@));
            assert(key@.map_values(|s: String| s@).subrange(0, i as int + 1) =~= key@.map_values(
                |s: String| s@,
            ).subrange(0, i as int).push(key@[i as int]@));
        }
        i = i + 1;
    }
    proof {
        assert(key@.map_values(|s: String| s@).subrange(0, key@.len() as int) =~= key@.map_values(
            |s: String| s@,
        ));
    }
    match defaults(&args, outcome) {
        Ok(_) => Ok(()),
        Err(e) => Err(e),
    }
}

/// The message for a domain listing that exited with the lenient
/// nonzero code.
pub open spec fn spec_list_domains_msg(code: int, err: Seq<char>) -> Seq<char> {
    "command `default domains' exited["@ + dec_rep_int(code) + "]: "@ + err
}

/// Reads the preference tool's domain listing: on exit zero, the
/// comma-separated standard output split into trimmed names; any
/// nonzero exit fails.
pub fn list_domains(outcome: (i64, String, String)) -> (r: Result<Vec<String>, Error>)
    ensures
        r is Ok <==> outcome.0 == 0,
        r matches Ok(v) ==> v@.map_values(|s: String| s@) == spec_split_commas_trimmed(
            outcome.1@,
            0,
        ),
        outcome.0 == 1 ==> (r matches Err(e) && e matches Error::IOError(m) && m@
            == spec_list_domains_msg(outcome.0 as int, outcome.2@)),
        (outcome.0 != 0 && outcome.0 != 1) ==> (r matches Err(e) && e matches Error::IOError(m)
            && m@ == spec_defaults_error_msg(seq!["domains"@], outcome.0 as int)),
{
    let mut args: Vec<String> = Vec::new();
    args.push(String::from_str("domains"));
    proof {
        assert(args@.map_values(|s: String| s@) =~= seq!["domains"@]);
    }
    let (exit_code, out, err) = match defaults(&args, outcome) {
        Ok(t) => t,
        Err(e) => {
            return Err(e);
        },
    };
    if exit_code == 0 {
        Ok(split_commas_trimmed(out.as_str()))
    } else {
        let mut m = String::from_str("command `default domains' exited[");
        let num = i64_to_string(exit_code);
        m.append(num.as_str());
        m.append("]: ");
        m.append(err.as_str());
        proof {
            assert(m@ =~= spec_list_domains_msg(exit_code as int, err@));
        }
        Err(Error::IOError(m))
    }
}

/// The account name a path under the user-home tree names: the
/// nonempty run between the home prefix and the next slash, present
/// only when that slash exists.
pub open spec fn spec_home_user(path: Seq<char>) -> Option<Seq<char>> {
    if is_prefix_of("/Users/"@, path) {
        let start = "/Users/"@.len() as int;
        let j = scan_end(path, start, CharClass::NotSlash);
        if j == start || j >= path.len() {
            None
        } else {
            Some(path.subrange(start, j))
        }
    } else {
        None
    }
}

/// Checks that a preference-domain path under the user-home tree
/// belongs to the current account: a path naming another account's home
/// is rejected; a path outside any home passes.
pub fn validate_domain_path_for_current_user(path: &str, current_user: &str) -> (r: Result<
    (),
    Error,
>)
    ensures
        match spec_home_user(path@) {
            None => r is Ok,
            Some(u) => {
                if u == current_user@ {
                    r is Ok
                } else {
                    r matches Err(e) && e matches Error::CoreDataError(m) && m@ == "domain file "@
                        + path@ + " does not belong to user "@ + current_user@
                }
            },
        },
{
    if !has_prefix(path, "/Users/") {
        return Ok(());
    }
    let start = "/Users/".unicode_len();
    let n = path.unicode_len();
    let j = scan_while(path, start, CharClass::NotSlash);
    proof {
        lemma_scan_end(path@, start as int, CharClass::NotSlash);
    }
    if j == start || j >= n {
        return Ok(());
    }
    let user = path.substring_char(start, j);
    if str_eq(user, current_user) {
        Ok(())
    } else {
        let mut m = String::from_str("domain file ");
        m.append(path);
        m.append(" does not belong to user ");
        m.append(current_user);
        proof {
            assert(m@ =~= "domain file "@ + path@ + " does not belong to user "@ + current_user@);
        }
        Err(Error::CoreDataError(m))
    }
}

} // verus!
