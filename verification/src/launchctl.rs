//! Exit-code classification for the service manager's commands, and the
//! assembly of live-state inventories from captured print output.
//!
//! The process-spawning gateway lives outside the library; every
//! function here takes the observed exit code and captured streams as
//! plain values and computes the classified result.

use vstd::prelude::*;
use vstd::string::StrSliceExecFns;
use vstd::string::StringExecFns;

use crate::domain::Uid;
use crate::domain::agent_or_daemon;
use crate::domain::spec_prefix;
use crate::errors::Error;
use crate::parser::parse_services;
use crate::parser::record_views;
use crate::parser::spec_parse_services;
use crate::strutil::dec_rep_int;
use crate::strutil::i64_to_string;
use crate::strutil::join_spaces;
use crate::strutil::spec_join_spaces;

verus! {

// ---------------------------------------------------------------------------
// Exit-code classification
// ---------------------------------------------------------------------------

/// What one exit code of a service-manager command means.
#[derive(Clone, Copy, Debug, PartialEq, Eq, Structural)]
pub enum ExitClass {
    /// The operation took effect.
    Success,
    /// The target was already absent from the expected state: expected
    /// and recoverable.
    NotRunning,
    /// The service manager rejected the operation for another reason.
    Fatal,
}

/// The classification of a `launchctl` exit code: zero succeeds, three
/// and one-hundred-twenty-five mean the service is not running, anything
/// else is an operational failure.
pub open spec fn spec_classify_exit(code: int) -> ExitClass {
    if code == 0 {
        ExitClass::Success
    } else if code == 3 || code == 125 {
        ExitClass::NotRunning
    } else {
        ExitClass::Fatal
    }
}

/// The lenient classification used for scripted subcommands: sixty-four
/// and one-hundred-thirteen are accepted as success as well.
pub open spec fn spec_classify_subcommand_exit(code: int) -> ExitClass {
    if code == 0 || code == 64 || code == 113 {
        ExitClass::Success
    } else if code == 3 || code == 125 {
        ExitClass::NotRunning
    } else {
        ExitClass::Fatal
    }
}

/// Classifies a `launchctl` exit code.
pub fn classify_exit(code: i64) -> (r: ExitClass)
    ensures
        r == spec_classify_exit(code as int),
{
    if code == 0 {
        ExitClass::Success
    } else if code == 3 || code == 125 {
        ExitClass::NotRunning
    } else {
        ExitClass::Fatal
    }
}

/// Classifies a scripted subcommand's exit code, leniently.
pub fn classify_subcommand_exit(code: i64) -> (r: ExitClass)
    ensures
        r == spec_classify_subcommand_exit(code as int),
{
    if code == 0 || code == 64 || code == 113 {
        ExitClass::Success
    } else if code == 3 || code == 125 {
        ExitClass::NotRunning
    } else {
        ExitClass::Fatal
    }
}

// ---------------------------------------------------------------------------
// Error messages
// ---------------------------------------------------------------------------

/// The message for a command whose target was not running.
pub open spec fn spec_not_running_msg(args: Seq<Seq<char>>, err: Seq<char>) -> Seq<char> {
    "`launchctl "@ + spec_join_spaces(args) + "' failed: "@ + err
}

/// The message for a command the service manager rejected.
pub open spec fn spec_launchd_error_msg(args: Seq<Seq<char>>, code: int, err: Seq<char>) -> Seq<
    char,
> {
    "`launchctl "@ + spec_join_spaces(args) + "' failed with exit code "@ + dec_rep_int(code)
        + ": "@ + err
}

/// The message for a scripted subcommand that failed.
pub open spec fn spec_subcommand_msg(args: Seq<Seq<char>>, code: int, err: Seq<char>) -> Seq<char> {
    "`launchctl "@ + spec_join_spaces(args) + "' failed with "@ + dec_rep_int(code) + ": "@ + err
}

fn not_running_msg(args: &Vec<String>, err: &str) -> (m: String)
    ensures
        m@ == spec_not_running_msg(args@.map_values(|s: String| s@), err@),
{
    let mut m = String::from_str("`launchctl ");
    let joined = join_spaces(args);
    m.append(joined.as_str());
    m.append("' failed: ");
    m.append(err);
    proof {
        assert(m@ =~= spec_not_running_msg(args@.map_values(|s: String| s@), err@));
    }
    m
}

fn launchd_error_msg(args: &Vec<String>, code: i64, err: &str) -> (m: String)
    ensures
        m@ == spec_launchd_error_msg(args@.map_values(|s: String| s@), code as int, err@),
{
    let mut m = String::from_str("`launchctl ");
    let joined = join_spaces(args);
    m.append(joined.as_str());
    m.append("' failed with exit code ");
    let num = i64_to_string(code);
    m.append(num.as_str());
    m.append(": ");
    m.append(err);
    proof {
        assert(m@ =~= spec_launchd_error_msg(args@.map_values(|s: String| s@), code as int, err@));
    }
    m
}

fn subcommand_msg(args: &Vec<String>, code: i64, err: &str) -> (m: String)
    ensures
        m@ == spec_subcommand_msg(args@.map_values(|s: String| s@), code as int, err@),
{
    let mut m = String::from_str("`launchctl ");
    let joined = join_spaces(args);
    m.append(joined.as_str());
    m.append("' failed with ");
    let num = i64_to_string(code);
    m.append(num.as_str());
    m.append(": ");
    m.append(err);
    proof {
        assert(m@ =~= spec_subcommand_msg(args@.map_values(|s: String| s@), code as int, err@));
    }
    m
}

// ---------------------------------------------------------------------------
// Classified command results
// ---------------------------------------------------------------------------

/// Classifies one completed `launchctl` invocation: the captured streams
/// pass through on success; three and one-hundred-twenty-five become the
/// recoverable not-running error; any other nonzero exit is an
/// operational failure.
pub fn launchctl(args: &Vec<String>, outcome: (i64, String, String)) -> (r: Result<
    (i64, String, String),
    Error,
>)
    ensures
        r is Ok <==> outcome.0 == 0,
        r matches Ok(t) ==> t.0 == 0 && t.1@ == outcome.1@ && t.2@ == outcome.2@,
        (outcome.0 == 3 || outcome.0 == 125) ==> (r matches Err(e) && e
            matches Error::LaunchdServiceNotRunning(m) && m@ == spec_not_running_msg(
            args@.map_values(|s: String| s@),
            outcome.2@,
        )),
        (outcome.0 != 0 && outcome.0 != 3 && outcome.0 != 125) ==> (r matches Err(e) && e
            matches Error::LaunchdError(m) && m@ == spec_launchd_error_msg(
            args@.map_values(|s: String| s@),
            outcome.0 as int,
            outcome.2@,
        )),
{
    let (exit_code, out, err) = outcome;
    if exit_code == 0 {
        Ok((0, out, err))
    } else if exit_code == 3 || exit_code == 125 {
        Err(Error::LaunchdServiceNotRunning(not_running_msg(args, err.as_str())))
    } else {
        Err(Error::LaunchdError(launchd_error_msg(args, exit_code, err.as_str())))
    }
}

/// Classifies one scripted subcommand's outcome, accepting the lenient
/// success codes and returning the exit code itself on success.
pub fn launchctl_subcommand(args: &Vec<String>, exit_code: i64, err: &str) -> (r: Result<
    i64,
    Error,
>)
    ensures
        r is Ok <==> spec_classify_subcommand_exit(exit_code as int) == ExitClass::Success,
        r matches Ok(c) ==> c == exit_code,
        spec_classify_subcommand_exit(exit_code as int) == ExitClass::NotRunning ==> (r matches Err(
            e,
        ) && e matches Error::LaunchdServiceNotRunning(m) && m@ == spec_subcommand_msg(
            args@.map_values(|s: String| s@),
            exit_code as int,
            err@,
        )),
        spec_classify_subcommand_exit(exit_code as int) == ExitClass::Fatal ==> (r matches Err(e)
            && e matches Error::LaunchdError(m) && m@ == spec_subcommand_msg(
            args@.map_values(|s: String| s@),
            exit_code as int,
            err@,
        )),
{
    match classify_subcommand_exit(exit_code) {
        ExitClass::Success => Ok(exit_code),
        ExitClass::NotRunning => Err(
            Error::LaunchdServiceNotRunning(subcommand_msg(args, exit_code, err)),
        ),
        ExitClass::Fatal => Err(Error::LaunchdError(subcommand_msg(args, exit_code, err))),
    }
}

/// The message for a failed print invocation: the command, the exit
/// code, and both captured streams.
pub open spec fn spec_print_error_msg(
    domain: Seq<char>,
    code: int,
    err: Seq<char>,
    out: Seq<char>,
) -> Seq<char> {
    "`launchctl print "@ + domain + "' failed with exit code "@ + dec_rep_int(code) + ": "@ + err
        + "\n"@ + out
}

/// Classifies one completed `launchctl print` invocation: the captured
/// standard output on exit zero, an operational error otherwise.
pub fn launchctl_print(domain: &str, outcome: (i64, String, String)) -> (r: Result<String, Error>)
    ensures
        r is Ok <==> outcome.0 == 0,
        r matches Ok(text) ==> text@ == outcome.1@,
        outcome.0 != 0 ==> (r matches Err(e) && e matches Error::LaunchdError(m) && m@
            == spec_print_error_msg(domain@, outcome.0 as int, outcome.2@, outcome.1@)),
{
    let (exit_code, out, err) = outcome;
    if exit_code == 0 {
        Ok(out)
    } else {
        let mut m = String::from_str("`launchctl print ");
        m.append(domain);
        m.append("' failed with exit code ");
        let num = i64_to_string(exit_code);
        m.append(num.as_str());
        m.append(": ");
        m.append(err.as_str());
        m.append("\n");
        m.append(out.as_str());
        proof {
            assert(m@ =~= spec_print_error_msg(domain@, exit_code as int, err@, out@));
        }
        Err(Error::LaunchdError(m))
    }
}

/// The full address of a per-service operation: the scope prefix and the
/// service identifier.
pub open spec fn spec_target(ad: Seq<char>, uid: Option<Uid>, gui: bool) -> Seq<char> {
    spec_prefix(uid, gui) + "/"@ + ad
}

/// Classifies one per-service `launchctl` operation: success on exit
/// zero; the recoverable not-running error, carrying the target address,
/// on three or one-hundred-twenty-five; an operational error otherwise.
pub fn launchctl_act(
    subcommand: &str,
    ad: &str,
    uid: Option<Uid>,
    gui: bool,
    exit_code: i64,
    err: &str,
) -> (r: Result<i64, Error>)
    ensures
        r is Ok <==> exit_code == 0,
        r matches Ok(c) ==> c == 0,
        (exit_code == 3 || exit_code == 125) ==> (r matches Err(e) && e
            matches Error::LaunchdServiceNotRunning(m) && m@ == spec_target(ad@, uid, gui)),
        (exit_code != 0 && exit_code != 3 && exit_code != 125) ==> (r matches Err(e) && e
            matches Error::LaunchdError(m) && m@ == spec_launchd_error_msg(
            seq![subcommand@, spec_target(ad@, uid, gui)],
            exit_code as int,
            err@,
        )),
{
    let target = agent_or_daemon(ad, uid, gui);
    if exit_code == 0 {
        Ok(0)
    } else if exit_code == 3 || exit_code == 125 {
        Err(Error::LaunchdServiceNotRunning(target))
    } else {
        let mut args: Vec<String> = Vec::new();
        args.push(subcommand.to_owned());
        args.push(target);
        proof {
            assert(args@.map_values(|s: String| s@) =~= seq![
                subcommand@,
                spec_target(ad@, uid, gui),
            ]);
        }
        Err(Error::LaunchdError(launchd_error_msg(&args, exit_code, err)))
    }
}

/// Classifies one completed unload of a service.
pub fn bootout_agent_or_daemon(
    ad: &str,
    uid: Option<Uid>,
    gui: bool,
    exit_code: i64,
    err: &str,
) -> (r: Result<i64, Error>)
    ensures
        r is Ok <==> exit_code == 0,
        (exit_code == 3 || exit_code == 125) ==> (r matches Err(e) && e
            matches Error::LaunchdServiceNotRunning(m) && m@ == spec_target(ad@, uid, gui)),
        (exit_code != 0 && exit_code != 3 && exit_code != 125) ==> (r matches Err(e) && e
            matches Error::LaunchdError(m) && m@ == spec_launchd_error_msg(
            seq!["bootout"@, spec_target(ad@, uid, gui)],
            exit_code as int,
            err@,
        )),
{
    launchctl_act("bootout", ad, uid, gui, exit_code, err)
}

/// Classifies one completed disabling of a service.
pub fn disable_agent_or_daemon(
    ad: &str,
    uid: Option<Uid>,
    gui: bool,
    exit_code: i64,
    err: &str,
) -> (r: Result<i64, Error>)
    ensures
        r is Ok <==> exit_code == 0,
        (exit_code == 3 || exit_code == 125) ==> (r matches Err(e) && e
            matches Error::LaunchdServiceNotRunning(m) && m@ == spec_target(ad@, uid, gui)),
        (exit_code != 0 && exit_code != 3 && exit_code != 125) ==> (r matches Err(e) && e
            matches Error::LaunchdError(m) && m@ == spec_launchd_error_msg(
            seq!["disable"@, spec_target(ad@, uid, gui)],
            exit_code as int,
            err@,
        )),
{
    launchctl_act("disable", ad, uid, gui, exit_code, err)
}

// ---------------------------------------------------------------------------
// Live-state inventories
// ---------------------------------------------------------------------------

/// Records of one domain's parse, tagged with the domain prefix:
/// `(domain, service, pid, status)`.
pub open spec fn spec_domain_tag(domain: Seq<char>, recs: Seq<(int, Option<int>, Seq<char>, bool)>)
    -> Seq<(Seq<char>, Seq<char>, int, Option<int>)> {
    recs.map_values(|t: (int, Option<int>, Seq<char>, bool)| (domain, t.2, t.0, t.1))
}

/// The live inventory assembled from per-domain print captures, from
/// index `i` on. A domain whose capture is absent (its print failed) is
/// skipped; a capture that does not parse fails the whole query with the
/// offending line.
pub open spec fn spec_live_records(
    domains: Seq<Seq<char>>,
    prints: Seq<Option<Seq<char>>>,
    i: int,
) -> Result<Seq<(Seq<char>, Seq<char>, int, Option<int>)>, Seq<char>>
    decreases domains.len() - i,
{
    if i < 0 || i >= domains.len() {
        Ok(Seq::empty())
    } else {
        match prints[i] {
            None => spec_live_records(domains, prints, i + 1),
            Some(text) => match spec_parse_services(text, false) {
                Err(l) => Err(l),
                Ok(recs) => match spec_live_records(domains, prints, i + 1) {
                    Err(l) => Err(l),
                    Ok(rest) => Ok(spec_domain_tag(domains[i], recs) + rest),
                },
            },
        }
    }
}

/// The views of an inventory's rows.
pub open spec fn live_views(v: Seq<(String, String, i64, Option<i64>)>) -> Seq<
    (Seq<char>, Seq<char>, int, Option<int>),
> {
    v.map_values(
        |t: (String, String, i64, Option<i64>)| (t.0@, t.1@, t.2 as int, crate::opt_view(t.3)),
    )
}

/// Assembles the live inventory from the domains probed and each
/// domain's captured print output, in order: one `(domain, service,
/// pid, status)` row per parsed service line. An absent capture (a
/// domain whose print failed) is skipped; a capture that does not parse
/// fails the query.
pub fn list_active_agents_and_daemons(domains: &Vec<String>, prints: &Vec<Option<String>>) -> (r:
    Result<Vec<(String, String, i64, Option<i64>)>, Error>)
    requires
        domains@.len() == prints@.len(),
    ensures
        match r {
            Ok(v) => spec_live_records(
                domains@.map_values(|s: String| s@),
                prints@.map_values(|p: Option<String>| crate::opt_str_view(p)),
                0,
            ) == Ok::<_, Seq<char>>(live_views(v@)),
            Err(e) => {
                &&& spec_live_records(
                    domains@.map_values(|s: String| s@),
                    prints@.map_values(|p: Option<String>| crate::opt_str_view(p)),
                    0,
                ) matches Err(l)
                &&& e matches Error::ParseError(m) && m@ == "service info not found in "@ + l
            },
        },
{
    let ghost dv = domains@.map_values(|s: String| s@);
    let ghost pv = prints@.map_values(|p: Option<String>| crate::opt_str_view(p));
    let n = domains.len();
    let mut out: Vec<(String, String, i64, Option<i64>)> = Vec::new();
    let mut i: usize = 0;
    while i < n
        invariant
            i <= n,
            n == domains@.len(),
            n == prints@.len(),
            dv == domains@.map_values(|s: String| s@),
            pv == prints@.map_values(|p: Option<String>| crate::opt_str_view(p)),
            (spec_live_records(dv, pv, i as int) matches Ok(rest) ==> spec_live_records(dv, pv, 0)
                == Ok::<_, Seq<char>>(live_views(out@) + rest)),
            (spec_live_records(dv, pv, i as int) matches Err(l) ==> spec_live_records(dv, pv, 0)
                == Err::<Seq<(Seq<char>, Seq<char>, int, Option<int>)>, _>(l)),
        decreases n - i,
    {
        let text_opt = &prints[i];
        match text_opt {
            None => {
                proof {
                    assert(pv[i as int] is None);
                }
            },
            Some(text) => {
                proof {
                    assert(pv[i as int] == Some(text@));
                }
                match parse_services(text.as_str(), false) {
                    Err(e) => {
                        return Err(e);
                    },
                    Ok(recs) => {
                        let ghost tagged = spec_domain_tag(dv[i as int], record_views(recs@));
                        let ghost before = live_views(out@);
                        let mut j: usize = 0;
                        while j < recs.len()
                            invariant
                                j <= recs@.len(),
                                i < n,
                                n == domains@.len(),
                                dv == domains@.map_values(|s: String| s@),
                                tagged == spec_domain_tag(dv[i as int], record_views(recs@)),
                                tagged.len() == recs@.len(),
                                live_views(out@) =~= before + tagged.subrange(0, j as int),
                            decreases recs@.len() - j,
                        {
                            let rec = &recs[j];
                            let domain = domains[i].clone();
                            let svc = rec.2.clone();
                            let ghost prev = live_views(out@);
                            out.push((domain, svc, rec.0, rec.1));
                            proof {
                                assert(live_views(out@) =~= prev.push(
                                    (dv[i as int], recs@[j as int].2@, recs@[j as int].0 as int,
                                    crate::opt_view(recs@[j as int].1)),
                                ));
                                assert(tagged[j as int] == (
                                    dv[i as int],
                                    record_views(recs@)[j as int].2,
                                    record_views(recs@)[j as int].0,
                                    record_views(recs@)[j as int].1,
                                ));
                                assert(tagged.subrange(0, j as int + 1) =~= tagged.subrange(
                                    0,
                                    j as int,
                                ).push(tagged[j as int]));
                            }
                            j = j + 1;
                        }
                        proof {
                            assert(tagged.subrange(0, tagged.len() as int) =~= tagged);
                            assert(live_views(out@) =~= before + tagged);
                            match spec_live_records(dv, pv, i as int + 1) {
                                Ok(rest) => {
                                    assert(spec_live_records(dv, pv, i as int)
                                        == Ok::<_, Seq<char>>(tagged + rest));
                                    assert(before + (tagged + rest) =~= live_views(out@) + rest);
                                },
                                Err(_) => {
                                },
                            }
                        }
                    },
                }
            },
        }
        i = i + 1;
    }
    proof {
        assert(spec_live_records(dv, pv, n as int) == Ok::<_, Seq<char>>(
            Seq::<(Seq<char>, Seq<char>, int, Option<int>)>::empty(),
        ));
        assert(live_views(out@) + Seq::<(Seq<char>, Seq<char>, int, Option<int>)>::empty()
            =~= live_views(out@));
    }
    Ok(out)
}

/// The inventory keyed by full address: `("<domain>/<service>", (pid,
/// status))` for each row.
pub open spec fn spec_keyed(recs: Seq<(Seq<char>, Seq<char>, int, Option<int>)>) -> Seq<
    (Seq<char>, (int, Option<int>)),
> {
    recs.map_values(
        |t: (Seq<char>, Seq<char>, int, Option<int>)| (t.0 + "/"@ + t.1, (t.2, t.3)),
    )
}

/// The views of a keyed inventory's rows.
pub open spec fn keyed_views(v: Seq<(String, (i64, Option<i64>))>) -> Seq<
    (Seq<char>, (int, Option<int>)),
> {
    v.map_values(|t: (String, (i64, Option<i64>))| (t.0@, (t.1.0 as int, crate::opt_view(t.1.1))))
}

/// Whether some keyed row carries the address.
pub open spec fn spec_has_key(rows: Seq<(Seq<char>, (int, Option<int>))>, key: Seq<char>) -> bool {
    exists|i: int| 0 <= i < rows.len() && (#[trigger] rows[i]).0 == key
}

/// The first index whose row carries the address.
pub open spec fn spec_index_of_key(
    rows: Seq<(Seq<char>, (int, Option<int>))>,
    key: Seq<char>,
) -> int
    decreases rows.len(),
{
    if rows.len() == 0 {
        0
    } else if rows.first().0 == key {
        0
    } else {
        1 + spec_index_of_key(rows.drop_first(), key)
    }
}

/// The value of the last row carrying the address.
pub open spec fn spec_last_value_for(
    rows: Seq<(Seq<char>, (int, Option<int>))>,
    key: Seq<char>,
) -> (int, Option<int>)
    decreases rows.len(),
{
    if rows.len() == 0 {
        (0int, None::<int>)
    } else if rows.last().0 == key {
        rows.last().1
    } else {
        spec_last_value_for(rows.drop_last(), key)
    }
}

/// The rows deduplicated by address, as inserting them into a map in
/// order would leave them: each address keeps the position of its first
/// occurrence and the value of its last occurrence.
pub open spec fn spec_dedup_keyed(rows: Seq<(Seq<char>, (int, Option<int>))>) -> Seq<
    (Seq<char>, (int, Option<int>)),
>
    decreases rows.len(),
{
    if rows.len() == 0 {
        Seq::empty()
    } else {
        let prev = spec_dedup_keyed(rows.drop_last());
        let t = rows.last();
        if spec_has_key(prev, t.0) {
            prev.update(spec_index_of_key(prev, t.0), t)
        } else {
            prev.push(t)
        }
    }
}

/// The first index of an address some row carries: in range, a match,
/// and the earliest one.
pub proof fn lemma_index_of_key(rows: Seq<(Seq<char>, (int, Option<int>))>, key: Seq<char>)
    requires
        spec_has_key(rows, key),
    ensures
        0 <= spec_index_of_key(rows, key) < rows.len(),
        rows[spec_index_of_key(rows, key)].0 == key,
        forall|k: int| 0 <= k < spec_index_of_key(rows, key) ==> (#[trigger] rows[k]).0 != key,
    decreases rows.len(),
{
    if rows.len() > 0 && rows.first().0 != key {
        let i = choose|i: int| 0 <= i < rows.len() && (#[trigger] rows[i]).0 == key;
        assert(i != 0);
        assert(rows.drop_first()[i - 1] == rows[i]);
        assert(spec_has_key(rows.drop_first(), key));
        lemma_index_of_key(rows.drop_first(), key);
        let ix0 = spec_index_of_key(rows.drop_first(), key);
        assert(rows[1 + ix0] == rows.drop_first()[ix0]);
        assert forall|k: int| 0 <= k < 1 + ix0 implies (#[trigger] rows[k]).0 != key by {
            if k > 0 {
                assert(rows[k] == rows.drop_first()[k - 1]);
            }
        }
    }
}

/// Deduplication gives a map: addresses are distinct, each kept row
/// carries the value of the last underlying row with its address, and
/// every underlying address stays present.
pub proof fn lemma_dedup_keyed_map(rows: Seq<(Seq<char>, (int, Option<int>))>)
    ensures
        ({
            let d = spec_dedup_keyed(rows);
            &&& forall|j1: int, j2: int|
                0 <= j1 < j2 < d.len() ==> (#[trigger] d[j1]).0 != (#[trigger] d[j2]).0
            &&& forall|j: int|
                0 <= j < d.len() ==> spec_has_key(rows, (#[trigger] d[j]).0) && d[j].1
                    == spec_last_value_for(rows, d[j].0)
            &&& forall|i: int| 0 <= i < rows.len() ==> spec_has_key(d, (#[trigger] rows[i]).0)
        }),
    decreases rows.len(),
{
    if rows.len() > 0 {
        let rs = rows.drop_last();
        let t = rows.last();
        lemma_dedup_keyed_map(rs);
        let prev = spec_dedup_keyed(rs);
        let d = spec_dedup_keyed(rows);
        assert(rows[rows.len() - 1] == t);
        assert(forall|i: int| 0 <= i < rs.len() ==> #[trigger] rows[i] == rs[i]);
        if spec_has_key(prev, t.0) {
            lemma_index_of_key(prev, t.0);
            let ix = spec_index_of_key(prev, t.0);
            assert(d == prev.update(ix, t));
            assert forall|j: int| 0 <= j < d.len() implies (#[trigger] d[j]).0 == prev[j].0 by {
                if j == ix {
                    assert(d[j] == t);
                    assert(prev[ix].0 == t.0);
                } else {
                    assert(d[j] == prev[j]);
                }
            }
            assert forall|j1: int, j2: int| 0 <= j1 < j2 < d.len() implies (#[trigger] d[j1]).0
                != (#[trigger] d[j2]).0 by {
                assert(d[j1].0 == prev[j1].0 && d[j2].0 == prev[j2].0);
                assert(prev[j1].0 != prev[j2].0);
            }
            assert forall|j: int| 0 <= j < d.len() implies spec_has_key(rows, (#[trigger] d[j]).0)
                && d[j].1 == spec_last_value_for(rows, d[j].0) by {
                if j == ix {
                    assert(d[j] == t);
                    assert(rows[rows.len() - 1].0 == t.0);
                    assert(spec_has_key(rows, t.0));
                    assert(spec_last_value_for(rows, t.0) == t.1);
                } else {
                    assert(d[j] == prev[j]);
                    assert(spec_has_key(rs, prev[j].0) && prev[j].1 == spec_last_value_for(
                        rs,
                        prev[j].0,
                    ));
                    let w = choose|w: int| 0 <= w < rs.len() && (#[trigger] rs[w]).0 == prev[j].0;
                    assert(rows[w].0 == prev[j].0);
                    assert(spec_has_key(rows, prev[j].0));
                    assert(prev[j].0 != t.0) by {
                        if prev[j].0 == t.0 {
                            if j < ix {
                                assert(prev[j].0 != prev[ix].0);
                            } else {
                                assert(prev[ix].0 != prev[j].0);
                            }
                        }
                    }
                    assert(spec_last_value_for(rows, prev[j].0) == spec_last_value_for(
                        rs,
                        prev[j].0,
                    ));
                }
            }
            assert forall|i: int| 0 <= i < rows.len() implies spec_has_key(
                d,
                (#[trigger] rows[i]).0,
            ) by {
                if i == rows.len() - 1 {
                    assert(d[ix].0 == prev[ix].0);
                    assert(d[ix].0 == t.0);
                    assert(spec_has_key(d, t.0));
                } else {
                    assert(rows[i] == rs[i]);
                    assert(spec_has_key(rs, rs[i].0));
                    let w = choose|w: int|
                        0 <= w < prev.len() && (#[trigger] prev[w]).0 == rs[i].0;
                    assert(d[w].0 == prev[w].0);
                    assert(spec_has_key(d, rs[i].0));
                }
            }
        } else {
            assert(d == prev.push(t));
            assert forall|j1: int, j2: int| 0 <= j1 < j2 < d.len() implies (#[trigger] d[j1]).0
                != (#[trigger] d[j2]).0 by {
                if j2 == d.len() - 1 {
                    assert(d[j1] == prev[j1]);
                    assert(d[j2] == t);
                    if prev[j1].0 == t.0 {
                        assert(spec_has_key(prev, t.0));
                    }
                } else {
                    assert(d[j1] == prev[j1] && d[j2] == prev[j2]);
                    assert(prev[j1].0 != prev[j2].0);
                }
            }
            assert forall|j: int| 0 <= j < d.len() implies spec_has_key(rows, (#[trigger] d[j]).0)
                && d[j].1 == spec_last_value_for(rows, d[j].0) by {
                if j == d.len() - 1 {
                    assert(d[j] == t);
                    assert(rows[rows.len() - 1].0 == t.0);
                    assert(spec_has_key(rows, t.0));
                    assert(spec_last_value_for(rows, t.0) == t.1);
                } else {
                    assert(d[j] == prev[j]);
                    assert(spec_has_key(rs, prev[j].0) && prev[j].1 == spec_last_value_for(
                        rs,
                        prev[j].0,
                    ));
                    let w = choose|w: int| 0 <= w < rs.len() && (#[trigger] rs[w]).0 == prev[j].0;
                    assert(rows[w].0 == prev[j].0);
                    assert(spec_has_key(rows, prev[j].0));
                    assert(prev[j].0 != t.0) by {
                        if prev[j].0 == t.0 {
                            assert(spec_has_key(prev, t.0));
                        }
                    }
                    assert(spec_last_value_for(rows, prev[j].0) == spec_last_value_for(
                        rs,
                        prev[j].0,
                    ));
                }
            }
            assert forall|i: int| 0 <= i < rows.len() implies spec_has_key(
                d,
                (#[trigger] rows[i]).0,
            ) by {
                if i == rows.len() - 1 {
                    assert(d[d.len() - 1] == t);
                    assert(spec_has_key(d, t.0));
                } else {
                    assert(rows[i] == rs[i]);
                    assert(spec_has_key(rs, rs[i].0));
                    let w = choose|w: int|
                        0 <= w < prev.len() && (#[trigger] prev[w]).0 == rs[i].0;
                    assert(d[w] == prev[w]);
                    assert(spec_has_key(d, rs[i].0));
                }
            }
        }
    }
}

/// Finds the row that already carries the address, if one does.
fn find_key(out: &Vec<(String, (i64, Option<i64>))>, key: &str) -> (r: Option<usize>)
    ensures
        match r {
            Some(ix) => {
                &&& spec_has_key(keyed_views(out@), key@)
                &&& ix < out@.len()
                &&& ix as int == spec_index_of_key(keyed_views(out@), key@)
            },
            None => !spec_has_key(keyed_views(out@), key@),
        },
{
    let ghost kv = keyed_views(out@);
    let mut i: usize = 0;
    while i < out.len()
        invariant
            i <= out@.len(),
            kv == keyed_views(out@),
            kv.len() == out@.len(),
            forall|k: int| 0 <= k < i ==> (#[trigger] kv[k]).0 != key@,
        decreases out@.len() - i,
    {
        if crate::strutil::str_eq(out[i].0.as_str(), key) {
            proof {
                assert(kv[i as int].0 == key@);
                assert(spec_has_key(kv, key@));
                lemma_index_of_key(kv, key@);
                let ix = spec_index_of_key(kv, key@);
                if ix < i as int {
                    assert(kv[ix].0 != key@);
                }
                if ix > i as int {
                    assert(kv[i as int].0 != key@);
                }
            }
            return Some(i);
        }
        i = i + 1;
    }
    proof {
        if spec_has_key(kv, key@) {
            let w = choose|w: int| 0 <= w < kv.len() && (#[trigger] kv[w]).0 == key@;
            assert(kv[w].0 != key@);
        }
    }
    None
}

/// Assembles the live inventory keyed by full address, for point
/// lookups: a map, as an address book — addresses are distinct, a later
/// record with the same address overwrites the earlier one's value, and
/// each address keeps the position of its first occurrence. Every
/// probed domain must have a capture; a capture that does not parse
/// fails the query.
pub fn list_active_agents_and_daemons_by_domain(domains: &Vec<String>, prints: &Vec<String>) -> (r:
    Result<Vec<(String, (i64, Option<i64>))>, Error>)
    requires
        domains@.len() == prints@.len(),
    ensures
        match r {
            Ok(v) => {
                &&& spec_live_records(
                    domains@.map_values(|s: String| s@),
                    prints@.map_values(|s: String| Some(s@)),
                    0,
                ) matches Ok(recs)
                &&& keyed_views(v@) == spec_dedup_keyed(spec_keyed(recs))
                &&& forall|j1: int, j2: int|
                    0 <= j1 < j2 < v@.len() ==> (#[trigger] keyed_views(v@)[j1]).0 != (
                    #[trigger] keyed_views(v@)[j2]).0
                &&& forall|j: int|
                    0 <= j < v@.len() ==> spec_has_key(
                        spec_keyed(recs),
                        (#[trigger] keyed_views(v@)[j]).0,
                    ) && keyed_views(v@)[j].1 == spec_last_value_for(
                        spec_keyed(recs),
                        keyed_views(v@)[j].0,
                    )
                &&& forall|i: int|
                    0 <= i < recs.len() ==> spec_has_key(
                        keyed_views(v@),
                        (#[trigger] spec_keyed(recs)[i]).0,
                    )
            },
            Err(e) => {
                &&& spec_live_records(
                    domains@.map_values(|s: String| s@),
                    prints@.map_values(|s: String| Some(s@)),
                    0,
                ) matches Err(l)
                &&& e matches Error::ParseError(m) && m@ == "service info not found in "@ + l
            },
        },
{
    let ghost pv = prints@.map_values(|s: String| Some(s@));
    let mut wrapped: Vec<Option<String>> = Vec::new();
    let mut i: usize = 0;
    while i < prints.len()
        invariant
            i <= prints@.len(),
            pv == prints@.map_values(|s: String| Some(s@)),
            wrapped@.map_values(|p: Option<String>| crate::opt_str_view(p)) =~= pv.subrange(
                0,
                i as int,
            ),
        decreases prints@.len() - i,
    {
        let ghost prev = wrapped@.map_values(|p: Option<String>| crate::opt_str_view(p));
        let text = prints[i].clone();
        let ghost tv = text@;
        wrapped.push(Some(text));
        proof {
            assert(wrapped@.map_values(|p: Option<String>| crate::opt_str_view(p)) =~= prev.push(
                Some(tv),
            ));
            assert(pv.subrange(0, i as int + 1) =~= pv.subrange(0, i as int).push(pv[i as int]));
        }
        i = i + 1;
    }
    proof {
        assert(pv.subrange(0, pv.len() as int) =~= pv);
        assert(wrapped@.map_values(|p: Option<String>| crate::opt_str_view(p)) == pv);
    }
    let rows = match list_active_agents_and_daemons(domains, &wrapped) {
        Ok(rows) => rows,
        Err(e) => {
            return Err(e);
        },
    };
    let ghost recs = live_views(rows@);
    let ghost krows = spec_keyed(recs);
    let mut out: Vec<(String, (i64, Option<i64>))> = Vec::new();
    let mut j: usize = 0;
    while j < rows.len()
        invariant
            j <= rows@.len(),
            recs == live_views(rows@),
            recs.len() == rows@.len(),
            krows == spec_keyed(recs),
            krows.len() == rows@.len(),
            keyed_views(out@) == spec_dedup_keyed(krows.subrange(0, j as int)),
        decreases rows@.len() - j,
    {
        let row = &rows[j];
        let mut key = row.0.clone();
        key.append("/");
        key.append(row.1.as_str());
        proof {
            assert(krows[j as int] == (
                recs[j as int].0 + "/"@ + recs[j as int].1,
                (recs[j as int].2, recs[j as int].3),
            ));
            assert(key@ == krows[j as int].0);
            assert(krows.subrange(0, j as int + 1).drop_last() =~= krows.subrange(0, j as int));
            assert(krows.subrange(0, j as int + 1).last() == krows[j as int]);
        }
        let ghost prev = keyed_views(out@);
        match find_key(&out, key.as_str()) {
            Some(ix) => {
                out[ix] = (key, (row.2, row.3));
                proof {
                    assert(keyed_views(out@) =~= prev.update(ix as int, krows[j as int]));
                    assert(spec_dedup_keyed(krows.subrange(0, j as int + 1)) == prev.update(
                        spec_index_of_key(prev, krows[j as int].0),
                        krows[j as int],
                    ));
                }
            },
            None => {
                out.push((key, (row.2, row.3)));
                proof {
                    assert(keyed_views(out@) =~= prev.push(krows[j as int]));
                    assert(spec_dedup_keyed(krows.subrange(0, j as int + 1)) == prev.push(
                        krows[j as int],
                    ));
                }
            },
        }
        j = j + 1;
    }
    proof {
        assert(krows.subrange(0, krows.len() as int) =~= krows);
        lemma_dedup_keyed_map(krows);
    }
    Ok(out)
}

// ---------------------------------------------------------------------------
// The full inventory: live services joined with declared descriptors
// ---------------------------------------------------------------------------

/// The path of the first declared descriptor whose label equals the
/// service name.
pub open spec fn spec_path_of(declared: Seq<(Seq<char>, Seq<char>)>, svc: Seq<char>) -> Option<
    Seq<char>,
>
    decreases declared.len(),
{
    if declared.len() == 0 {
        None
    } else if declared.first().0 == svc {
        Some(declared.first().1)
    } else {
        spec_path_of(declared.drop_first(), svc)
    }
}

/// Whether some live row carries the service name.
pub open spec fn spec_live_has(live: Seq<(Seq<char>, Seq<char>, int, Option<int>)>, svc: Seq<char>)
    -> bool {
    exists|i: int| 0 <= i < live.len() && (#[trigger] live[i]).1 == svc
}

/// The full inventory rows the live part contributes: each live row
/// with its descriptor path attached when a declared label matches.
pub open spec fn spec_live_part(
    live: Seq<(Seq<char>, Seq<char>, int, Option<int>)>,
    declared: Seq<(Seq<char>, Seq<char>)>,
) -> Seq<(Seq<char>, Seq<char>, int, Option<int>, bool, Option<Seq<char>>)> {
    live.map_values(
        |t: (Seq<char>, Seq<char>, int, Option<int>)|
            (t.0, t.1, t.2, t.3, true, spec_path_of(declared, t.1)),
    )
}

/// The full inventory rows the declared-but-not-live part contributes:
/// one stopped row per declared descriptor whose label no live row
/// carries, in its scope's default domain.
pub open spec fn spec_declared_part(
    live: Seq<(Seq<char>, Seq<char>, int, Option<int>)>,
    declared: Seq<(Seq<char>, Seq<char>)>,
    uid: Uid,
) -> Seq<(Seq<char>, Seq<char>, int, Option<int>, bool, Option<Seq<char>>)>
    decreases declared.len(),
{
    if declared.len() == 0 {
        Seq::empty()
    } else {
        let rest = spec_declared_part(live, declared.drop_last(), uid);
        let d = declared.last();
        if spec_live_has(live, d.0) {
            rest
        } else {
            rest + seq![
                (
                    crate::adm::spec_descriptor_prefix(d.1, uid),
                    d.0,
                    0int,
                    None::<int>,
                    false,
                    Some(d.1),
                ),
            ]
        }
    }
}

/// Looks up the path of the first declared descriptor whose label is
/// the service name.
fn path_of(declared: &Vec<(String, String)>, svc: &str) -> (r: Option<String>)
    ensures
        crate::opt_str_view(r) == spec_path_of(
            declared@.map_values(|d: (String, String)| (d.0@, d.1@)),
            svc@,
        ),
{
    let ghost dv = declared@.map_values(|d: (String, String)| (d.0@, d.1@));
    proof {
        assert(dv.skip(0) =~= dv);
    }
    let mut i: usize = 0;
    while i < declared.len()
        invariant
            i <= declared@.len(),
            dv == declared@.map_values(|d: (String, String)| (d.0@, d.1@)),
            dv.len() == declared@.len(),
            spec_path_of(dv, svc@) == spec_path_of(dv.skip(i as int), svc@),
        decreases declared@.len() - i,
    {
        proof {
            assert(dv.skip(i as int).first() == dv[i as int]);
            assert(dv.skip(i as int).drop_first() =~= dv.skip(i as int + 1));
        }
        if crate::strutil::str_eq(declared[i].0.as_str(), svc) {
            return Some(declared[i].1.clone());
        }
        i = i + 1;
    }
    proof {
        assert(dv.skip(i as int).len() == 0);
    }
    None
}

/// Whether some live row carries the service name.
fn live_has(live: &Vec<(String, String, i64, Option<i64>)>, svc: &str) -> (r: bool)
    ensures
        r == spec_live_has(live_views(live@), svc@),
{
    let ghost lv = live_views(live@);
    let mut i: usize = 0;
    while i < live.len()
        invariant
            i <= live@.len(),
            lv == live_views(live@),
            lv.len() == live@.len(),
            forall|k: int| 0 <= k < i ==> (#[trigger] lv[k]).1 != svc@,
        decreases live@.len() - i,
    {
        if crate::strutil::str_eq(live[i].1.as_str(), svc) {
            proof {
                assert(lv[i as int].1 == svc@);
            }
            return true;
        }
        i = i + 1;
    }
    false
}

/// Joins the live inventory with the declared descriptors: every live
/// row keeps its pid and status and gains the path of the first
/// descriptor declaring its name; every descriptor no live row names is
/// appended as a stopped row — pid zero, no status, not enabled — in
/// the domain its location implies. Declared rows come after all live
/// rows, in declaration order.
pub fn list_all_agents_and_daemons(
    uid: &Uid,
    live: &Vec<(String, String, i64, Option<i64>)>,
    declared: &Vec<(String, String)>,
) -> (r: Vec<(String, String, i64, Option<i64>, bool, Option<String>)>)
    ensures
        crate::full_views(r@) == spec_live_part(
            live_views(live@),
            declared@.map_values(|d: (String, String)| (d.0@, d.1@)),
        ) + spec_declared_part(
            live_views(live@),
            declared@.map_values(|d: (String, String)| (d.0@, d.1@)),
            *uid,
        ),
{
    let ghost lv = live_views(live@);
    let ghost dv = declared@.map_values(|d: (String, String)| (d.0@, d.1@));
    let mut out: Vec<(String, String, i64, Option<i64>, bool, Option<String>)> = Vec::new();
    let mut i: usize = 0;
    while i < live.len()
        invariant
            i <= live@.len(),
            lv == live_views(live@),
            lv.len() == live@.len(),
            dv == declared@.map_values(|d: (String, String)| (d.0@, d.1@)),
            crate::full_views(out@) =~= spec_live_part(lv, dv).subrange(0, i as int),
        decreases live@.len() - i,
    {
        let row = &live[i];
        let path = path_of(declared, row.1.as_str());
        let ghost prev = crate::full_views(out@);
        let ghost pv = crate::opt_str_view(path);
        out.push((row.0.clone(), row.1.clone(), row.2, row.3, true, path));
        proof {
            assert(crate::full_views(out@) =~= prev.push(
                (lv[i as int].0, lv[i as int].1, lv[i as int].2, lv[i as int].3, true, pv),
            ));
            assert(spec_live_part(lv, dv)[i as int] == (
                lv[i as int].0,
                lv[i as int].1,
                lv[i as int].2,
                lv[i as int].3,
                true,
                spec_path_of(dv, lv[i as int].1),
            ));
            assert(spec_live_part(lv, dv).subrange(0, i as int + 1) =~= spec_live_part(
                lv,
                dv,
            ).subrange(0, i as int).push(spec_live_part(lv, dv)[i as int]));
        }
        i = i + 1;
    }
    proof {
        assert(spec_live_part(lv, dv).subrange(0, spec_live_part(lv, dv).len() as int)
            =~= spec_live_part(lv, dv));
    }
    let mut j: usize = 0;
    while j < declared.len()
        invariant
            j <= declared@.len(),
            lv == live_views(live@),
            dv == declared@.map_values(|d: (String, String)| (d.0@, d.1@)),
            dv.len() == declared@.len(),
            crate::full_views(out@) =~= spec_live_part(lv, dv) + spec_declared_part(
                lv,
                dv.subrange(0, j as int),
                *uid,
            ),
        decreases declared@.len() - j,
    {
        let d = &declared[j];
        proof {
            assert(dv.subrange(0, j as int + 1).drop_last() =~= dv.subrange(0, j as int));
            assert(dv.subrange(0, j as int + 1).last() == dv[j as int]);
            assert(dv[j as int] == (d.0@, d.1@));
        }
        if !live_has(live, d.0.as_str()) {
            let domain = crate::adm::descriptor_prefix(d.1.as_str(), uid);
            let ghost prev = crate::full_views(out@);
            out.push((domain, d.0.clone(), 0, None, false, Some(d.1.clone())));
            proof {
                assert(crate::full_views(out@) =~= prev.push(
                    (
                        crate::adm::spec_descriptor_prefix(dv[j as int].1, *uid),
                        dv[j as int].0,
                        0int,
                        None::<int>,
                        false,
                        Some(dv[j as int].1),
                    ),
                ));
            }
        }
        j = j + 1;
    }
    proof {
        assert(dv.subrange(0, dv.len() as int) =~= dv);
    }
    out
}

} // verus!
