//! The action driver: the per-target turn-off and boot-up state
//! machines, and the batch accounting of successes and errors.
//!
//! The machines decide; the surrounding program runs the pending
//! command and feeds the observed exit code back. A recoverable
//! "not running" outcome never stops a flow; a fatal outcome ends it
//! with the error recorded, and one target's failure never aborts a
//! batch.

use vstd::prelude::*;
use vstd::string::StrSliceExecFns;
use vstd::string::StringExecFns;

use crate::errors::Error;
use crate::launchctl::ExitClass;
use crate::launchctl::classify_subcommand_exit;
use crate::launchctl::launchctl_subcommand;
use crate::launchctl::spec_classify_subcommand_exit;
use crate::launchctl::spec_subcommand_msg;

verus! {

// ---------------------------------------------------------------------------
// The turn-off flow
// ---------------------------------------------------------------------------

/// The pending step of a turn-off flow.
#[derive(Clone, Copy, Debug, PartialEq, Eq, Structural)]
pub enum TurnOffStep {
    /// Unload the service.
    Bootout,
    /// Prevent future auto-load.
    Disable,
    /// Best-effort kill of the remaining process.
    Kill,
    /// Nothing left to run.
    Done,
}

/// One target's turn-off flow: unload, then disable, then — for the
/// thorough variant — a best-effort kill. A fatal exit ends the flow
/// with the error recorded; the recoverable "not running" outcome is
/// treated as success and the flow continues.
pub struct TurnOffFlow {
    /// The full `<domain>/<service>` address.
    pub target: String,
    /// Whether the kill step runs after disabling.
    pub with_kill: bool,
    /// The pending step.
    pub step: TurnOffStep,
    /// The fatal error that ended the flow, if one did.
    pub failure: Option<Error>,
}

impl TurnOffFlow {
    /// Starts the flow for one target.
    pub fn new(domain: &str, service: &str, with_kill: bool) -> (r: TurnOffFlow)
        ensures
            r.target@ == domain@ + "/"@ + service@,
            r.with_kill == with_kill,
            r.step is Bootout,
            r.failure is None,
    {
        let mut target = domain.to_owned();
        target.append("/");
        target.append(service);
        TurnOffFlow { target, with_kill, step: TurnOffStep::Bootout, failure: None }
    }

    /// The argument list of the pending service-manager command, `None`
    /// once the flow is done.
    pub fn pending_args(&self) -> (r: Option<Vec<String>>)
        ensures
            match self.step {
                TurnOffStep::Bootout => r matches Some(a) && a@.map_values(|s: String| s@)
                    == seq!["bootout"@, self.target@],
                TurnOffStep::Disable => r matches Some(a) && a@.map_values(|s: String| s@)
                    == seq!["disable"@, self.target@],
                TurnOffStep::Kill => r matches Some(a) && a@.map_values(|s: String| s@) == seq![
                    "kill"@,
                    "9"@,
                    self.target@,
                ],
                TurnOffStep::Done => r is None,
            },
    {
        let mut a: Vec<String> = Vec::new();
        match self.step {
            TurnOffStep::Bootout => {
                a.push(String::from_str("bootout"));
                a.push(self.target.clone());
                proof {
                    assert(a@.map_values(|s: String| s@) =~= seq!["bootout"@, self.target@]);
                }
                Some(a)
            },
            TurnOffStep::Disable => {
                a.push(String::from_str("disable"));
                a.push(self.target.clone());
                proof {
                    assert(a@.map_values(|s: String| s@) =~= seq!["disable"@, self.target@]);
                }
                Some(a)
            },
            TurnOffStep::Kill => {
                a.push(String::from_str("kill"));
                a.push(String::from_str("9"));
                a.push(self.target.clone());
                proof {
                    assert(a@.map_values(|s: String| s@) =~= seq!["kill"@, "9"@, self.target@]);
                }
                Some(a)
            },
            TurnOffStep::Done => None,
        }
    }

    /// Whether the flow has finished.
    pub fn is_done(&self) -> (r: bool)
        ensures
            r == (self.step is Done),
    {
        match self.step {
            TurnOffStep::Done => true,
            _ => false,
        }
    }

    /// Advances the flow with the observed exit code and captured error
    /// stream of the pending command. A fatal classification ends the
    /// flow with the error recorded; anything else moves to the next
    /// step, and the kill step never fails the flow.
    pub fn absorb(&mut self, exit_code: i64, err: &str)
        requires
            !(old(self).step is Done),
        ensures
            final(self).target@ == old(self).target@,
            final(self).with_kill == old(self).with_kill,
            match old(self).step {
                TurnOffStep::Bootout => {
                    if spec_classify_subcommand_exit(exit_code as int) == ExitClass::Fatal {
                        &&& final(self).step is Done
                        &&& final(self).failure matches Some(e) && e matches Error::LaunchdError(m)
                            && m@ == spec_subcommand_msg(
                            seq!["bootout"@, old(self).target@],
                            exit_code as int,
                            err@,
                        )
                    } else {
                        final(self).step is Disable && final(self).failure == old(self).failure
                    }
                },
                TurnOffStep::Disable => {
                    if spec_classify_subcommand_exit(exit_code as int) == ExitClass::Fatal {
                        &&& final(self).step is Done
                        &&& final(self).failure matches Some(e) && e matches Error::LaunchdError(m)
                            && m@ == spec_subcommand_msg(
                            seq!["disable"@, old(self).target@],
                            exit_code as int,
                            err@,
                        )
                    } else if old(self).with_kill {
                        final(self).step is Kill && final(self).failure == old(self).failure
                    } else {
                        final(self).step is Done && final(self).failure == old(self).failure
                    }
                },
                TurnOffStep::Kill => final(self).step is Done && final(self).failure == old(
                    self,
                ).failure,
                TurnOffStep::Done => false,
            },
    {
        match self.step {
            TurnOffStep::Bootout => {
                let args = self.pending_args().unwrap();
                match launchctl_subcommand(&args, exit_code, err) {
                    Ok(_) => {
                        self.step = TurnOffStep::Disable;
                    },
                    Err(Error::LaunchdServiceNotRunning(_)) => {
                        self.step = TurnOffStep::Disable;
                    },
                    Err(e) => {
                        self.step = TurnOffStep::Done;
                        self.failure = Some(e);
                    },
                }
            },
            TurnOffStep::Disable => {
                let args = self.pending_args().unwrap();
                match launchctl_subcommand(&args, exit_code, err) {
                    Ok(_) => {
                        self.step = if self.with_kill {
                            TurnOffStep::Kill
                        } else {
                            TurnOffStep::Done
                        };
                    },
                    Err(Error::LaunchdServiceNotRunning(_)) => {
                        self.step = if self.with_kill {
                            TurnOffStep::Kill
                        } else {
                            TurnOffStep::Done
                        };
                    },
                    Err(e) => {
                        self.step = TurnOffStep::Done;
                        self.failure = Some(e);
                    },
                }
            },
            TurnOffStep::Kill => {
                self.step = TurnOffStep::Done;
            },
            TurnOffStep::Done => {
            },
        }
    }

    /// The finished flow as a `(target, failure)` result row.
    pub fn into_result(self) -> (r: (String, Option<Error>))
        ensures
            r.0@ == self.target@,
            r.1 == self.failure,
    {
        (self.target, self.failure)
    }
}

/// Whether a whole turn-off run succeeds, given the exit codes its
/// unload and disable steps observed: neither is fatal.
pub open spec fn spec_turn_off_outcome_ok(bootout_exit: int, disable_exit: int) -> bool {
    spec_classify_subcommand_exit(bootout_exit) != ExitClass::Fatal
        && spec_classify_subcommand_exit(disable_exit) != ExitClass::Fatal
}

/// Runs one target's whole turn-off flow against the recorded outcomes
/// of its commands, in order, as the command loop would: the unload
/// outcome first, the disable outcome second, the kill outcome — when
/// the thorough variant asks for one — third.
pub fn run_turn_off_flow(
    domain: &str,
    service: &str,
    with_kill: bool,
    outcomes: &Vec<(i64, String)>,
) -> (r: TurnOffFlow)
    requires
        outcomes@.len() >= if with_kill {
            3int
        } else {
            2int
        },
    ensures
        r.step is Done,
        r.target@ == domain@ + "/"@ + service@,
        r.failure is None <==> spec_turn_off_outcome_ok(
            outcomes@[0].0 as int,
            outcomes@[1].0 as int,
        ),
        spec_classify_subcommand_exit(outcomes@[0].0 as int) == ExitClass::Fatal ==> (r.failure
            matches Some(e) && e matches Error::LaunchdError(m) && m@ == spec_subcommand_msg(
            seq!["bootout"@, domain@ + "/"@ + service@],
            outcomes@[0].0 as int,
            outcomes@[0].1@,
        )),
        (spec_classify_subcommand_exit(outcomes@[0].0 as int) != ExitClass::Fatal
            && spec_classify_subcommand_exit(outcomes@[1].0 as int) == ExitClass::Fatal) ==> (
        r.failure matches Some(e) && e matches Error::LaunchdError(m) && m@ == spec_subcommand_msg(
            seq!["disable"@, domain@ + "/"@ + service@],
            outcomes@[1].0 as int,
            outcomes@[1].1@,
        )),
{
    let mut flow = TurnOffFlow::new(domain, service, with_kill);
    flow.absorb(outcomes[0].0, outcomes[0].1.as_str());
    if !flow.is_done() {
        flow.absorb(outcomes[1].0, outcomes[1].1.as_str());
    }
    if !flow.is_done() {
        flow.absorb(outcomes[2].0, outcomes[2].1.as_str());
    }
    flow
}

/// Turning off an already-stopped target is idempotent: when the unload
/// step reports the target as not running — its recoverable outcome —
/// and the disable step does not fail fatally, the run succeeds; and so
/// does an immediate second run observing the same kind of outcomes.
/// Folding the two runs' results into a batch outcome yields the target
/// twice among the successes and no error entry at all.
pub proof fn lemma_turn_off_idempotent(
    target: Seq<char>,
    first_bootout: int,
    first_disable: int,
    second_bootout: int,
    second_disable: int,
)
    requires
        spec_classify_subcommand_exit(first_bootout) == ExitClass::NotRunning,
        spec_classify_subcommand_exit(first_disable) != ExitClass::Fatal,
        spec_classify_subcommand_exit(second_bootout) == ExitClass::NotRunning,
        spec_classify_subcommand_exit(second_disable) != ExitClass::Fatal,
    ensures
        spec_turn_off_outcome_ok(first_bootout, first_disable),
        spec_turn_off_outcome_ok(second_bootout, second_disable),
        spec_success_targets(seq![(target, None::<Error>), (target, None::<Error>)]) == seq![
            target,
            target,
        ],
        spec_error_entries(seq![(target, None::<Error>), (target, None::<Error>)]) == Seq::<
            (Seq<char>, Error),
        >::empty(),
{
    let runs = seq![(target, None::<Error>), (target, None::<Error>)];
    let one = seq![(target, None::<Error>)];
    assert(runs.drop_last() =~= one);
    assert(one.drop_last() =~= Seq::<(Seq<char>, Option<Error>)>::empty());
    assert(one.last() == (target, None::<Error>));
    assert(runs.last() == (target, None::<Error>));
    assert(spec_success_targets(Seq::<(Seq<char>, Option<Error>)>::empty()) == Seq::<
        Seq<char>,
    >::empty());
    assert(spec_error_entries(Seq::<(Seq<char>, Option<Error>)>::empty()) == Seq::<
        (Seq<char>, Error),
    >::empty());
    assert(spec_success_targets(one) =~= seq![target]);
    assert(spec_error_entries(one) =~= Seq::<(Seq<char>, Error)>::empty());
    assert(spec_success_targets(runs) =~= seq![target, target]);
    assert(spec_error_entries(runs) =~= Seq::<(Seq<char>, Error)>::empty());
}

// ---------------------------------------------------------------------------
// The boot-up flow
// ---------------------------------------------------------------------------

/// The pending step of a boot-up flow.
#[derive(Clone, Copy, Debug, PartialEq, Eq, Structural)]
pub enum BootUpStep {
    /// Allow the service to auto-load again.
    Enable,
    /// Re-register and start the service from its descriptor.
    Bootstrap,
    /// Nothing left to run.
    Done,
}

/// One target's boot-up flow: enable, then bootstrap from the on-disk
/// descriptor. A fatal exit ends the flow with the error recorded; the
/// recoverable "not running" outcome on enabling is a soft warning and
/// the flow continues.
pub struct BootUpFlow {
    /// The full `<domain>/<service>` address.
    pub target: String,
    /// The descriptor path handed to the bootstrap step.
    pub descriptor_path: String,
    /// The pending step.
    pub step: BootUpStep,
    /// The fatal error that ended the flow, if one did.
    pub failure: Option<Error>,
}

impl BootUpFlow {
    /// Starts the flow for one target and its descriptor.
    pub fn new(domain: &str, service: &str, descriptor_path: &str) -> (r: BootUpFlow)
        ensures
            r.target@ == domain@ + "/"@ + service@,
            r.descriptor_path@ == descriptor_path@,
            r.step is Enable,
            r.failure is None,
    {
        let mut target = domain.to_owned();
        target.append("/");
        target.append(service);
        BootUpFlow {
            target,
            descriptor_path: descriptor_path.to_owned(),
            step: BootUpStep::Enable,
            failure: None,
        }
    }

    /// The argument list of the pending service-manager command, `None`
    /// once the flow is done.
    pub fn pending_args(&self) -> (r: Option<Vec<String>>)
        ensures
            match self.step {
                BootUpStep::Enable => r matches Some(a) && a@.map_values(|s: String| s@) == seq![
                    "enable"@,
                    self.target@,
                ],
                BootUpStep::Bootstrap => r matches Some(a) && a@.map_values(|s: String| s@)
                    == seq!["bootstrap"@, self.target@, self.descriptor_path@],
                BootUpStep::Done => r is None,
            },
    {
        let mut a: Vec<String> = Vec::new();
        match self.step {
            BootUpStep::Enable => {
                a.push(String::from_str("enable"));
                a.push(self.target.clone());
                proof {
                    assert(a@.map_values(|s: String| s@) =~= seq!["enable"@, self.target@]);
                }
                Some(a)
            },
            BootUpStep::Bootstrap => {
                a.push(String::from_str("bootstrap"));
                a.push(self.target.clone());
                a.push(self.descriptor_path.clone());
                proof {
                    assert(a@.map_values(|s: String| s@) =~= seq![
                        "bootstrap"@,
                        self.target@,
                        self.descriptor_path@,
                    ]);
                }
                Some(a)
            },
            BootUpStep::Done => None,
        }
    }

    /// Whether the flow has finished.
    pub fn is_done(&self) -> (r: bool)
        ensures
            r == (self.step is Done),
    {
        match self.step {
            BootUpStep::Done => true,
            _ => false,
        }
    }

    /// Advances the flow with the observed exit code and captured error
    /// stream of the pending command.
    pub fn absorb(&mut self, exit_code: i64, err: &str)
        requires
            !(old(self).step is Done),
        ensures
            final(self).target@ == old(self).target@,
            final(self).descriptor_path@ == old(self).descriptor_path@,
            match old(self).step {
                BootUpStep::Enable => {
                    if spec_classify_subcommand_exit(exit_code as int) == ExitClass::Fatal {
                        &&& final(self).step is Done
                        &&& final(self).failure matches Some(e) && e matches Error::LaunchdError(m)
                            && m@ == spec_subcommand_msg(
                            seq!["enable"@, old(self).target@],
                            exit_code as int,
                            err@,
                        )
                    } else {
                        final(self).step is Bootstrap && final(self).failure == old(self).failure
                    }
                },
                BootUpStep::Bootstrap => {
                    if spec_classify_subcommand_exit(exit_code as int) == ExitClass::Fatal {
                        &&& final(self).step is Done
                        &&& final(self).failure matches Some(e) && e matches Error::LaunchdError(m)
                            && m@ == spec_subcommand_msg(
                            seq!["bootstrap"@, old(self).target@, old(self).descriptor_path@],
                            exit_code as int,
                            err@,
                        )
                    } else {
                        final(self).step is Done && final(self).failure == old(self).failure
                    }
                },
                BootUpStep::Done => false,
            },
    {
        match self.step {
            BootUpStep::Enable => {
                let args = self.pending_args().unwrap();
                match launchctl_subcommand(&args, exit_code, err) {
                    Ok(_) => {
                        self.step = BootUpStep::Bootstrap;
                    },
                    Err(Error::LaunchdServiceNotRunning(_)) => {
                        self.step = BootUpStep::Bootstrap;
                    },
                    Err(e) => {
                        self.step = BootUpStep::Done;
                        self.failure = Some(e);
                    },
                }
            },
            BootUpStep::Bootstrap => {
                let args = self.pending_args().unwrap();
                match launchctl_subcommand(&args, exit_code, err) {
                    Ok(_) => {
                        self.step = BootUpStep::Done;
                    },
                    Err(Error::LaunchdServiceNotRunning(_)) => {
                        self.step = BootUpStep::Done;
                    },
                    Err(e) => {
                        self.step = BootUpStep::Done;
                        self.failure = Some(e);
                    },
                }
            },
            BootUpStep::Done => {
            },
        }
    }

    /// The finished flow as a `(target, failure)` result row.
    pub fn into_result(self) -> (r: (String, Option<Error>))
        ensures
            r.0@ == self.target@,
            r.1 == self.failure,
    {
        (self.target, self.failure)
    }
}

// ---------------------------------------------------------------------------
// Batch accounting
// ---------------------------------------------------------------------------

/// The accumulated result of a batch: the targets that succeeded and
/// the targets that failed, each with its error, in batch order.
pub struct ActionOutcome {
    pub successes: Vec<String>,
    pub errors: Vec<(String, Error)>,
}

/// The targets of the result rows without a failure, in order.
pub open spec fn spec_success_targets(rs: Seq<(Seq<char>, Option<Error>)>) -> Seq<Seq<char>>
    decreases rs.len(),
{
    if rs.len() == 0 {
        Seq::empty()
    } else {
        spec_success_targets(rs.drop_last()) + (if rs.last().1 is None {
            seq![rs.last().0]
        } else {
            Seq::empty()
        })
    }
}

/// The `(target, error)` pairs of the result rows with a failure, in
/// order.
pub open spec fn spec_error_entries(rs: Seq<(Seq<char>, Option<Error>)>) -> Seq<(Seq<char>, Error)>
    decreases rs.len(),
{
    if rs.len() == 0 {
        Seq::empty()
    } else {
        spec_error_entries(rs.drop_last()) + (match rs.last().1 {
            Some(e) => seq![(rs.last().0, e)],
            None => Seq::empty(),
        })
    }
}

/// Every result row lands in exactly one of the two lists: a batch
/// loses no target to another target's failure.
pub proof fn lemma_outcome_partition(rs: Seq<(Seq<char>, Option<Error>)>)
    ensures
        spec_success_targets(rs).len() + spec_error_entries(rs).len() == rs.len(),
    decreases rs.len(),
{
    if rs.len() > 0 {
        lemma_outcome_partition(rs.drop_last());
    }
}

/// The views of result rows.
pub open spec fn result_views(rs: Seq<(String, Option<Error>)>) -> Seq<(Seq<char>, Option<Error>)> {
    rs.map_values(|t: (String, Option<Error>)| (t.0@, t.1))
}

/// Folds per-target results into the batch outcome. Every target lands
/// in exactly one of the two lists, in batch order: one target's fatal
/// error never aborts the batch or drops another target.
pub fn collect_outcomes(results: Vec<(String, Option<Error>)>) -> (r: ActionOutcome)
    ensures
        r.successes@.map_values(|s: String| s@) == spec_success_targets(result_views(results@)),
        r.errors@.map_values(|t: (String, Error)| (t.0@, t.1)) == spec_error_entries(
            result_views(results@),
        ),
        r.successes@.len() + r.errors@.len() == results@.len(),
{
    let ghost rv = result_views(results@);
    let mut successes: Vec<String> = Vec::new();
    let mut errors: Vec<(String, Error)> = Vec::new();
    let n = results.len();
    let mut rem = results;
    let mut i: usize = 0;
    while i < n
        invariant
            i <= n,
            rv.len() == n,
            i + rem@.len() == n,
            result_views(rem@) =~= rv.subrange(i as int, n as int),
            successes@.map_values(|s: String| s@) =~= spec_success_targets(
                rv.subrange(0, i as int),
            ),
            errors@.map_values(|t: (String, Error)| (t.0@, t.1)) =~= spec_error_entries(
                rv.subrange(0, i as int),
            ),
            successes@.len() + errors@.len() == i,
        decreases n - i,
    {
        let ghost remv = result_views(rem@);
        let row = rem.remove(0);
        proof {
            assert(remv[0] == rv[i as int]);
            assert(result_views(rem@) =~= remv.subrange(1, remv.len() as int));
            assert(result_views(rem@) =~= rv.subrange(i as int + 1, n as int));
            assert(rv.subrange(0, i as int + 1).drop_last() =~= rv.subrange(0, i as int));
            assert(rv.subrange(0, i as int + 1).last() == rv[i as int]);
            assert(rv[i as int] == (row.0@, row.1));
        }
        match row.1 {
            None => {
                let ghost prev = successes@.map_values(|s: String| s@);
                successes.push(row.0);
                proof {
                    assert(successes@.map_values(|s: String| s@) =~= prev.push(rv[i as int].0));
                    assert(prev + seq![rv[i as int].0] =~= prev.push(rv[i as int].0));
                }
            },
            Some(e) => {
                let ghost ev = e;
                let ghost prev = errors@.map_values(|t: (String, Error)| (t.0@, t.1));
                errors.push((row.0, e));
                proof {
                    assert(rv[i as int].1 == Some(ev));
                    assert(errors@.map_values(|t: (String, Error)| (t.0@, t.1)) =~= prev.push(
                        (rv[i as int].0, ev),
                    ));
                    assert(prev + seq![(rv[i as int].0, ev)] =~= prev.push((rv[i as int].0, ev)));
                }
            },
        }
        i = i + 1;
    }
    proof {
        assert(rv.subrange(0, rv.len() as int) =~= rv);
    }
    ActionOutcome { successes, errors }
}

} // verus!
