//! Launchd domain addressing: user identifiers, the three addressable
//! scopes, and their canonical string renderings.

use vstd::prelude::*;
use vstd::string::StrSliceExecFns;
use vstd::string::StringExecFns;

use crate::strutil::dec_rep;
use crate::strutil::u64_to_string;

verus! {

/// A numeric user identifier; the default is the first human account.
#[derive(Clone, Copy, Debug, PartialEq, Eq, Structural)]
pub struct Uid(pub u64);

impl Default for Uid {
    /// The identifier of the first human account.
    fn default() -> (r: Uid)
        ensures
            r == Uid(501u64),
    {
        Uid(501)
    }
}

impl From<u64> for Uid {
    fn from(u: u64) -> (r: Uid) {
        Uid(u)
    }
}

impl vstd::std_specs::convert::FromSpecImpl<u64> for Uid {
    open spec fn obeys_from_spec() -> bool {
        true
    }

    open spec fn from_spec(u: u64) -> Uid {
        Uid(u)
    }
}

impl From<Option<u64>> for Uid {
    fn from(u: Option<u64>) -> (r: Uid) {
        match u {
            Some(u) => Uid(u),
            None => Uid(501),
        }
    }
}

impl vstd::std_specs::convert::FromSpecImpl<Option<u64>> for Uid {
    open spec fn obeys_from_spec() -> bool {
        true
    }

    open spec fn from_spec(u: Option<u64>) -> Uid {
        match u {
            Some(u) => Uid(u),
            None => Uid(501u64),
        }
    }
}

impl Uid {
    /// The numeric value.
    pub fn value(&self) -> (r: u64)
        ensures
            r == self.0,
    {
        self.0
    }
}

/// One addressable launchd scope: the whole system, a user's background
/// scope, or that user's graphical session scope.
#[derive(Clone, Copy, Debug, PartialEq, Eq, Structural)]
pub enum Domain {
    System,
    User(Uid),
    GuiSession(Uid),
}

/// The canonical string form of a scope given as an optional user
/// identifier and a session flag: `"system"`, `"user/<uid>"` or
/// `"gui/<uid>"`.
pub open spec fn spec_prefix(uid: Option<Uid>, gui: bool) -> Seq<char> {
    match uid {
        Option::Some(u) => (if gui {
            "gui/"@
        } else {
            "user/"@
        }) + dec_rep(u.0 as nat),
        Option::None => "system"@,
    }
}

/// The canonical string form of a domain.
pub open spec fn spec_render(d: Domain) -> Seq<char> {
    match d {
        Domain::System => "system"@,
        Domain::User(u) => "user/"@ + dec_rep(u.0 as nat),
        Domain::GuiSession(u) => "gui/"@ + dec_rep(u.0 as nat),
    }
}

/// The canonical address of a service within a domain:
/// `"<domain>/<service>"`.
pub open spec fn spec_address(d: Domain, service: Seq<char>) -> Seq<char> {
    spec_render(d) + "/"@ + service
}

/// Renders the addressing prefix for a scope: `"system"` when no user is
/// given, else `"user/<uid>"` or, for the graphical session, `"gui/<uid>"`.
pub fn agent_or_daemon_prefix(uid: Option<Uid>, gui: bool) -> (r: String)
    ensures
        r@ == spec_prefix(uid, gui),
{
    match uid {
        Option::Some(u) => {
            let mut s: String = if gui {
                String::from_str("gui/")
            } else {
                String::from_str("user/")
            };
            let num = u64_to_string(u.0);
            s.append(num.as_str());
            s
        },
        Option::None => String::from_str("system"),
    }
}

/// Renders the full address of a service: the scope prefix, a slash, and
/// the service identifier.
pub fn agent_or_daemon(ad: &str, uid: Option<Uid>, gui: bool) -> (r: String)
    ensures
        r@ == spec_prefix(uid, gui) + "/"@ + ad@,
{
    let mut s = agent_or_daemon_prefix(uid, gui);
    s.append("/");
    s.append(ad);
    s
}

impl Domain {
    /// The canonical string form of this domain.
    pub fn render(&self) -> (r: String)
        ensures
            r@ == spec_render(*self),
    {
        match self {
            Domain::System => agent_or_daemon_prefix(None, false),
            Domain::User(u) => agent_or_daemon_prefix(Some(*u), false),
            Domain::GuiSession(u) => agent_or_daemon_prefix(Some(*u), true),
        }
    }

    /// The canonical address of a service within this domain.
    pub fn address(&self, service: &str) -> (r: String)
        ensures
            r@ == spec_address(*self, service@),
    {
        agent_or_daemon(service, self.uid_part(), self.is_gui())
    }

    /// The user identifier this domain carries, if any.
    pub fn uid_part(&self) -> (r: Option<Uid>)
        ensures
            r == (match *self {
                Domain::System => Option::<Uid>::None,
                Domain::User(u) => Option::Some(u),
                Domain::GuiSession(u) => Option::Some(u),
            }),
    {
        match self {
            Domain::System => None,
            Domain::User(u) => Some(*u),
            Domain::GuiSession(u) => Some(*u),
        }
    }

    /// Whether this domain addresses a graphical session.
    pub fn is_gui(&self) -> (r: bool)
        ensures
            r == (self is GuiSession),
    {
        match self {
            Domain::GuiSession(_) => true,
            _ => false,
        }
    }
}

/// The domains a live-state query probes for one user: the system scope,
/// the user's background scope, the user's session scope, and, when
/// requested, both per-user scopes of every further listed account.
pub open spec fn spec_domains_to_probe(uid: Uid, extras: Seq<Uid>, widen: bool) -> Seq<Seq<char>> {
    let base = seq![
        spec_prefix(None, false),
        spec_prefix(Some(uid), false),
        spec_prefix(Some(uid), true),
    ];
    if widen {
        base + spec_extra_domains(extras)
    } else {
        base
    }
}

/// Both per-user scope prefixes of every listed account, in order.
pub open spec fn spec_extra_domains(extras: Seq<Uid>) -> Seq<Seq<char>>
    decreases extras.len(),
{
    if extras.len() == 0 {
        Seq::empty()
    } else {
        spec_extra_domains(extras.drop_last()) + seq![
            spec_prefix(Some(extras.last()), false),
            spec_prefix(Some(extras.last()), true),
        ]
    }
}

/// Builds the list of domain prefixes that a live-state query walks.
pub fn domains_to_probe(uid: &Uid, extras: &Vec<Uid>, widen: bool) -> (r: Vec<String>)
    ensures
        r@.map_values(|s: String| s@) == spec_domains_to_probe(*uid, extras@, widen),
{
    let mut out: Vec<String> = Vec::new();
    out.push(agent_or_daemon_prefix(None, false));
    out.push(agent_or_daemon_prefix(Some(*uid), false));
    out.push(agent_or_daemon_prefix(Some(*uid), true));
    proof {
        assert(out@.map_values(|s: String| s@) =~= seq![
            spec_prefix(None, false),
            spec_prefix(Some(*uid), false),
            spec_prefix(Some(*uid), true),
        ]);
    }
    if widen {
        let mut i: usize = 0;
        while i < extras.len()
            invariant
                i <= extras@.len(),
                out@.map_values(|s: String| s@) =~= seq![
                    spec_prefix(None, false),
                    spec_prefix(Some(*uid), false),
                    spec_prefix(Some(*uid), true),
                ] + spec_extra_domains(extras@.subrange(0, i as int)),
            decreases extras@.len() - i,
        {
            let u = extras[i];
            let ghost prev = out@.map_values(|s: String| s@);
            out.push(agent_or_daemon_prefix(Some(u), false));
            out.push(agent_or_daemon_prefix(Some(u), true));
            proof {
                let cur = extras@.subrange(0, i as int + 1);
                assert(cur.drop_last() =~= extras@.subrange(0, i as int));
                assert(cur.last() == extras@[i as int]);
                assert(out@.map_values(|s: String| s@) =~= prev + seq![
                    spec_prefix(Some(u), false),
                    spec_prefix(Some(u), true),
                ]);
            }
            i = i + 1;
        }
        proof {
            assert(extras@.subrange(0, extras@.len() as int) =~= extras@);
        }
    }
    out
}

} // verus!
