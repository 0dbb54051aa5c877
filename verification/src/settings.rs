//! Settings values: the deletion plan of the preference tool and the
//! switches of the service-manager sweep. Loading them from disk
//! happens outside the library.

use vstd::prelude::*;
use vstd::string::StringExecFns;

verus! {

/// The preference entries a cleanup pass deletes: whole domains, and
/// individual key paths.
pub struct CDBSettingsDelete {
    pub domains: Vec<String>,
    pub keys: Vec<Vec<String>>,
}

impl Default for CDBSettingsDelete {
    /// An empty plan.
    fn default() -> (r: CDBSettingsDelete)
        ensures
            r.domains@.len() == 0,
            r.keys@.len() == 0,
    {
        CDBSettingsDelete { domains: Vec::new(), keys: Vec::new() }
    }
}

/// The argument lists a deletion plan expands to: one `delete <domain>`
/// per domain, then one `delete <key path>` per key path, in plan
/// order.
pub open spec fn spec_delete_args(domains: Seq<Seq<char>>, keys: Seq<Seq<Seq<char>>>) -> Seq<
    Seq<Seq<char>>,
> {
    domains.map_values(|d: Seq<char>| seq!["delete"@] + seq![d]) + keys.map_values(
        |k: Seq<Seq<char>>| seq!["delete"@] + k,
    )
}

/// The views of a list of argument lists.
pub open spec fn args_views(a: Seq<Vec<String>>) -> Seq<Seq<Seq<char>>> {
    a.map_values(|x: Vec<String>| x@.map_values(|s: String| s@))
}

impl CDBSettingsDelete {
    /// Expands the plan into the preference tool's argument lists.
    pub fn defaults_exec_args(&self) -> (r: Vec<Vec<String>>)
        ensures
            args_views(r@) == spec_delete_args(
                self.domains@.map_values(|s: String| s@),
                args_views(self.keys@),
            ),
    {
        let ghost dv = self.domains@.map_values(|s: String| s@);
        let ghost kv = args_views(self.keys@);
        let mut out: Vec<Vec<String>> = Vec::new();
        let mut i: usize = 0;
        while i < self.domains.len()
            invariant
                i <= self.domains@.len(),
                dv == self.domains@.map_values(|s: String| s@),
                dv.len() == self.domains@.len(),
                args_views(out@) =~= dv.subrange(0, i as int).map_values(
                    |d: Seq<char>| seq!["delete"@] + seq![d],
                ),
            decreases self.domains@.len() - i,
        {
            let mut args: Vec<String> = Vec::new();
            args.push(String::from_str("delete"));
            args.push(self.domains[i].clone());
            let ghost av = args@.map_values(|s: String| s@);
            let ghost prev = args_views(out@);
            out.push(args);
            proof {
                assert(av =~= seq!["delete"@] + seq![dv[i as int]]);
                assert(args_views(out@) =~= prev.push(av));
                assert(dv.subrange(0, i as int + 1).map_values(
                    |d: Seq<char>| seq!["delete"@] + seq![d],
                ) =~= dv.subrange(0, i as int).map_values(
                    |d: Seq<char>| seq!["delete"@] + seq![d],
                ).push(seq!["delete"@] + seq![dv[i as int]]));
            }
            i = i + 1;
        }
        proof {
            assert(dv.subrange(0, dv.len() as int) =~= dv);
        }
        let mut j: usize = 0;
        while j < self.keys.len()
            invariant
                j <= self.keys@.len(),
                dv == self.domains@.map_values(|s: String| s@),
                kv == args_views(self.keys@),
                kv.len() == self.keys@.len(),
                args_views(out@) =~= dv.map_values(|d: Seq<char>| seq!["delete"@] + seq![d])
                    + kv.subrange(0, j as int).map_values(|k: Seq<Seq<char>>| seq!["delete"@] + k),
            decreases self.keys@.len() - j,
        {
            let key = &self.keys[j];
            let mut args: Vec<String> = Vec::new();
            args.push(String::from_str("delete"));
            let mut t: usize = 0;
            while t < key.len()
                invariant
                    t <= key@.len(),
                    kv[j as int] == key@.map_values(|s: String| s@),
                    j < self.keys@.len(),
                    kv.len() == self.keys@.len(),
                    args@.map_values(|s: String| s@) =~= seq!["delete"@] + key@.map_values(
                        |s: String| s@,
                    ).subrange(0, t as int),
                decreases key@.len() - t,
            {
                let ghost prev = args@.map_values(|s: String| s@);
                args.push(key[t].clone());
                proof {
                    assert(args@.map_values(|s: String| s@) =~= prev.push(key@[t as int]@));
                    assert(key@.map_values(|s: String| s@).subrange(0, t as int + 1)
                        =~= key@.map_values(|s: String| s@).subrange(0, t as int).push(
                        key@[t as int]@,
                    ));
                }
                t = t + 1;
            }
            proof {
                assert(key@.map_values(|s: String| s@).subrange(0, key@.len() as int)
                    =~= key@.map_values(|s: String| s@));
            }
            let ghost av = args@.map_values(|s: String| s@);
            let ghost prev = args_views(out@);
            out.push(args);
            proof {
                assert(av =~= seq!["delete"@] + kv[j as int]);
                assert(args_views(out@) =~= prev.push(av));
                assert(kv.subrange(0, j as int + 1).map_values(
                    |k: Seq<Seq<char>>| seq!["delete"@] + k,
                ) =~= kv.subrange(0, j as int).map_values(
                    |k: Seq<Seq<char>>| seq!["delete"@] + k,
                ).push(seq!["delete"@] + kv[j as int]));
            }
            j = j + 1;
        }
        proof {
            assert(kv.subrange(0, kv.len() as int) =~= kv);
        }
        out
    }
}

/// The preference-tool settings: the deletion plan.
pub struct CDBSettings {
    pub delete: CDBSettingsDelete,
}

impl Default for CDBSettings {
    /// An empty plan.
    fn default() -> (r: CDBSettings)
        ensures
            r.delete.domains@.len() == 0,
            r.delete.keys@.len() == 0,
    {
        CDBSettings { delete: CDBSettingsDelete { domains: Vec::new(), keys: Vec::new() } }
    }
}

impl CDBSettings {
    /// Expands the settings' deletion plan into argument lists.
    pub fn defaults_exec_args(&self) -> (r: Vec<Vec<String>>)
        ensures
            args_views(r@) == spec_delete_args(
                self.delete.domains@.map_values(|s: String| s@),
                args_views(self.delete.keys@),
            ),
    {
        self.delete.defaults_exec_args()
    }
}

/// The switches of the service-manager sweep.
#[derive(Clone, Copy, Debug, PartialEq, Eq, Structural)]
pub struct ADMSettings {
    pub display_warnings: bool,
    pub include_non_needed: bool,
    pub include_system_uids: bool,
}

impl Default for ADMSettings {
    /// Warnings shown, the built-in catalog taken in, and every local
    /// account swept.
    fn default() -> (r: ADMSettings)
        ensures
            r.display_warnings,
            r.include_non_needed,
            r.include_system_uids,
    {
        ADMSettings { display_warnings: true, include_non_needed: true, include_system_uids: true }
    }
}

} // verus!
