//! The matcher: the three-way containment rule that decides which live
//! services a name-pattern set selects, and the selection of inventory
//! rows for the turn-off and boot-up flows.

use vstd::prelude::*;

use crate::launchctl::live_views;
use crate::strutil::contains_sub;
use crate::strutil::is_substring_of;
use crate::strutil::str_eq;

verus! {

/// Which branch of the containment rule matched.
#[derive(Clone, Copy, Debug, PartialEq, Eq, Structural)]
pub enum MatchKind {
    /// The live name equals the pattern.
    Exact,
    /// The live name contains the pattern as a substring.
    ServiceContainsPattern,
    /// The pattern contains the live name as a substring: a broader
    /// pattern than any actual service, worth a diagnostic.
    PatternContainsService,
}

/// The three-way containment rule: a pattern selects a live name when
/// either equals or contains the other.
pub open spec fn spec_name_matches(service: Seq<char>, pattern: Seq<char>) -> bool {
    service == pattern || is_substring_of(pattern, service) || is_substring_of(service, pattern)
}

/// The branch the rule decides by, in precedence order; `None` when the
/// pattern does not select the name.
pub open spec fn spec_match_kind(service: Seq<char>, pattern: Seq<char>) -> Option<MatchKind> {
    if service == pattern {
        Some(MatchKind::Exact)
    } else if is_substring_of(pattern, service) {
        Some(MatchKind::ServiceContainsPattern)
    } else if is_substring_of(service, pattern) {
        Some(MatchKind::PatternContainsService)
    } else {
        None
    }
}

/// Decides the containment rule for one live name and one pattern,
/// reporting which branch matched.
pub fn match_kind(service: &str, pattern: &str) -> (r: Option<MatchKind>)
    ensures
        r == spec_match_kind(service@, pattern@),
        r is Some <==> spec_name_matches(service@, pattern@),
{
    if str_eq(service, pattern) {
        Some(MatchKind::Exact)
    } else if contains_sub(service, pattern) {
        Some(MatchKind::ServiceContainsPattern)
    } else if contains_sub(pattern, service) {
        Some(MatchKind::PatternContainsService)
    } else {
        None
    }
}

/// Whether any pattern of the set selects the live name.
pub open spec fn spec_matches_any(service: Seq<char>, patterns: Seq<Seq<char>>) -> bool {
    exists|i: int| 0 <= i < patterns.len() && spec_name_matches(service, #[trigger] patterns[i])
}

/// Whether any pattern of the set selects the live name, by the
/// three-way containment rule.
pub fn service_matches(service: &str, patterns: &Vec<String>) -> (r: bool)
    ensures
        r == spec_matches_any(service@, patterns@.map_values(|p: String| p@)),
{
    let ghost pv = patterns@.map_values(|p: String| p@);
    let mut i: usize = 0;
    while i < patterns.len()
        invariant
            i <= patterns@.len(),
            pv == patterns@.map_values(|p: String| p@),
            forall|k: int| 0 <= k < i ==> !spec_name_matches(service@, #[trigger] pv[k]),
        decreases patterns@.len() - i,
    {
        if match_kind(service, patterns[i].as_str()).is_some() {
            proof {
                assert(spec_name_matches(service@, pv[i as int]));
            }
            return true;
        }
        i = i + 1;
    }
    false
}

/// The inventory rows a pattern set selects for the turn-off flow:
/// `(domain, service, pid)` of each matching row, in inventory order.
pub open spec fn spec_selected(
    inv: Seq<(Seq<char>, Seq<char>, int, Option<int>)>,
    pats: Seq<Seq<char>>,
) -> Seq<(Seq<char>, Seq<char>, int)>
    decreases inv.len(),
{
    if inv.len() == 0 {
        Seq::empty()
    } else {
        let rest = spec_selected(inv.drop_last(), pats);
        let t = inv.last();
        if spec_matches_any(t.1, pats) {
            rest + seq![(t.0, t.1, t.2)]
        } else {
            rest
        }
    }
}

/// The views of selected rows.
pub open spec fn selected_views(v: Seq<(String, String, i64)>) -> Seq<(Seq<char>, Seq<char>, int)> {
    v.map_values(|t: (String, String, i64)| (t.0@, t.1@, t.2 as int))
}

/// Filters the live inventory down to the rows whose service name some
/// pattern selects, keeping domain, service and pid.
pub fn select_services_to_turn_off(
    inventory: &Vec<(String, String, i64, Option<i64>)>,
    patterns: &Vec<String>,
) -> (r: Vec<(String, String, i64)>)
    ensures
        selected_views(r@) == spec_selected(
            live_views(inventory@),
            patterns@.map_values(|p: String| p@),
        ),
{
    let ghost iv = live_views(inventory@);
    let ghost pv = patterns@.map_values(|p: String| p@);
    let mut out: Vec<(String, String, i64)> = Vec::new();
    let mut i: usize = 0;
    while i < inventory.len()
        invariant
            i <= inventory@.len(),
            iv == live_views(inventory@),
            iv.len() == inventory@.len(),
            pv == patterns@.map_values(|p: String| p@),
            selected_views(out@) =~= spec_selected(iv.subrange(0, i as int), pv),
        decreases inventory@.len() - i,
    {
        let row = &inventory[i];
        proof {
            assert(iv.subrange(0, i as int + 1).drop_last() =~= iv.subrange(0, i as int));
            assert(iv.subrange(0, i as int + 1).last() == iv[i as int]);
            assert(iv[i as int].1 == row.1@);
        }
        if service_matches(row.1.as_str(), patterns) {
            let ghost prev = selected_views(out@);
            out.push((row.0.clone(), row.1.clone(), row.2));
            proof {
                assert(selected_views(out@) =~= prev.push(
                    (iv[i as int].0, iv[i as int].1, iv[i as int].2),
                ));
                assert(prev + seq![(iv[i as int].0, iv[i as int].1, iv[i as int].2)] =~= prev.push(
                    (iv[i as int].0, iv[i as int].1, iv[i as int].2),
                ));
            }
        }
        i = i + 1;
    }
    proof {
        assert(iv.subrange(0, iv.len() as int) =~= iv);
    }
    out
}

/// The views of a full inventory row that carries the enabled flag and
/// the descriptor path: `(domain, service, pid, status, enabled, path)`.
pub open spec fn full_views(v: Seq<(String, String, i64, Option<i64>, bool, Option<String>)>)
    -> Seq<(Seq<char>, Seq<char>, int, Option<int>, bool, Option<Seq<char>>)> {
    v.map_values(
        |t: (String, String, i64, Option<i64>, bool, Option<String>)|
            (t.0@, t.1@, t.2 as int, crate::opt_view(t.3), t.4, crate::opt_str_view(t.5)),
    )
}

/// The rows a pattern set selects for the boot-up flow: matching rows
/// that carry a descriptor path, as `(domain, service, pid, path)`.
/// Rows without a known descriptor are skipped: they cannot be
/// re-registered.
pub open spec fn spec_selected_for_boot_up(
    inv: Seq<(Seq<char>, Seq<char>, int, Option<int>, bool, Option<Seq<char>>)>,
    pats: Seq<Seq<char>>,
) -> Seq<(Seq<char>, Seq<char>, int, Seq<char>)>
    decreases inv.len(),
{
    if inv.len() == 0 {
        Seq::empty()
    } else {
        let rest = spec_selected_for_boot_up(inv.drop_last(), pats);
        let t = inv.last();
        match t.5 {
            None => rest,
            Some(path) => if spec_matches_any(t.1, pats) {
                rest + seq![(t.0, t.1, t.2, path)]
            } else {
                rest
            },
        }
    }
}

/// The views of boot-up selections.
pub open spec fn boot_up_views(v: Seq<(String, String, i64, String)>) -> Seq<
    (Seq<char>, Seq<char>, int, Seq<char>),
> {
    v.map_values(|t: (String, String, i64, String)| (t.0@, t.1@, t.2 as int, t.3@))
}

/// Filters the full inventory down to the rows the pattern set selects
/// for the boot-up flow, keeping only rows with a known descriptor path.
pub fn select_services_to_boot_up(
    inventory: &Vec<(String, String, i64, Option<i64>, bool, Option<String>)>,
    patterns: &Vec<String>,
) -> (r: Vec<(String, String, i64, String)>)
    ensures
        boot_up_views(r@) == spec_selected_for_boot_up(
            full_views(inventory@),
            patterns@.map_values(|p: String| p@),
        ),
{
    let ghost iv = full_views(inventory@);
    let ghost pv = patterns@.map_values(|p: String| p@);
    let mut out: Vec<(String, String, i64, String)> = Vec::new();
    let mut i: usize = 0;
    while i < inventory.len()
        invariant
            i <= inventory@.len(),
            iv == full_views(inventory@),
            iv.len() == inventory@.len(),
            pv == patterns@.map_values(|p: String| p@),
            boot_up_views(out@) =~= spec_selected_for_boot_up(iv.subrange(0, i as int), pv),
        decreases inventory@.len() - i,
    {
        let row = &inventory[i];
        proof {
            assert(iv.subrange(0, i as int + 1).drop_last() =~= iv.subrange(0, i as int));
            assert(iv.subrange(0, i as int + 1).last() == iv[i as int]);
            assert(iv[i as int].1 == row.1@);
        }
        match &row.5 {
            None => {
                proof {
                    assert(iv[i as int].5 is None);
                }
            },
            Some(path) => {
                proof {
                    assert(iv[i as int].5 == Some(path@));
                }
                if service_matches(row.1.as_str(), patterns) {
                    let ghost prev = boot_up_views(out@);
                    out.push((row.0.clone(), row.1.clone(), row.2, path.clone()));
                    proof {
                        assert(boot_up_views(out@) =~= prev.push(
                            (iv[i as int].0, iv[i as int].1, iv[i as int].2, path@),
                        ));
                        assert(prev + seq![(iv[i as int].0, iv[i as int].1, iv[i as int].2, path@)]
                            =~= prev.push((iv[i as int].0, iv[i as int].1, iv[i as int].2, path@)));
                    }
                }
            },
        }
        i = i + 1;
    }
    proof {
        assert(iv.subrange(0, iv.len() as int) =~= iv);
    }
    out
}

} // verus!
