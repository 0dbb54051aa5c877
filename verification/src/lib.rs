//! Administration library for a macOS service manager: parsing of the
//! service-manager's "print domain" output, launchd domain addressing,
//! pattern matching of service names, and the idempotent turn-off /
//! boot-up action flows with per-target failure accounting.

use vstd::prelude::*;
use vstd::slice::slice_index_get;

mod adm;
mod coredata;
mod domain;
mod errors;
mod keychain;
mod md;
mod settings;
mod spctl;

pub use keychain::KeychainData;
pub use keychain::hex_digit;
pub use keychain::hex_seq;
pub use settings::ADMSettings;
pub use settings::CDBSettings;
pub use settings::CDBSettingsDelete;
pub use settings::args_views;
pub use settings::spec_delete_args;

pub use coredata::defaults;
pub use coredata::defaults_delete;
pub use coredata::list_domains;
pub use coredata::spec_defaults_error_msg;
pub use coredata::spec_home_user;
pub use coredata::spec_list_domains_msg;
pub use coredata::validate_domain_path_for_current_user;
pub use md::turn_off_mdutil;
pub use spctl::spctl_global_disable;

pub use adm::DescriptorRead;
pub use adm::descriptor_label_of;
pub use adm::descriptor_prefix;
pub use adm::determine_agent_or_daemon_label;
pub use adm::entry_views;
pub use adm::fallback_label;
pub use adm::is_plist_path;
pub use adm::lemma_discovery_resilience;
pub use adm::list_agents_and_daemons;
pub use adm::list_agents_and_daemons_paths;
pub use adm::spec_assembled;
pub use adm::spec_descriptor_prefix;
pub use adm::spec_entry_label;
pub use adm::spec_fallback_label;
pub use adm::spec_readable_count;
pub use adm::spec_rfind;
mod flow;
mod launchctl;

pub use flow::ActionOutcome;
pub use flow::BootUpFlow;
pub use flow::BootUpStep;
pub use flow::TurnOffFlow;
pub use flow::TurnOffStep;
pub use flow::collect_outcomes;
pub use flow::lemma_outcome_partition;
pub use flow::lemma_turn_off_idempotent;
pub use flow::result_views;
pub use flow::run_turn_off_flow;
pub use flow::spec_error_entries;
pub use flow::spec_success_targets;
pub use flow::spec_turn_off_outcome_ok;
mod matcher;
mod parser;
mod strutil;

pub use matcher::MatchKind;
pub use matcher::boot_up_views;
pub use matcher::full_views;
pub use matcher::match_kind;
pub use matcher::select_services_to_boot_up;
pub use matcher::select_services_to_turn_off;
pub use matcher::selected_views;
pub use matcher::service_matches;
pub use matcher::spec_match_kind;
pub use matcher::spec_matches_any;
pub use matcher::spec_name_matches;
pub use matcher::spec_selected;
pub use matcher::spec_selected_for_boot_up;
pub use launchctl::keyed_views;
pub use launchctl::list_active_agents_and_daemons_by_domain;
pub use launchctl::spec_keyed;
pub use launchctl::lemma_dedup_keyed_map;
pub use launchctl::lemma_index_of_key;
pub use launchctl::spec_dedup_keyed;
pub use launchctl::spec_has_key;
pub use launchctl::spec_index_of_key;
pub use launchctl::spec_last_value_for;
pub use launchctl::list_all_agents_and_daemons;
pub use launchctl::spec_declared_part;
pub use launchctl::spec_live_has;
pub use launchctl::spec_live_part;
pub use launchctl::spec_path_of;

pub use launchctl::ExitClass;
pub use launchctl::bootout_agent_or_daemon;
pub use launchctl::classify_exit;
pub use launchctl::classify_subcommand_exit;
pub use launchctl::disable_agent_or_daemon;
pub use launchctl::launchctl;
pub use launchctl::launchctl_act;
pub use launchctl::launchctl_print;
pub use launchctl::launchctl_subcommand;
pub use launchctl::list_active_agents_and_daemons;
pub use launchctl::live_views;
pub use launchctl::spec_classify_exit;
pub use launchctl::spec_classify_subcommand_exit;
pub use launchctl::spec_launchd_error_msg;
pub use launchctl::spec_live_records;
pub use launchctl::spec_not_running_msg;
pub use launchctl::spec_print_error_msg;
pub use launchctl::spec_subcommand_msg;
pub use launchctl::spec_target;

pub use parser::extract_disabled_service_info;
pub use parser::extract_service_info_opt;
pub use parser::extract_service_name;
pub use parser::opt_str_view;
pub use parser::opt_view;
pub use parser::parse_services;
pub use parser::record_views;
pub use parser::lemma_parse_services_round_trip;
pub use parser::lemma_service_line_round_trip;
pub use parser::spec_block_lines;
pub use parser::spec_block_records;
pub use parser::spec_block_wf;
pub use parser::spec_disabled_line;
pub use parser::spec_service_line_text;
pub use parser::spec_services_block;
pub use parser::spec_parse_services;
pub use parser::spec_service_line;
pub use parser::spec_service_record;

pub use domain::Domain;
pub use domain::Uid;
pub use domain::agent_or_daemon;
pub use domain::agent_or_daemon_prefix;
pub use domain::domains_to_probe;
pub use domain::spec_address;
pub use domain::spec_domains_to_probe;
pub use domain::spec_extra_domains;
pub use domain::spec_prefix;
pub use domain::spec_render;
pub use errors::Error;
pub use errors::spec_error_eq;
pub use errors::spec_message;
pub use errors::spec_variant_name;
pub use strutil::CharClass;
pub use strutil::class_holds;
pub use strutil::dec_rep;
pub use strutil::dec_rep_int;
pub use strutil::i64_to_string;
pub use strutil::is_prefix_of;
pub use strutil::is_substring_of;
pub use strutil::is_suffix_of;
pub use strutil::lex_le;
pub use strutil::spec_join_spaces;
pub use strutil::spec_lines;
pub use strutil::spec_parse_i64;
pub use strutil::spec_pid_value;
pub use strutil::spec_split_commas_trimmed;
pub use strutil::trimmed;
pub use strutil::u64_to_string;

use strutil::lemma_lex_antisym;
use strutil::lemma_lex_refl;
use strutil::lemma_lex_total;
use strutil::lemma_lex_trans;
use strutil::str_eq;
use strutil::str_lex_le;

verus! {

/// The views of a list of owned strings.
pub open spec fn name_views(rs: Seq<String>) -> Seq<Seq<char>> {
    rs.map_values(|s: String| s@)
}

/// Strictly ascending in lexicographic order, hence duplicate-free.
pub open spec fn strictly_sorted_names(vs: Seq<Seq<char>>) -> bool {
    forall|j1: int, j2: int|
        0 <= j1 < j2 < vs.len() ==> lex_le(#[trigger] vs[j1], #[trigger] vs[j2]) && vs[j1] != vs[j2]
}

/// Whether some element of `vs` equals `x`.
pub open spec fn name_in(vs: Seq<Seq<char>>, x: Seq<char>) -> bool {
    exists|j: int| 0 <= j < vs.len() && #[trigger] vs[j] == x
}

/// The views of a list of borrowed strings.
pub open spec fn input_views(l: Seq<&str>) -> Seq<Seq<char>> {
    l.map_values(|s: &str| s@)
}

/// Sorted deduplication of a list of names: the result holds exactly the
/// distinct strings of the input, in strictly increasing lexicographic
/// order.
pub fn no_doubles(list: &[&str]) -> (r: Vec<String>)
    ensures
        strictly_sorted_names(name_views(r@)),
        forall|i: int| 0 <= i < list@.len() ==> name_in(name_views(r@), #[trigger] list@[i]@),
        forall|j: int| 0 <= j < r@.len() ==> name_in(input_views(list@), #[trigger] r@[j]@),
{
    let mut out: Vec<String> = Vec::new();
    let mut i: usize = 0;
    while i < list.len()
        invariant
            i <= list@.len(),
            strictly_sorted_names(name_views(out@)),
            forall|k: int| 0 <= k < i ==> name_in(name_views(out@), #[trigger] list@[k]@),
            forall|j: int| 0 <= j < out@.len() ==> name_in(input_views(list@), #[trigger] out@[j]@),
        decreases list@.len() - i,
    {
        let x: &str = *slice_index_get(list, i);
        let ghost vs = name_views(out@);
        let mut p: usize = 0;
        while p < out.len() && !str_lex_le(x, out[p].as_str())
            invariant
                p <= out@.len(),
                vs == name_views(out@),
                x@ == list@[i as int]@,
                forall|k: int| 0 <= k < p ==> !lex_le(x@, #[trigger] vs[k]),
            decreases out@.len() - p,
        {
            p = p + 1;
        }
        let is_dup = if p < out.len() {
            str_eq(x, out[p].as_str())
        } else {
            false
        };
        if is_dup {
            proof {
                assert(vs[p as int] == x@);
                assert(name_in(name_views(out@), list@[i as int]@));
            }
        } else {
            proof {
                assert forall|k: int| 0 <= k < p implies lex_le(#[trigger] vs[k], x@) && vs[k]
                    != x@ by {
                    lemma_lex_total(x@, vs[k]);
                    if vs[k] == x@ {
                        lemma_lex_refl(x@);
                    }
                }
                assert forall|k: int| p <= k < vs.len() implies lex_le(x@, #[trigger] vs[k]) && x@
                    != vs[k] by {
                    assert(lex_le(x@, vs[p as int]));
                    if k > p {
                        assert(lex_le(vs[p as int], vs[k]) && vs[p as int] != vs[k]);
                        lemma_lex_trans(x@, vs[p as int], vs[k]);
                        if x@ == vs[k] {
                            lemma_lex_antisym(vs[p as int], vs[k]);
                        }
                    }
                }
            }
            let ghost oldvec = out@;
            let owned = x.to_owned();
            out.insert(p, owned);
            proof {
                oldvec.insert_ensures(p as int, out@[p as int]);
                let nvs = name_views(out@);
                assert(nvs.len() == vs.len() + 1);
                assert forall|j: int| 0 <= j < nvs.len() implies #[trigger] nvs[j] == (if j < p {
                    vs[j]
                } else if j == p {
                    x@
                } else {
                    vs[j - 1]
                }) by {
                    if j < p {
                        assert(out@[j] == oldvec[j]);
                    } else if j > p {
                        assert(out@[j] == oldvec[j - 1]);
                    }
                }
                assert forall|j1: int, j2: int| 0 <= j1 < j2 < nvs.len() implies lex_le(
                    #[trigger] nvs[j1],
                    #[trigger] nvs[j2],
                ) && nvs[j1] != nvs[j2] by {
                    if j1 < p && j2 < p {
                    } else if j1 < p && j2 == p {
                        assert(nvs[j1] == vs[j1] && nvs[j2] == x@);
                    } else if j1 == p && j2 > p {
                        assert(nvs[j1] == x@ && nvs[j2] == vs[j2 - 1]);
                    } else if j1 < p && j2 > p {
                        assert(nvs[j1] == vs[j1] && nvs[j2] == vs[j2 - 1]);
                    }
                }
                assert(strictly_sorted_names(nvs));
                assert forall|k: int| 0 <= k <= i implies name_in(
                    name_views(out@),
                    #[trigger] list@[k]@,
                ) by {
                    if k < i {
                        let j = choose|j: int| 0 <= j < vs.len() && vs[j] == list@[k]@;
                        if j < p {
                            assert(nvs[j] == list@[k]@);
                        } else {
                            assert(nvs[j + 1] == list@[k]@);
                        }
                    } else {
                        assert(nvs[p as int] == x@);
                    }
                }
                assert forall|j: int| 0 <= j < out@.len() implies name_in(
                    input_views(list@),
                    #[trigger] out@[j]@,
                ) by {
                    if j < p {
                        assert(out@[j]@ == oldvec[j]@);
                    } else if j == p {
                        assert(out@[j]@ == list@[i as int]@);
                        assert(input_views(list@)[i as int] == list@[i as int]@);
                    } else {
                        assert(out@[j]@ == oldvec[j - 1]@);
                    }
                }
            }
        }
        i = i + 1;
    }
    out
}

} // verus!
