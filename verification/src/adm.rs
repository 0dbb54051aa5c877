//! Discovery of declared services: the well-known descriptor
//! directories, the label a descriptor file declares, and the assembly
//! of the declared-service listing.
//!
//! Reading files from disk happens outside the library; discovery here
//! works on paths and raw descriptor bytes handed in as plain values.

use vstd::prelude::*;
use vstd::string::StrSliceExecFns;
use vstd::string::StringExecFns;

use crate::domain::Uid;
use crate::errors::Error;
use crate::strutil::CharClass;
use crate::strutil::dec_rep;
use crate::strutil::has_prefix;
use crate::strutil::has_suffix;
use crate::strutil::is_prefix_of;
use crate::strutil::is_suffix_of;
use crate::strutil::u64_to_string;

verus! {

// ---------------------------------------------------------------------------
// Descriptor parsing
// ---------------------------------------------------------------------------

/// What a descriptor file's bytes yield: not valid property-list data,
/// a valid dictionary without a string `Label`, or the declared label.
pub enum DescriptorRead {
    Invalid,
    NoLabel,
    Label(String),
}

/// The label that property-list decoding extracts from a descriptor's
/// bytes: `None` when the bytes are not a property-list dictionary,
/// `Some(None)` when they are one without a string `Label` entry, and
/// `Some(Some(l))` for the declared label `l`. The result is a function
/// of the bytes alone.
pub uninterp spec fn descriptor_label_of(bytes: Seq<u8>) -> Option<Option<Seq<char>>>;

/// Relies on plist's `from_bytes` for `Dictionary`: decodes a
/// property-list dictionary from bytes — XML or binary — and on
/// `Dictionary::get`, which looks up the `Label` entry; both are pure
/// functions of the bytes.
#[verifier::external_body]
fn parse_descriptor(bytes: &Vec<u8>) -> (r: DescriptorRead)
    ensures
        match r {
            DescriptorRead::Invalid => descriptor_label_of(bytes@) is None,
            DescriptorRead::NoLabel => descriptor_label_of(bytes@) == Some(None::<Seq<char>>),
            DescriptorRead::Label(l) => descriptor_label_of(bytes@) == Some(Some(l@)),
        },
{
    match plist::from_bytes::<plist::Dictionary>(bytes) {
        Err(_) => DescriptorRead::Invalid,
        Ok(dict) => match dict.get("Label") {
            Some(plist::Value::String(l)) => DescriptorRead::Label(l.clone()),
            _ => DescriptorRead::NoLabel,
        },
    }
}

// ---------------------------------------------------------------------------
// Paths and labels
// ---------------------------------------------------------------------------

/// The last index strictly before `i` whose character is `c`.
pub open spec fn spec_rfind(l: Seq<char>, c: char, i: int) -> Option<int>
    decreases i,
{
    if i <= 0 {
        None
    } else if l[i - 1] == c {
        Some(i - 1)
    } else {
        spec_rfind(l, c, i - 1)
    }
}

/// Finds the last occurrence of `c` in `s`.
fn rfind_char(s: &str, c: char) -> (r: Option<usize>)
    ensures
        match r {
            Some(j) => spec_rfind(s@, c, s@.len() as int) == Some(j as int) && j < s@.len(),
            None => spec_rfind(s@, c, s@.len() as int) is None,
        },
{
    let n = s.unicode_len();
    let mut i: usize = n;
    while i > 0
        invariant
            i <= n,
            n as int == s@.len(),
            spec_rfind(s@, c, n as int) == spec_rfind(s@, c, i as int),
        decreases i,
    {
        if s.get_char(i - 1) == c {
            return Some(i - 1);
        }
        i = i - 1;
    }
    None
}

/// The file's base name without its extension: the part after the last
/// slash, with everything from its last dot on removed — unless that dot
/// leads the name.
pub open spec fn spec_fallback_label(path: Seq<char>) -> Seq<char> {
    let start = match spec_rfind(path, '/', path.len() as int) {
        Some(k) => k + 1,
        None => 0,
    };
    let stem_end = match spec_rfind(path, '.', path.len() as int) {
        Some(j) => if j > start {
            j
        } else {
            path.len() as int
        },
        None => path.len() as int,
    };
    path.subrange(start, stem_end)
}

/// The fallback label for a descriptor without a declared one: its base
/// name without the extension.
pub fn fallback_label(path: &str) -> (r: String)
    ensures
        r@ == spec_fallback_label(path@),
{
    let n = s_len(path);
    let start: usize = match rfind_char(path, '/') {
        Some(k) => k + 1,
        None => 0,
    };
    let stem_end: usize = match rfind_char(path, '.') {
        Some(j) => if j > start {
            j
        } else {
            n
        },
        None => n,
    };
    proof {
        lemma_rfind_bounds(path@, '/', path@.len() as int);
    }
    path.substring_char(start, stem_end).to_owned()
}

/// The length of a string slice in characters.
fn s_len(s: &str) -> (n: usize)
    ensures
        n as int == s@.len(),
{
    s.unicode_len()
}

/// A found index lies in range.
proof fn lemma_rfind_bounds(l: Seq<char>, c: char, i: int)
    requires
        i <= l.len(),
    ensures
        match spec_rfind(l, c, i) {
            Some(j) => 0 <= j < i,
            None => true,
        },
    decreases i,
{
    if i > 0 && l[i - 1] != c {
        lemma_rfind_bounds(l, c, i - 1);
    }
}

/// The scope prefix a descriptor's location implies: the system scope
/// for vendored descriptors, the user's session scope otherwise.
pub open spec fn spec_descriptor_prefix(path: Seq<char>, uid: Uid) -> Seq<char> {
    if is_prefix_of("/System"@, path) {
        "system"@
    } else {
        "gui/"@ + dec_rep(uid.0 as nat)
    }
}

/// Renders the scope prefix a descriptor's location implies.
pub fn descriptor_prefix(path: &str, uid: &Uid) -> (r: String)
    ensures
        r@ == spec_descriptor_prefix(path@, *uid),
{
    if has_prefix(path, "/System") {
        String::from_str("system")
    } else {
        let mut s = String::from_str("gui/");
        let num = u64_to_string(uid.0);
        s.append(num.as_str());
        s
    }
}

/// Whether a directory entry is a descriptor file by its name.
pub fn is_plist_path(path: &str) -> (r: bool)
    ensures
        r == is_suffix_of(".plist"@, path@),
{
    has_suffix(path, ".plist")
}

/// The descriptor directories a discovery pass walks, in order: the
/// user's own, the machine-local, and the vendored agents and daemons
/// directories, each pair only when its flag asks for it.
pub fn list_agents_and_daemons_paths(user: bool, library: bool, system: bool) -> (r: Vec<String>)
    ensures
        r@.map_values(|s: String| s@) == (if user {
            seq!["~/Library/LaunchAgents"@, "~/Library/LaunchDaemons"@]
        } else {
            Seq::empty()
        }) + (if library {
            seq!["/Library/LaunchAgents"@, "/Library/LaunchDaemons"@]
        } else {
            Seq::empty()
        }) + (if system {
            seq!["/System/Library/LaunchAgents"@, "/System/Library/LaunchDaemons"@]
        } else {
            Seq::empty()
        }),
{
    let mut out: Vec<String> = Vec::new();
    if user {
        out.push(String::from_str("~/Library/LaunchAgents"));
        out.push(String::from_str("~/Library/LaunchDaemons"));
    }
    if library {
        out.push(String::from_str("/Library/LaunchAgents"));
        out.push(String::from_str("/Library/LaunchDaemons"));
    }
    if system {
        out.push(String::from_str("/System/Library/LaunchAgents"));
        out.push(String::from_str("/System/Library/LaunchDaemons"));
    }
    proof {
        assert(out@.map_values(|s: String| s@) =~= (if user {
            seq!["~/Library/LaunchAgents"@, "~/Library/LaunchDaemons"@]
        } else {
            Seq::<Seq<char>>::empty()
        }) + (if library {
            seq!["/Library/LaunchAgents"@, "/Library/LaunchDaemons"@]
        } else {
            Seq::<Seq<char>>::empty()
        }) + (if system {
            seq!["/System/Library/LaunchAgents"@, "/System/Library/LaunchDaemons"@]
        } else {
            Seq::<Seq<char>>::empty()
        }));
    }
    out
}

/// Reads a descriptor's declared label from its bytes, falling back to
/// the file's base name when the dictionary has no usable label, and
/// failing only when the bytes are not property-list data at all.
pub fn determine_agent_or_daemon_label(path: &str, bytes: &Vec<u8>) -> (r: Result<String, Error>)
    ensures
        match r {
            Ok(label) => match descriptor_label_of(bytes@) {
                Some(Some(l)) => label@ == l,
                Some(None) => label@ == spec_fallback_label(path@),
                None => false,
            },
            Err(e) => {
                &&& descriptor_label_of(bytes@) is None
                &&& e matches Error::PlistError(m) && m@ == "invalid property list data in "@
                    + path@
            },
        },
{
    match parse_descriptor(bytes) {
        DescriptorRead::Label(l) => Ok(l),
        DescriptorRead::NoLabel => Ok(fallback_label(path)),
        DescriptorRead::Invalid => {
            let mut m = String::from_str("invalid property list data in ");
            m.append(path);
            Err(Error::PlistError(m))
        },
    }
}

// ---------------------------------------------------------------------------
// Assembly of the listing
// ---------------------------------------------------------------------------

/// The label an entry effectively yields: absent when the file was
/// unreadable or its bytes are not property-list data, the declared or
/// fallback label otherwise.
pub open spec fn spec_entry_label(
    path: Seq<char>,
    bytes: Option<Seq<u8>>,
) -> Option<Seq<char>> {
    match bytes {
        None => None,
        Some(b) => match descriptor_label_of(b) {
            None => None,
            Some(None) => Some(spec_fallback_label(path)),
            Some(Some(l)) => Some(l),
        },
    }
}

/// The assembled listing, one name per readable entry in order: the
/// entry's label, qualified with its scope prefix when asked for.
/// Unreadable or undecodable entries contribute nothing.
pub open spec fn spec_assembled(
    entries: Seq<(Seq<char>, Option<Seq<u8>>)>,
    uid: Uid,
    qualified: bool,
) -> Seq<Seq<char>>
    decreases entries.len(),
{
    if entries.len() == 0 {
        Seq::empty()
    } else {
        let rest = spec_assembled(entries.drop_last(), uid, qualified);
        let e = entries.last();
        match spec_entry_label(e.0, e.1) {
            None => rest,
            Some(label) => rest + seq![
                if qualified {
                    spec_descriptor_prefix(e.0, uid) + "/"@ + label
                } else {
                    label
                },
            ],
        }
    }
}

/// How many entries of the list are readable property-list data.
pub open spec fn spec_readable_count(entries: Seq<(Seq<char>, Option<Seq<u8>>)>) -> int
    decreases entries.len(),
{
    if entries.len() == 0 {
        0int
    } else {
        spec_readable_count(entries.drop_last()) + (match spec_entry_label(
            entries.last().0,
            entries.last().1,
        ) {
            None => 0int,
            Some(_) => 1int,
        })
    }
}

/// Discovery is resilient: a descriptor that is unreadable or not valid
/// property-list data is skipped, and every other descriptor still
/// yields exactly one entry of the listing.
pub proof fn lemma_discovery_resilience(
    entries: Seq<(Seq<char>, Option<Seq<u8>>)>,
    uid: Uid,
    qualified: bool,
)
    ensures
        spec_assembled(entries, uid, qualified).len() == spec_readable_count(entries),
    decreases entries.len(),
{
    if entries.len() > 0 {
        lemma_discovery_resilience(entries.drop_last(), uid, qualified);
    }
}

/// The views of raw discovery entries.
pub open spec fn entry_views(entries: Seq<(String, Option<Vec<u8>>)>) -> Seq<
    (Seq<char>, Option<Seq<u8>>),
> {
    entries.map_values(
        |e: (String, Option<Vec<u8>>)|
            (
                e.0@,
                match e.1 {
                    None => None::<Seq<u8>>,
                    Some(b) => Some(b@),
                },
            ),
    )
}

/// Assembles the declared-service listing from raw discovery entries,
/// each a descriptor path and the file's bytes — absent when the file
/// could not be read. A corrupt or unreadable descriptor is skipped;
/// the scan of the remaining entries goes on.
pub fn list_agents_and_daemons(
    uid: Option<Uid>,
    with_qualifier: bool,
    entries: &Vec<(String, Option<Vec<u8>>)>,
) -> (r: Vec<String>)
    ensures
        r@.map_values(|s: String| s@) == spec_assembled(
            entry_views(entries@),
            match uid {
                Some(u) => u,
                None => Uid(501u64),
            },
            with_qualifier,
        ),
{
    let u: Uid = match uid {
        Some(u) => u,
        None => Uid::default(),
    };
    let ghost ev = entry_views(entries@);
    let mut out: Vec<String> = Vec::new();
    let mut i: usize = 0;
    while i < entries.len()
        invariant
            i <= entries@.len(),
            ev == entry_views(entries@),
            ev.len() == entries@.len(),
            u == (match uid {
                Some(w) => w,
                None => Uid(501u64),
            }),
            out@.map_values(|s: String| s@) =~= spec_assembled(
                ev.subrange(0, i as int),
                u,
                with_qualifier,
            ),
        decreases entries@.len() - i,
    {
        let entry = &entries[i];
        proof {
            assert(ev.subrange(0, i as int + 1).drop_last() =~= ev.subrange(0, i as int));
            assert(ev.subrange(0, i as int + 1).last() == ev[i as int]);
            assert(ev[i as int].0 == entry.0@);
        }
        match &entry.1 {
            None => {
                proof {
                    assert(ev[i as int].1 is None);
                }
            },
            Some(bytes) => {
                proof {
                    assert(ev[i as int].1 == Some(bytes@));
                }
                match parse_descriptor(bytes) {
                    DescriptorRead::Invalid => {
                    },
                    read => {
                        let label: String = match read {
                            DescriptorRead::Label(l) => l,
                            _ => fallback_label(entry.0.as_str()),
                        };
                        let named: String = if with_qualifier {
                            let mut q = descriptor_prefix(entry.0.as_str(), &u);
                            q.append("/");
                            q.append(label.as_str());
                            q
                        } else {
                            label
                        };
                        let ghost nv = named@;
                        let ghost prev = out@.map_values(|s: String| s@);
                        out.push(named);
                        proof {
                            assert(out@.map_values(|s: String| s@) =~= prev.push(nv));
                            assert(prev + seq![nv] =~= prev.push(nv));
                        }
                    },
                }
            },
        }
        i = i + 1;
    }
    proof {
        assert(ev.subrange(0, ev.len() as int) =~= ev);
    }
    out
}

} // verus!
