//! The service-print parser: the two line grammars of the service
//! manager's "print domain" output, and the section walker that turns a
//! whole capture into records.

use vstd::prelude::*;
use vstd::string::StrSliceExecFns;
use vstd::string::StringExecFns;

use crate::errors::Error;
use crate::strutil::CharClass;
use crate::strutil::class_holds;
use crate::strutil::dec_rep;
use crate::strutil::dec_rep_int;
use crate::strutil::dec_value;
use crate::strutil::lemma_dec_rep_value;
use crate::strutil::lemma_lines_of_join;
use crate::strutil::lemma_parse_i64_of_rep;
use crate::strutil::lemma_scan_end_determined;
use crate::strutil::rtrim_end;
use crate::strutil::spec_join_nl;
use crate::strutil::lemma_scan_end;
use crate::strutil::matches_at;
use crate::strutil::parse_i64_token;
use crate::strutil::parse_pid_digits;
use crate::strutil::scan_end;
use crate::strutil::scan_while;
use crate::strutil::spec_lines;
use crate::strutil::spec_matches_at;
use crate::strutil::spec_parse_i64;
use crate::strutil::spec_pid_value;
use crate::strutil::split_lines;
use crate::strutil::str_eq;
use crate::strutil::trim_copy;
use crate::strutil::trimmed;

verus! {

// ---------------------------------------------------------------------------
// The active-service line grammar
// ---------------------------------------------------------------------------

/// The end of the status token starting at `c`: a parenthesized word, or
/// a nonempty run of digits and dashes.
pub open spec fn spec_status_end(l: Seq<char>, c: int) -> Option<int> {
    if 0 <= c < l.len() && l[c] == '(' {
        let w = scan_end(l, c + 1, CharClass::WordChar);
        if w > c + 1 && w < l.len() && l[w] == ')' {
            Some(w + 1)
        } else {
            None
        }
    } else {
        let d = scan_end(l, c, CharClass::StatusChar);
        if d == c {
            None
        } else {
            Some(d)
        }
    }
}

/// Splits one line of the `services` section into its three tokens:
/// leading whitespace, a run of digits (the pid), whitespace, a status
/// token, whitespace, and a run of non-whitespace characters (the
/// service identifier). Anything after the identifier is ignored.
pub open spec fn spec_service_line(l: Seq<char>) -> Option<(Seq<char>, Seq<char>, Seq<char>)> {
    let a = scan_end(l, 0, CharClass::Ws);
    let b = scan_end(l, a, CharClass::Digit);
    if b == a {
        None
    } else {
        let c = scan_end(l, b, CharClass::Ws);
        if c == b {
            None
        } else {
            match spec_status_end(l, c) {
                None => None,
                Some(d) => {
                    let e = scan_end(l, d, CharClass::Ws);
                    if e == d {
                        None
                    } else {
                        let f = scan_end(l, e, CharClass::NonWs);
                        if f == e {
                            None
                        } else {
                            Some((l.subrange(a, b), l.subrange(c, d), l.subrange(e, f)))
                        }
                    }
                },
            }
        }
    }
}

/// The record of a service line: the pid value (zero when it does not
/// fit), the status value when the token is numeric, and the service
/// identifier.
pub open spec fn spec_service_record(l: Seq<char>) -> Option<(int, Option<int>, Seq<char>)> {
    match spec_service_line(l) {
        None => None,
        Some((pid_s, status_s, svc)) => Some(
            (spec_pid_value(pid_s), spec_parse_i64(status_s), svc),
        ),
    }
}

/// The view of an optional machine integer.
pub open spec fn opt_view(o: Option<i64>) -> Option<int> {
    match o {
        Some(v) => Some(v as int),
        None => None,
    }
}

/// The view of an optional owned string.
pub open spec fn opt_str_view(o: Option<String>) -> Option<Seq<char>> {
    match o {
        Some(s) => Some(s@),
        None => None,
    }
}

/// Builds the parse error for a service line that does not match the
/// grammar.
fn service_parse_error(line: &str) -> (e: Error)
    ensures
        e matches Error::ParseError(m) && m@ == "service info not found in "@ + line@,
{
    let mut m = String::from_str("service info not found in ");
    m.append(line);
    Error::ParseError(m)
}

/// Parses one line of the `services` section into `(pid, status,
/// service)`, or reports a parse error carrying the line.
pub fn extract_service_info_opt(line: &str) -> (r: Result<(i64, Option<i64>, String), Error>)
    ensures
        match r {
            Ok((pid, status, svc)) => spec_service_record(line@) == Some(
                (pid as int, opt_view(status), svc@),
            ),
            Err(e) => {
                &&& spec_service_record(line@) is None
                &&& e matches Error::ParseError(m) && m@ == "service info not found in "@ + line@
            },
        },
{
    let n = line.unicode_len();
    let a = scan_while(line, 0, CharClass::Ws);
    proof {
        lemma_scan_end(line@, 0, CharClass::Ws);
    }
    let b = scan_while(line, a, CharClass::Digit);
    proof {
        lemma_scan_end(line@, a as int, CharClass::Digit);
    }
    if b == a {
        return Err(service_parse_error(line));
    }
    let c = scan_while(line, b, CharClass::Ws);
    proof {
        lemma_scan_end(line@, b as int, CharClass::Ws);
    }
    if c == b {
        return Err(service_parse_error(line));
    }
    let d: usize;
    if c < n && line.get_char(c) == '(' {
        let w = scan_while(line, c + 1, CharClass::WordChar);
        proof {
            lemma_scan_end(line@, c as int + 1, CharClass::WordChar);
        }
        if w > c + 1 && w < n && line.get_char(w) == ')' {
            d = w + 1;
        } else {
            return Err(service_parse_error(line));
        }
    } else {
        let d0 = scan_while(line, c, CharClass::StatusChar);
        proof {
            lemma_scan_end(line@, c as int, CharClass::StatusChar);
        }
        if d0 == c {
            return Err(service_parse_error(line));
        }
        d = d0;
    }
    let e = scan_while(line, d, CharClass::Ws);
    proof {
        lemma_scan_end(line@, d as int, CharClass::Ws);
    }
    if e == d {
        return Err(service_parse_error(line));
    }
    let f = scan_while(line, e, CharClass::NonWs);
    proof {
        lemma_scan_end(line@, e as int, CharClass::NonWs);
    }
    if f == e {
        return Err(service_parse_error(line));
    }
    let pid = parse_pid_digits(line, a, b);
    let status = parse_i64_token(line, c, d);
    let svc = line.substring_char(e, f).to_owned();
    Ok((pid, status, svc))
}

/// Parses one service line and keeps only the service identifier.
pub fn extract_service_name(line: &str) -> (r: Result<String, Error>)
    ensures
        match r {
            Ok(svc) => spec_service_record(line@) matches Some((p, st, sv)) && sv == svc@,
            Err(e) => {
                &&& spec_service_record(line@) is None
                &&& e matches Error::ParseError(m) && m@ == "service info not found in "@ + line@
            },
        },
{
    match extract_service_info_opt(line) {
        Ok((_, _, svc)) => Ok(svc),
        Err(e) => Err(e),
    }
}

// ---------------------------------------------------------------------------
// The disabled-service line grammar
// ---------------------------------------------------------------------------

/// The first occurrence of `disabled` or `enabled` at or after index `k`:
/// `false` for `disabled`, `true` for `enabled`.
pub open spec fn spec_first_keyword(l: Seq<char>, k: int) -> Option<bool>
    decreases l.len() - k,
{
    if k < 0 || k > l.len() {
        None
    } else if spec_matches_at(l, k, "disabled"@) {
        Some(false)
    } else if spec_matches_at(l, k, "enabled"@) {
        Some(true)
    } else if k >= l.len() {
        None
    } else {
        spec_first_keyword(l, k + 1)
    }
}

/// Splits one line of the `disabled services` section: at least one
/// whitespace character, a double-quoted nonempty service identifier,
/// and, anywhere later on the line, the word `disabled` or `enabled` —
/// the earlier occurrence decides the flag, `true` for `enabled`.
pub open spec fn spec_disabled_line(l: Seq<char>) -> Option<(Seq<char>, bool)> {
    let a = scan_end(l, 0, CharClass::Ws);
    if a < 1 || a >= l.len() || l[a] != '"' {
        None
    } else {
        let b = scan_end(l, a + 1, CharClass::NotQuote);
        if b == a + 1 || b >= l.len() {
            None
        } else {
            match spec_first_keyword(l, b + 1) {
                None => None,
                Some(en) => Some((l.subrange(a + 1, b), en)),
            }
        }
    }
}

/// Parses one line of the `disabled services` section into the service
/// identifier and its enabled flag.
pub fn extract_disabled_service_info(line: &str) -> (r: Option<(String, bool)>)
    ensures
        match r {
            Some((svc, en)) => spec_disabled_line(line@) == Some((svc@, en)),
            None => spec_disabled_line(line@) is None,
        },
{
    proof {
        reveal_strlit("disabled");
        reveal_strlit("enabled");
    }
    let n = line.unicode_len();
    let a = scan_while(line, 0, CharClass::Ws);
    proof {
        lemma_scan_end(line@, 0, CharClass::Ws);
    }
    if a < 1 || a >= n {
        return None;
    }
    if line.get_char(a) != '"' {
        return None;
    }
    let b = scan_while(line, a + 1, CharClass::NotQuote);
    proof {
        lemma_scan_end(line@, a as int + 1, CharClass::NotQuote);
    }
    if b == a + 1 || b >= n {
        return None;
    }
    let svc = line.substring_char(a + 1, b).to_owned();
    let mut k = b + 1;
    loop
        invariant
            b + 1 <= k <= n,
            n as int == line@.len(),
            b as int + 1 <= line@.len(),
            svc@ == line@.subrange(a as int + 1, b as int),
            spec_disabled_line(line@) == (match spec_first_keyword(line@, k as int) {
                None => None::<(Seq<char>, bool)>,
                Some(en) => Some((line@.subrange(a as int + 1, b as int), en)),
            }),
            "disabled"@.len() == 8,
            "enabled"@.len() == 7,
        decreases n - k,
    {
        if matches_at(line, k, "disabled") {
            return Some((svc, false));
        }
        if matches_at(line, k, "enabled") {
            return Some((svc, true));
        }
        if k >= n {
            return None;
        }
        k = k + 1;
    }
}

// ---------------------------------------------------------------------------
// The section walker
// ---------------------------------------------------------------------------

/// Whether a line, after leading whitespace, opens the requested section.
pub open spec fn spec_section_header(l: Seq<char>, disabled: bool) -> bool {
    spec_matches_at(
        l,
        scan_end(l, 0, CharClass::Ws),
        if disabled {
            "disabled services = "@
        } else {
            "services = "@
        },
    )
}

/// The index of the first section-header line at or after `i`.
pub open spec fn spec_find_header(lines: Seq<Seq<char>>, i: int, disabled: bool) -> Option<int>
    decreases lines.len() - i,
{
    if i < 0 || i >= lines.len() {
        None
    } else if spec_section_header(lines[i], disabled) {
        Some(i)
    } else {
        spec_find_header(lines, i + 1, disabled)
    }
}

/// The records of the content lines from `i` on, up to the closing brace
/// line; a line matching neither grammar fails the parse and is carried
/// in the error.
pub open spec fn spec_parse_lines(lines: Seq<Seq<char>>, i: int, disabled: bool) -> Result<
    Seq<(int, Option<int>, Seq<char>, bool)>,
    Seq<char>,
>
    decreases lines.len() - i,
{
    if i < 0 || i >= lines.len() {
        Ok(Seq::empty())
    } else if trimmed(lines[i]) == "}"@ {
        Ok(Seq::empty())
    } else if disabled {
        match spec_disabled_line(lines[i]) {
            None => Err(lines[i]),
            Some((svc, en)) => match spec_parse_lines(lines, i + 1, disabled) {
                Err(l) => Err(l),
                Ok(rest) => Ok(seq![(0int, None::<int>, svc, en)] + rest),
            },
        }
    } else {
        match spec_service_record(lines[i]) {
            None => Err(lines[i]),
            Some((pid, st, svc)) => match spec_parse_lines(lines, i + 1, disabled) {
                Err(l) => Err(l),
                Ok(rest) => Ok(seq![(pid, st, svc, true)] + rest),
            },
        }
    }
}

/// The parse of a whole print capture: records of the requested section,
/// an empty list when the section never opens, or the first line that
/// matches neither grammar.
pub open spec fn spec_parse_services(text: Seq<char>, disabled: bool) -> Result<
    Seq<(int, Option<int>, Seq<char>, bool)>,
    Seq<char>,
> {
    let lines = spec_lines(text);
    match spec_find_header(lines, 0, disabled) {
        None => Ok(Seq::empty()),
        Some(h) => spec_parse_lines(lines, h + 1, disabled),
    }
}

/// The views of a list of parsed records.
pub open spec fn record_views(rs: Seq<(i64, Option<i64>, String, bool)>) -> Seq<
    (int, Option<int>, Seq<char>, bool),
> {
    rs.map_values(|t: (i64, Option<i64>, String, bool)| (t.0 as int, opt_view(t.1), t.2@, t.3))
}

/// Whether a line, after leading whitespace, opens the requested section.
fn section_header_line(line: &str, disabled: bool) -> (r: bool)
    ensures
        r == spec_section_header(line@, disabled),
{
    let a = scan_while(line, 0, CharClass::Ws);
    if disabled {
        matches_at(line, a, "disabled services = ")
    } else {
        matches_at(line, a, "services = ")
    }
}

/// Whether a line is exactly a closing brace once trimmed.
fn closing_brace_line(line: &str) -> (r: bool)
    ensures
        r == (trimmed(line@) == "}"@),
{
    let t = trim_copy(line);
    str_eq(t.as_str(), "}")
}

/// Parses the requested section of a print capture into records of
/// `(pid, status, service, enabled)`.
///
/// In the `services` section each record carries the parsed pid and
/// status and `enabled == true`; in the `disabled services` section the
/// pid is zero, the status absent, and the flag is read from the line.
/// An absent section yields no records; a content line matching neither
/// grammar fails the whole call with a parse error naming the line.
pub fn parse_services(data: &str, disabled: bool) -> (r: Result<
    Vec<(i64, Option<i64>, String, bool)>,
    Error,
>)
    ensures
        match r {
            Ok(v) => spec_parse_services(data@, disabled) == Ok::<_, Seq<char>>(record_views(v@)),
            Err(e) => {
                &&& spec_parse_services(data@, disabled) matches Err(l)
                &&& e matches Error::ParseError(m) && m@ == (if disabled {
                    "disabled service name not found in "@
                } else {
                    "service info not found in "@
                }) + l
            },
        },
{
    let lines = split_lines(data);
    let ghost lv = spec_lines(data@);
    let n = lines.len();
    let mut i: usize = 0;
    while i < n && !section_header_line(lines[i].as_str(), disabled)
        invariant
            i <= n,
            n == lines@.len(),
            lines@.map_values(|x: String| x@) == lv,
            spec_find_header(lv, 0, disabled) == spec_find_header(lv, i as int, disabled),
        decreases n - i,
    {
        i = i + 1;
    }
    let mut out: Vec<(i64, Option<i64>, String, bool)> = Vec::new();
    if i >= n {
        proof {
            assert(spec_find_header(lv, i as int, disabled) is None);
            assert(record_views(out@) =~= Seq::<(int, Option<int>, Seq<char>, bool)>::empty());
        }
        return Ok(out);
    }
    proof {
        assert(spec_find_header(lv, i as int, disabled) == Some(i as int));
    }
    let ghost start = i as int + 1;
    i = i + 1;
    while i < n
        invariant_except_break
            start <= i <= n,
            n == lines@.len(),
            lines@.map_values(|x: String| x@) == lv,
            lv == spec_lines(data@),
            spec_find_header(lv, 0, disabled) == Some(start - 1),
            (spec_parse_lines(lv, i as int, disabled) matches Ok(rest) ==> spec_parse_lines(
                lv,
                start,
                disabled,
            ) == Ok::<_, Seq<char>>(record_views(out@) + rest)),
            (spec_parse_lines(lv, i as int, disabled) matches Err(l) ==> spec_parse_lines(
                lv,
                start,
                disabled,
            ) == Err::<Seq<(int, Option<int>, Seq<char>, bool)>, _>(l)),
        ensures
            spec_parse_lines(lv, start, disabled) == Ok::<_, Seq<char>>(record_views(out@)),
        decreases n - i,
    {
        let line = lines[i].as_str();
        if closing_brace_line(line) {
            proof {
                assert(spec_parse_lines(lv, i as int, disabled) == Ok::<_, Seq<char>>(
                    Seq::<(int, Option<int>, Seq<char>, bool)>::empty(),
                ));
                assert(record_views(out@) + Seq::<(int, Option<int>, Seq<char>, bool)>::empty()
                    =~= record_views(out@));
            }
            break ;
        }
        let rec: (i64, Option<i64>, String, bool);
        if disabled {
            match extract_disabled_service_info(line) {
                Some((svc, en)) => {
                    rec = (0, None, svc, en);
                },
                None => {
                    let mut m = String::from_str("disabled service name not found in ");
                    m.append(line);
                    return Err(Error::ParseError(m));
                },
            }
        } else {
            match extract_service_info_opt(line) {
                Ok((pid, status, svc)) => {
                    rec = (pid, status, svc, true);
                },
                Err(e) => {
                    return Err(e);
                },
            }
        }
        let ghost rv = (rec.0 as int, opt_view(rec.1), rec.2@, rec.3);
        let ghost prev = record_views(out@);
        out.push(rec);
        proof {
            assert(record_views(out@) =~= prev.push(rv));
            match spec_parse_lines(lv, i as int + 1, disabled) {
                Ok(rest) => {
                    assert(spec_parse_lines(lv, i as int, disabled) == Ok::<_, Seq<char>>(
                        seq![rv] + rest,
                    ));
                    assert(prev + (seq![rv] + rest) =~= record_views(out@) + rest);
                },
                Err(_) => {
                },
            }
        }
        i = i + 1;
    }
    proof {
        if i >= n {
            assert(spec_parse_lines(lv, i as int, disabled) == Ok::<_, Seq<char>>(
                Seq::<(int, Option<int>, Seq<char>, bool)>::empty(),
            ));
            assert(record_views(out@) + Seq::<(int, Option<int>, Seq<char>, bool)>::empty()
                =~= record_views(out@));
        }
    }
    Ok(out)
}

// ---------------------------------------------------------------------------
// The parser round trip
// ---------------------------------------------------------------------------

/// A synthetic service line: two spaces, the pid in decimal, two
/// spaces, the status in decimal, two spaces, the name.
pub open spec fn spec_service_line_text(pid: nat, status: int, name: Seq<char>) -> Seq<char> {
    seq![' ', ' '] + dec_rep(pid) + seq![' ', ' '] + dec_rep_int(status) + seq![' ', ' '] + name
}

/// A digit character is no whitespace, no parenthesis, and belongs to
/// the status-token class.
proof fn lemma_digit_char_facts(c: char)
    requires
        class_holds(CharClass::Digit, c),
    ensures
        !class_holds(CharClass::Ws, c),
        class_holds(CharClass::NonWs, c),
        class_holds(CharClass::StatusChar, c),
        c != '(',
        c != '\n',
        c != '\r',
{
    if c == ' ' {
        assert(c as u32 == 32);
    }
    if c == '\t' {
        assert(c as u32 == 9);
    }
    if c == '\n' {
        assert(c as u32 == 10);
    }
    if c == '\r' {
        assert(c as u32 == 13);
    }
    if c == '\u{b}' {
        assert(c as u32 == 11);
    }
    if c == '\u{c}' {
        assert(c as u32 == 12);
    }
    if c == '(' {
        assert(c as u32 == 40);
    }
}

/// The first character of a signed decimal rendering: a digit or the
/// minus sign, in the status-token class either way.
proof fn lemma_rep_int_head(v: int)
    requires
        i64::MIN <= v <= i64::MAX,
    ensures
        dec_rep_int(v).len() >= 1,
        class_holds(CharClass::StatusChar, dec_rep_int(v)[0]),
        !class_holds(CharClass::Ws, dec_rep_int(v)[0]),
        dec_rep_int(v)[0] != '(',
        forall|k: int|
            0 <= k < dec_rep_int(v).len() ==> class_holds(
                CharClass::StatusChar,
                #[trigger] dec_rep_int(v)[k],
            ) && !class_holds(CharClass::Ws, dec_rep_int(v)[k]) && dec_rep_int(v)[k] != '\n'
                && dec_rep_int(v)[k] != '\r',
{
    let t = dec_rep_int(v);
    if v >= 0 {
        lemma_dec_rep_value(v as nat);
        assert forall|k: int| 0 <= k < t.len() implies class_holds(
            CharClass::StatusChar,
            #[trigger] t[k],
        ) && !class_holds(CharClass::Ws, t[k]) && t[k] != '\n' && t[k] != '\r' by {
            assert(class_holds(CharClass::Digit, t[k]));
            lemma_digit_char_facts(t[k]);
        }
    } else {
        lemma_dec_rep_value((-v) as nat);
        assert(t == seq!['-'] + dec_rep((-v) as nat));
        assert(t[0] == '-');
        assert forall|k: int| 0 <= k < t.len() implies class_holds(
            CharClass::StatusChar,
            #[trigger] t[k],
        ) && !class_holds(CharClass::Ws, t[k]) && t[k] != '\n' && t[k] != '\r' by {
            if k == 0 {
                assert(('-') as u32 == 45);
            } else {
                assert(t[k] == dec_rep((-v) as nat)[k - 1]);
                assert(class_holds(CharClass::Digit, t[k]));
                lemma_digit_char_facts(t[k]);
            }
        }
        assert(('-') as u32 == 45);
    }
}

/// Parsing a synthetic service line yields exactly its pid, status and
/// name.
pub proof fn lemma_service_line_round_trip(pid: nat, status: int, name: Seq<char>)
    requires
        pid <= i64::MAX,
        i64::MIN <= status <= i64::MAX,
        name.len() > 0,
        forall|k: int| 0 <= k < name.len() ==> class_holds(CharClass::NonWs, #[trigger] name[k]),
    ensures
        spec_service_record(spec_service_line_text(pid, status, name)) == Some(
            (pid as int, Some(status), name),
        ),
{
    let t = spec_service_line_text(pid, status, name);
    lemma_dec_rep_value(pid);
    lemma_rep_int_head(status);
    let plen = dec_rep(pid).len() as int;
    let slen = dec_rep_int(status).len() as int;
    let pid_end = 2 + plen;
    let st_start = pid_end + 2;
    let st_end = st_start + slen;
    let name_start = st_end + 2;
    let tlen = name_start + name.len() as int;
    assert(t.len() == tlen);
    assert(t[0] == ' ' && t[1] == ' ');
    assert(forall|k: int| 2 <= k < pid_end ==> #[trigger] t[k] == dec_rep(pid)[k - 2]);
    assert(t[pid_end] == ' ' && t[pid_end + 1] == ' ');
    assert(forall|k: int|
        st_start <= k < st_end ==> #[trigger] t[k] == dec_rep_int(status)[k - st_start]);
    assert(t[st_end] == ' ' && t[st_end + 1] == ' ');
    assert(forall|k: int| name_start <= k < tlen ==> #[trigger] t[k] == name[k - name_start]);
    // leading whitespace ends where the pid digits start
    assert(class_holds(CharClass::Ws, ' '));
    assert(class_holds(CharClass::Digit, t[2])) by {
        assert(t[2] == dec_rep(pid)[0]);
    }
    lemma_digit_char_facts(t[2]);
    lemma_scan_end_determined(t, 0, 2, CharClass::Ws);
    // the digit run ends at the space after it
    assert forall|k: int| 2 <= k < pid_end implies class_holds(CharClass::Digit, #[trigger] t[k]) by {
        assert(t[k] == dec_rep(pid)[k - 2]);
    }
    assert(!class_holds(CharClass::Digit, t[pid_end])) by {
        assert((' ') as u32 == 32);
    }
    lemma_scan_end_determined(t, 2, pid_end, CharClass::Digit);
    // the whitespace after the pid ends where the status token starts
    assert(!class_holds(CharClass::Ws, t[st_start])) by {
        assert(t[st_start] == dec_rep_int(status)[0]);
    }
    lemma_scan_end_determined(t, pid_end, st_start, CharClass::Ws);
    // the status token ends at the space after it
    assert(t[st_start] != '(') by {
        assert(t[st_start] == dec_rep_int(status)[0]);
    }
    assert forall|k: int| st_start <= k < st_end implies class_holds(
        CharClass::StatusChar,
        #[trigger] t[k],
    ) by {
        assert(t[k] == dec_rep_int(status)[k - st_start]);
    }
    assert(!class_holds(CharClass::StatusChar, t[st_end])) by {
        assert((' ') as u32 == 32);
        assert((' ') != '-');
    }
    lemma_scan_end_determined(t, st_start, st_end, CharClass::StatusChar);
    assert(spec_status_end(t, st_start) == Some(st_end));
    // the whitespace after the status ends where the name starts
    assert(!class_holds(CharClass::Ws, t[name_start])) by {
        assert(t[name_start] == name[0]);
    }
    lemma_scan_end_determined(t, st_end, name_start, CharClass::Ws);
    // the name runs to the end of the line
    assert forall|k: int| name_start <= k < tlen implies class_holds(
        CharClass::NonWs,
        #[trigger] t[k],
    ) by {
        assert(t[k] == name[k - name_start]);
    }
    lemma_scan_end_determined(t, name_start, tlen, CharClass::NonWs);
    // the three tokens are the rendered pieces
    assert(t.subrange(2, pid_end) =~= dec_rep(pid));
    assert(t.subrange(st_start, st_end) =~= dec_rep_int(status));
    assert(t.subrange(name_start, tlen) =~= name);
    assert(spec_service_line(t) == Some(
        (dec_rep(pid), dec_rep_int(status), name),
    ));
    assert(spec_pid_value(dec_rep(pid)) == pid as int);
    lemma_parse_i64_of_rep(status);
}

/// A rendered service line holds no newline, does not end in a carriage
/// return, and is not the closing brace once trimmed.
proof fn lemma_rendered_line_shape(pid: nat, status: int, name: Seq<char>)
    requires
        pid <= i64::MAX,
        i64::MIN <= status <= i64::MAX,
        name.len() > 0,
        forall|k: int| 0 <= k < name.len() ==> class_holds(CharClass::NonWs, #[trigger] name[k]),
    ensures
        spec_service_line_text(pid, status, name).len() > 0,
        forall|k: int|
            0 <= k < spec_service_line_text(pid, status, name).len() ==> (
            #[trigger] spec_service_line_text(pid, status, name)[k]) != '\n',
        spec_service_line_text(pid, status, name).last() != '\r',
        trimmed(spec_service_line_text(pid, status, name)) != "}"@,
{
    let t = spec_service_line_text(pid, status, name);
    lemma_dec_rep_value(pid);
    lemma_rep_int_head(status);
    let plen = dec_rep(pid).len() as int;
    let slen = dec_rep_int(status).len() as int;
    let pid_end = 2 + plen;
    let st_start = pid_end + 2;
    let st_end = st_start + slen;
    let name_start = st_end + 2;
    let tlen = name_start + name.len() as int;
    assert(t.len() == tlen);
    assert forall|k: int| 0 <= k < t.len() implies (#[trigger] t[k]) != '\n' by {
        if k < 2 || k == pid_end || k == pid_end + 1 || k == st_end || k == st_end + 1 {
            assert(t[k] == ' ');
            assert((' ') as u32 == 32);
        } else if 2 <= k < pid_end {
            assert(t[k] == dec_rep(pid)[k - 2]);
            lemma_digit_char_facts(t[k]);
        } else if st_start <= k < st_end {
            assert(t[k] == dec_rep_int(status)[k - st_start]);
        } else {
            assert(t[k] == name[k - name_start]);
            assert(class_holds(CharClass::NonWs, t[k]));
        }
    }
    assert(t.last() == name.last());
    assert(class_holds(CharClass::NonWs, t.last()));
    // the trimmed line keeps everything from the pid on, so it is far
    // longer than a single brace
    assert(class_holds(CharClass::Ws, ' '));
    assert(class_holds(CharClass::Digit, t[2])) by {
        assert(t[2] == dec_rep(pid)[0]);
    }
    lemma_digit_char_facts(t[2]);
    lemma_scan_end_determined(t, 0, 2, CharClass::Ws);
    assert(rtrim_end(t, tlen) == tlen);
    assert(trimmed(t) =~= t.subrange(2, tlen));
    assert(trimmed(t).len() >= 7);
    reveal_strlit("}");
    assert("}"@.len() == 1);
}

/// The line list of a synthetic services block: the section header,
/// one rendered line per record, and the closing brace.
pub open spec fn spec_block_lines(recs: Seq<(nat, int, Seq<char>)>) -> Seq<Seq<char>> {
    seq!["services = {"@] + recs.map_values(
        |t: (nat, int, Seq<char>)| spec_service_line_text(t.0, t.1, t.2),
    ) + seq![seq!['}']]
}

/// The synthetic services block as one text, its lines joined with
/// newlines.
pub open spec fn spec_services_block(recs: Seq<(nat, int, Seq<char>)>) -> Seq<char> {
    spec_join_nl(spec_block_lines(recs))
}

/// Well-formedness of synthetic records: the pid fits, the status is a
/// machine integer, and the name is a nonempty run without whitespace.
pub open spec fn spec_block_wf(recs: Seq<(nat, int, Seq<char>)>) -> bool {
    forall|i: int|
        0 <= i < recs.len() ==> {
            &&& (#[trigger] recs[i]).0 <= i64::MAX
            &&& i64::MIN <= recs[i].1 <= i64::MAX
            &&& recs[i].2.len() > 0
            &&& forall|k: int|
                0 <= k < recs[i].2.len() ==> class_holds(
                    CharClass::NonWs,
                    #[trigger] recs[i].2[k],
                )
        }
}

/// The records a synthetic block should parse to: pid, status, name,
/// and the enabled flag, in input order.
pub open spec fn spec_block_records(recs: Seq<(nat, int, Seq<char>)>) -> Seq<
    (int, Option<int>, Seq<char>, bool),
> {
    recs.map_values(|t: (nat, int, Seq<char>)| (t.0 as int, Some(t.1 as int), t.2, true))
}

/// Walking the block's content lines from line `i` yields the records
/// from `i - 1` on.
proof fn lemma_parse_block_lines(recs: Seq<(nat, int, Seq<char>)>, i: int)
    requires
        spec_block_wf(recs),
        1 <= i <= recs.len() + 1,
    ensures
        spec_parse_lines(spec_block_lines(recs), i, false) == Ok::<_, Seq<char>>(
            spec_block_records(recs.skip(i - 1)),
        ),
    decreases recs.len() + 2 - i,
{
    let lines = spec_block_lines(recs);
    assert(lines.len() == recs.len() + 2);
    if i == recs.len() + 1 {
        let l = lines[i];
        assert(l == seq!['}']);
        assert(!class_holds(CharClass::Ws, '}')) by {
            assert(('}') as u32 == 125);
        }
        lemma_scan_end_determined(l, 0, 0, CharClass::Ws);
        assert(rtrim_end(l, 1) == 1);
        reveal_strlit("}");
        assert(trimmed(l) =~= "}"@);
        assert(spec_parse_lines(lines, i, false) == Ok::<_, Seq<char>>(
            Seq::<(int, Option<int>, Seq<char>, bool)>::empty(),
        ));
        assert(recs.skip(i - 1).len() == 0);
        assert(spec_block_records(recs.skip(i - 1)) =~= Seq::<
            (int, Option<int>, Seq<char>, bool),
        >::empty());
    } else {
        let rec = recs[i - 1];
        let l = lines[i];
        assert(l == spec_service_line_text(rec.0, rec.1, rec.2));
        lemma_rendered_line_shape(rec.0, rec.1, rec.2);
        lemma_service_line_round_trip(rec.0, rec.1, rec.2);
        lemma_parse_block_lines(recs, i + 1);
        assert(spec_parse_lines(lines, i, false) == Ok::<_, Seq<char>>(
            seq![(rec.0 as int, Some(rec.1 as int), rec.2, true)] + spec_block_records(
                recs.skip(i),
            ),
        ));
        assert(spec_block_records(recs.skip(i - 1)) =~= seq![
            (rec.0 as int, Some(rec.1 as int), rec.2, true),
        ] + spec_block_records(recs.skip(i))) by {
            assert(recs.skip(i - 1).len() == recs.len() - i + 1);
            assert(recs.skip(i - 1)[0] == rec);
            assert(forall|j: int|
                0 <= j < recs.skip(i).len() ==> #[trigger] recs.skip(i)[j] == recs.skip(i - 1)[j
                    + 1]);
        }
    }
}

/// The parser round trip: a synthetic `services` block built from any
/// well-formed records parses back to exactly those records — the same
/// pid, status and name, in input order.
pub proof fn lemma_parse_services_round_trip(recs: Seq<(nat, int, Seq<char>)>)
    requires
        spec_block_wf(recs),
    ensures
        spec_parse_services(spec_services_block(recs), false) == Ok::<_, Seq<char>>(
            spec_block_records(recs),
        ),
{
    let lines = spec_block_lines(recs);
    reveal_strlit("services = {");
    reveal_strlit("services = ");
    assert(lines.len() == recs.len() + 2);
    assert(lines.last() == seq!['}']);
    assert forall|i: int, k: int|
        0 <= i < lines.len() && 0 <= k < lines[i].len() implies (#[trigger] lines[i][k])
        != '\n' by {
        if i == 0 {
            assert(lines[i] == "services = {"@);
        } else if i <= recs.len() {
            let rec = recs[i - 1];
            assert(lines[i] == spec_service_line_text(rec.0, rec.1, rec.2));
            lemma_rendered_line_shape(rec.0, rec.1, rec.2);
        } else {
            assert(lines[i] == seq!['}']);
            assert(('}') as u32 == 125);
        }
    }
    assert forall|i: int|
        0 <= i < lines.len() && lines[i].len() > 0 implies (#[trigger] lines[i]).last()
        != '\r' by {
        if i == 0 {
            assert(lines[i] == "services = {"@);
            assert(lines[i].last() == '{');
            assert(('{') as u32 == 123);
        } else if i <= recs.len() {
            let rec = recs[i - 1];
            assert(lines[i] == spec_service_line_text(rec.0, rec.1, rec.2));
            lemma_rendered_line_shape(rec.0, rec.1, rec.2);
        } else {
            assert(lines[i] == seq!['}']);
            assert(('}') as u32 == 125);
        }
    }
    lemma_lines_of_join(lines);
    assert(spec_lines(spec_services_block(recs)) == lines);
    // the header stands on the first line
    let header = lines[0];
    assert(header == "services = {"@);
    assert(!class_holds(CharClass::Ws, header[0])) by {
        assert(header[0] == 's');
        assert(('s') as u32 == 115);
    }
    lemma_scan_end_determined(header, 0, 0, CharClass::Ws);
    assert(spec_matches_at(header, 0, "services = "@)) by {
        assert(header.subrange(0, "services = "@.len() as int) =~= "services = "@);
    }
    assert(spec_section_header(header, false));
    assert(spec_find_header(lines, 0, false) == Some(0int));
    lemma_parse_block_lines(recs, 1);
    assert(recs.skip(0) =~= recs);
}

} // verus!
