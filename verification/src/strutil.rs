//! Character-level string utilities: decimal rendering and parsing,
//! character classes, scanning, substring search and joining.
//!
//! All executable functions here are specified against `Seq<char>` views.

use vstd::prelude::*;
use vstd::string::StrSliceExecFns;
use vstd::string::StringExecFns;

verus! {

// ---------------------------------------------------------------------------
// Character classes and scanning
// ---------------------------------------------------------------------------

/// A class of characters that a scan can run over.
#[derive(Clone, Copy, PartialEq, Eq, Structural, Debug)]
pub enum CharClass {
    /// ASCII whitespace.
    Ws,
    /// A decimal digit.
    Digit,
    /// A decimal digit or a dash: the characters a numeric status token
    /// is made of.
    StatusChar,
    /// A letter, digit or underscore.
    WordChar,
    /// Anything but ASCII whitespace.
    NonWs,
    /// Anything but a double quote.
    NotQuote,
    /// Anything but a newline.
    NotNewline,
    /// Anything but a comma.
    NotComma,
    /// Anything but a forward slash.
    NotSlash,
}

/// Whether a character belongs to a class.
pub open spec fn class_holds(cc: CharClass, c: char) -> bool {
    match cc {
        CharClass::Ws => c == ' ' || c == '\t' || c == '\n' || c == '\r' || c == '\u{b}' || c
            == '\u{c}',
        CharClass::Digit => 48 <= c as u32 && c as u32 <= 57,
        CharClass::StatusChar => (48 <= c as u32 && c as u32 <= 57) || c == '-',
        CharClass::WordChar => (48 <= c as u32 && c as u32 <= 57) || (97 <= c as u32 && c as u32
            <= 122) || (65 <= c as u32 && c as u32 <= 90) || c == '_',
        CharClass::NonWs => !(c == ' ' || c == '\t' || c == '\n' || c == '\r' || c == '\u{b}' || c
            == '\u{c}'),
        CharClass::NotQuote => c != '"',
        CharClass::NotNewline => c != '\n',
        CharClass::NotComma => c != ',',
        CharClass::NotSlash => c != '/',
    }
}

/// Whether the character of `s` at `j` belongs to the class, `false` when
/// `j` is out of range.
pub fn class_at(s: &str, j: usize, cc: CharClass) -> (r: bool)
    ensures
        r == (j < s@.len() && class_holds(cc, s@[j as int])),
{
    let n = s.unicode_len();
    if j >= n {
        return false;
    }
    let c = s.get_char(j);
    let u = c as u32;
    match cc {
        CharClass::Ws => c == ' ' || c == '\t' || c == '\n' || c == '\r' || c == '\u{b}' || c
            == '\u{c}',
        CharClass::Digit => 48 <= u && u <= 57,
        CharClass::StatusChar => (48 <= u && u <= 57) || c == '-',
        CharClass::WordChar => (48 <= u && u <= 57) || (97 <= u && u <= 122) || (65 <= u && u <= 90)
            || c == '_',
        CharClass::NonWs => !(c == ' ' || c == '\t' || c == '\n' || c == '\r' || c == '\u{b}' || c
            == '\u{c}'),
        CharClass::NotQuote => c != '"',
        CharClass::NotNewline => c != '\n',
        CharClass::NotComma => c != ',',
        CharClass::NotSlash => c != '/',
    }
}

/// The first index at or after `i` whose character leaves the class
/// (`l.len()` when the class runs to the end).
pub open spec fn scan_end(l: Seq<char>, i: int, cc: CharClass) -> int
    decreases l.len() - i,
{
    if i < 0 || i >= l.len() {
        i
    } else if class_holds(cc, l[i]) {
        scan_end(l, i + 1, cc)
    } else {
        i
    }
}

/// The scan's result lies between `i` and the length, every character it
/// ran over belongs to the class, and the character it stopped on does not.
pub proof fn lemma_scan_end(l: Seq<char>, i: int, cc: CharClass)
    requires
        0 <= i <= l.len(),
    ensures
        i <= scan_end(l, i, cc) <= l.len(),
        forall|k: int| i <= k < scan_end(l, i, cc) ==> class_holds(cc, l[k]),
        scan_end(l, i, cc) < l.len() ==> !class_holds(cc, l[scan_end(l, i, cc)]),
    decreases l.len() - i,
{
    if i < l.len() && class_holds(cc, l[i]) {
        lemma_scan_end(l, i + 1, cc);
    }
}

/// Scans from `from` while characters belong to the class; returns where
/// the scan stopped.
pub fn scan_while(s: &str, from: usize, cc: CharClass) -> (j: usize)
    requires
        from as int <= s@.len(),
    ensures
        j == scan_end(s@, from as int, cc),
{
    let n = s.unicode_len();
    let mut j: usize = from;
    while class_at(s, j, cc)
        invariant
            from <= j,
            j as int <= s@.len(),
            n as int == s@.len(),
            scan_end(s@, from as int, cc) == scan_end(s@, j as int, cc),
        decreases s@.len() - j,
    {
        j = j + 1;
    }
    j
}

/// A scan's result is pinned down by a witness position: when every
/// character before `j` belongs to the class and the one at `j` — if
/// any — does not, the scan stops exactly at `j`.
pub proof fn lemma_scan_end_determined(l: Seq<char>, i: int, j: int, cc: CharClass)
    requires
        0 <= i <= j <= l.len(),
        forall|k: int| i <= k < j ==> class_holds(cc, l[k]),
        j < l.len() ==> !class_holds(cc, l[j]),
    ensures
        scan_end(l, i, cc) == j,
    decreases j - i,
{
    if i < j {
        lemma_scan_end_determined(l, i + 1, j, cc);
    }
}

/// Scanning a concatenation past the first part mirrors scanning the
/// second part alone.
pub proof fn lemma_scan_end_shift(l1: Seq<char>, l2: Seq<char>, i: int, cc: CharClass)
    requires
        0 <= i <= l2.len(),
    ensures
        scan_end(l1 + l2, l1.len() + i, cc) == l1.len() + scan_end(l2, i, cc),
    decreases l2.len() - i,
{
    if i < l2.len() {
        assert((l1 + l2)[l1.len() + i] == l2[i]);
        if class_holds(cc, l2[i]) {
            lemma_scan_end_shift(l1, l2, i + 1, cc);
        }
    }
}

// ---------------------------------------------------------------------------
// Trimming
// ---------------------------------------------------------------------------

/// The first index at or before `i` such that every character between it
/// and `i` is whitespace, scanning backwards.
pub open spec fn rtrim_end(l: Seq<char>, i: int) -> int
    decreases i,
{
    if i <= 0 {
        0
    } else if class_holds(CharClass::Ws, l[i - 1]) {
        rtrim_end(l, i - 1)
    } else {
        i
    }
}

/// The sequence with leading and trailing ASCII whitespace removed.
pub open spec fn trimmed(l: Seq<char>) -> Seq<char> {
    let a = scan_end(l, 0, CharClass::Ws);
    let b = rtrim_end(l, l.len() as int);
    if a < b {
        l.subrange(a, b)
    } else {
        Seq::empty()
    }
}

/// Whether the character before `b` exists and is whitespace.
fn ws_tail_at(s: &str, b: usize) -> (r: bool)
    requires
        b as int <= s@.len(),
    ensures
        r == (b > 0 && class_holds(CharClass::Ws, s@[b - 1])),
{
    if b == 0 {
        false
    } else {
        class_at(s, b - 1, CharClass::Ws)
    }
}

/// A copy of `s` with leading and trailing ASCII whitespace removed.
pub fn trim_copy(s: &str) -> (r: String)
    ensures
        r@ == trimmed(s@),
{
    let n = s.unicode_len();
    let a = scan_while(s, 0, CharClass::Ws);
    proof {
        lemma_scan_end(s@, 0, CharClass::Ws);
    }
    let mut b: usize = n;
    while ws_tail_at(s, b)
        invariant
            b as int <= s@.len(),
            rtrim_end(s@, s@.len() as int) == rtrim_end(s@, b as int),
        decreases b,
    {
        b = b - 1;
    }
    if a < b {
        let piece = s.substring_char(a, b);
        piece.to_owned()
    } else {
        String::new()
    }
}

// ---------------------------------------------------------------------------
// Equality, prefixes, suffixes, substrings
// ---------------------------------------------------------------------------

/// Character-for-character equality of two string slices.
pub fn str_eq(a: &str, b: &str) -> (r: bool)
    ensures
        r == (a@ == b@),
{
    let an = a.unicode_len();
    let bn = b.unicode_len();
    if an != bn {
        return false;
    }
    let mut i: usize = 0;
    while i < an
        invariant
            i <= an,
            an as int == a@.len(),
            b@.len() == a@.len(),
            forall|k: int| 0 <= k < i ==> a@[k] == b@[k],
        decreases an - i,
    {
        if a.get_char(i) != b.get_char(i) {
            return false;
        }
        i = i + 1;
    }
    proof {
        assert(a@ =~= b@);
    }
    true
}

/// Whether `w` occurs in `l` starting exactly at index `k`.
pub open spec fn spec_matches_at(l: Seq<char>, k: int, w: Seq<char>) -> bool {
    0 <= k && k + w.len() <= l.len() && l.subrange(k, k + w.len()) == w
}

/// Whether `w` occurs in `s` starting exactly at index `k`.
pub fn matches_at(s: &str, k: usize, w: &str) -> (r: bool)
    ensures
        r == spec_matches_at(s@, k as int, w@),
{
    let n = s.unicode_len();
    let m = w.unicode_len();
    if m > n || k > n - m {
        return false;
    }
    let mut i: usize = 0;
    while i < m
        invariant
            i <= m,
            k + m <= n,
            n as int == s@.len(),
            m as int == w@.len(),
            forall|t: int| 0 <= t < i ==> s@[k + t] == w@[t],
        decreases m - i,
    {
        if s.get_char(k + i) != w.get_char(i) {
            proof {
                if spec_matches_at(s@, k as int, w@) {
                    assert(s@.subrange(k as int, k + w@.len())[i as int] == w@[i as int]);
                }
            }
            return false;
        }
        i = i + 1;
    }
    proof {
        assert(s@.subrange(k as int, k + w@.len()) =~= w@);
    }
    true
}

/// Whether `p` is a prefix of `l`.
pub open spec fn is_prefix_of(p: Seq<char>, l: Seq<char>) -> bool {
    spec_matches_at(l, 0, p)
}

/// Whether `p` is a suffix of `l`.
pub open spec fn is_suffix_of(p: Seq<char>, l: Seq<char>) -> bool {
    p.len() <= l.len() && spec_matches_at(l, l.len() - p.len(), p)
}

/// Whether `needle` occurs anywhere in `hay` as a contiguous run.
pub open spec fn is_substring_of(needle: Seq<char>, hay: Seq<char>) -> bool {
    exists|k: int| spec_matches_at(hay, k, needle)
}

/// Whether `s` starts with `p`.
pub fn has_prefix(s: &str, p: &str) -> (r: bool)
    ensures
        r == is_prefix_of(p@, s@),
{
    matches_at(s, 0, p)
}

/// Whether `s` ends with `p`.
pub fn has_suffix(s: &str, p: &str) -> (r: bool)
    ensures
        r == is_suffix_of(p@, s@),
{
    let n = s.unicode_len();
    let m = p.unicode_len();
    if m > n {
        return false;
    }
    matches_at(s, n - m, p)
}

/// Substring search: whether `needle` occurs anywhere in `hay`.
pub fn contains_sub(hay: &str, needle: &str) -> (r: bool)
    ensures
        r == is_substring_of(needle@, hay@),
{
    let n = hay.unicode_len();
    let m = needle.unicode_len();
    if m > n {
        proof {
            assert(forall|k: int| !spec_matches_at(hay@, k, needle@));
        }
        return false;
    }
    if m == 0 {
        proof {
            assert(spec_matches_at(hay@, 0, needle@)) by {
                assert(hay@.subrange(0, 0) =~= needle@);
            }
        }
        return true;
    }
    let mut k: usize = 0;
    while k <= n - m
        invariant
            1 <= m <= n,
            n as int == hay@.len(),
            m as int == needle@.len(),
            k <= n - m + 1,
            forall|t: int| 0 <= t < k ==> !spec_matches_at(hay@, t, needle@),
        decreases n - m - k + 1,
    {
        if matches_at(hay, k, needle) {
            return true;
        }
        k = k + 1;
    }
    proof {
        assert(forall|t: int| spec_matches_at(hay@, t, needle@) ==> 0 <= t && t <= n - m);
    }
    false
}

// ---------------------------------------------------------------------------
// Decimal digits and decimal representations
// ---------------------------------------------------------------------------

/// The character for a single decimal digit value.
pub open spec fn dec_digit(d: nat) -> char {
    if d == 0 {
        '0'
    } else if d == 1 {
        '1'
    } else if d == 2 {
        '2'
    } else if d == 3 {
        '3'
    } else if d == 4 {
        '4'
    } else if d == 5 {
        '5'
    } else if d == 6 {
        '6'
    } else if d == 7 {
        '7'
    } else if d == 8 {
        '8'
    } else {
        '9'
    }
}

/// Decimal digit string of `n` without the special case for zero:
/// the empty sequence for zero, otherwise the usual digits.
pub open spec fn dec_aux(n: nat) -> Seq<char>
    decreases n,
{
    if n == 0 {
        Seq::empty()
    } else {
        dec_aux(n / 10) + seq![dec_digit(n % 10)]
    }
}

/// The decimal rendering of a natural number, `"0"` for zero.
pub open spec fn dec_rep(n: nat) -> Seq<char> {
    if n == 0 {
        seq!['0']
    } else {
        dec_aux(n)
    }
}

/// The decimal rendering of an integer, with a leading minus sign
/// when negative.
pub open spec fn dec_rep_int(v: int) -> Seq<char> {
    if v < 0 {
        seq!['-'] + dec_rep((-v) as nat)
    } else {
        dec_rep(v as nat)
    }
}

/// Characters of a least-significant-first digit list, most significant
/// character first.
pub open spec fn chars_of_digits_lsb(ds: Seq<u64>) -> Seq<char>
    decreases ds.len(),
{
    if ds.len() == 0 {
        Seq::empty()
    } else {
        chars_of_digits_lsb(ds.drop_first()) + seq![dec_digit(ds.first() as nat)]
    }
}

proof fn lemma_chars_of_digits_lsb_push(ds: Seq<u64>, d: u64)
    ensures
        chars_of_digits_lsb(ds.push(d)) =~= seq![dec_digit(d as nat)] + chars_of_digits_lsb(ds),
    decreases ds.len(),
{
    assert(ds.push(d).len() > 0);
    assert(ds.push(d).first() == if ds.len() == 0 {
        d
    } else {
        ds.first()
    });
    if ds.len() == 0 {
        assert(ds.push(d).drop_first() =~= Seq::<u64>::empty());
        assert(chars_of_digits_lsb(ds) =~= Seq::<char>::empty());
        assert(chars_of_digits_lsb(ds.push(d)) =~= chars_of_digits_lsb(Seq::<u64>::empty())
            + seq![dec_digit(d as nat)]);
    } else {
        assert(ds.push(d).drop_first() =~= ds.drop_first().push(d));
        lemma_chars_of_digits_lsb_push(ds.drop_first(), d);
        assert(chars_of_digits_lsb(ds.push(d)) =~= chars_of_digits_lsb(ds.drop_first().push(d))
            + seq![dec_digit(ds.first() as nat)]);
        assert(chars_of_digits_lsb(ds) =~= chars_of_digits_lsb(ds.drop_first()) + seq![
            dec_digit(ds.first() as nat),
        ]);
    }
}

/// Appends the character of one decimal digit value to a string.
fn push_digit(s: &mut String, d: u64)
    requires
        d < 10,
    ensures
        final(s)@ == old(s)@ + seq![dec_digit(d as nat)],
{
    if d == 0 {
        proof {
            reveal_strlit("0");
        }
        s.append("0");
    } else if d == 1 {
        proof {
            reveal_strlit("1");
        }
        s.append("1");
    } else if d == 2 {
        proof {
            reveal_strlit("2");
        }
        s.append("2");
    } else if d == 3 {
        proof {
            reveal_strlit("3");
        }
        s.append("3");
    } else if d == 4 {
        proof {
            reveal_strlit("4");
        }
        s.append("4");
    } else if d == 5 {
        proof {
            reveal_strlit("5");
        }
        s.append("5");
    } else if d == 6 {
        proof {
            reveal_strlit("6");
        }
        s.append("6");
    } else if d == 7 {
        proof {
            reveal_strlit("7");
        }
        s.append("7");
    } else if d == 8 {
        proof {
            reveal_strlit("8");
        }
        s.append("8");
    } else {
        proof {
            reveal_strlit("9");
        }
        s.append("9");
    }
    assert(s@ =~= old(s)@ + seq![dec_digit(d as nat)]);
}

/// The numeric value of a decimal digit character, zero for any other
/// character.
pub open spec fn digit_val(c: char) -> nat {
    if class_holds(CharClass::Digit, c) {
        (c as int - 48) as nat
    } else {
        0
    }
}

/// The value of a string of decimal digits.
pub open spec fn dec_value(ds: Seq<char>) -> nat
    decreases ds.len(),
{
    if ds.len() == 0 {
        0
    } else {
        dec_value(ds.drop_last()) * 10 + digit_val(ds.last())
    }
}

/// Reading back the decimal representation of a number gives the number.
pub proof fn lemma_dec_value_of_aux(n: nat)
    ensures
        dec_value(dec_aux(n)) == n,
    decreases n,
{
    if n > 0 {
        lemma_dec_value_of_aux(n / 10);
        assert(dec_aux(n) == dec_aux(n / 10) + seq![dec_digit(n % 10)]);
        assert(dec_aux(n).drop_last() =~= dec_aux(n / 10));
        assert(dec_aux(n).last() == dec_digit(n % 10));
        assert(digit_val(dec_digit(n % 10)) == n % 10);
    }
}

/// A decimal representation consists of digits, and is nonempty for a
/// positive number.
pub proof fn lemma_dec_aux_digits(n: nat)
    ensures
        forall|i: int|
            0 <= i < dec_aux(n).len() ==> class_holds(CharClass::Digit, dec_aux(n)[i]),
        n > 0 ==> dec_aux(n).len() >= 1,
    decreases n,
{
    if n > 0 {
        lemma_dec_aux_digits(n / 10);
        assert(dec_aux(n) == dec_aux(n / 10) + seq![dec_digit(n % 10)]);
        assert(class_holds(CharClass::Digit, dec_digit(n % 10)));
    }
}

/// Appending one digit multiplies the value by ten and adds the digit.
pub proof fn lemma_dec_value_step(l: Seq<char>, a: int, b: int)
    requires
        0 <= a <= b,
        b + 1 <= l.len(),
    ensures
        dec_value(l.subrange(a, b + 1)) == dec_value(l.subrange(a, b)) * 10 + digit_val(l[b]),
{
    assert(l.subrange(a, b + 1).drop_last() =~= l.subrange(a, b));
    assert(l.subrange(a, b + 1).last() == l[b]);
}

/// The value of a digit string never shrinks as the string grows.
pub proof fn lemma_dec_value_mono(l: Seq<char>, a: int, j: int, k: int)
    requires
        0 <= a <= j <= k <= l.len(),
    ensures
        dec_value(l.subrange(a, j)) <= dec_value(l.subrange(a, k)),
    decreases k - j,
{
    if j < k {
        lemma_dec_value_mono(l, a, j, k - 1);
        lemma_dec_value_step(l, a, k - 1);
    }
}

/// Whether every character of `ds` is a decimal digit.
pub open spec fn all_digits(ds: Seq<char>) -> bool {
    forall|i: int| 0 <= i < ds.len() ==> class_holds(CharClass::Digit, ds[i])
}

/// The value of an all-digit process-id token: the decimal value when it
/// fits a signed 64-bit integer, zero otherwise.
pub open spec fn spec_pid_value(ds: Seq<char>) -> int {
    if dec_value(ds) <= i64::MAX {
        dec_value(ds) as int
    } else {
        0
    }
}

/// Reads the all-digit run `s[from..to]` as a process id, falling back to
/// zero when the value does not fit.
pub fn parse_pid_digits(s: &str, from: usize, to: usize) -> (r: i64)
    requires
        from <= to,
        to as int <= s@.len(),
        forall|k: int| from <= k < to ==> class_holds(CharClass::Digit, s@[k]),
    ensures
        r as int == spec_pid_value(s@.subrange(from as int, to as int)),
{
    let mut acc: i64 = 0;
    let mut i: usize = from;
    proof {
        assert(s@.subrange(from as int, from as int) =~= Seq::<char>::empty());
    }
    while i < to
        invariant
            from <= i <= to,
            to as int <= s@.len(),
            forall|k: int| from <= k < to ==> class_holds(CharClass::Digit, s@[k]),
            0 <= acc,
            acc as int == dec_value(s@.subrange(from as int, i as int)),
        decreases to - i,
    {
        let c = s.get_char(i);
        let d: i64 = (c as u32 - 48) as i64;
        proof {
            assert(class_holds(CharClass::Digit, s@[i as int]));
            assert(d as nat == digit_val(s@[i as int]));
            lemma_dec_value_step(s@, from as int, i as int);
        }
        if acc > (i64::MAX - d) / 10 {
            proof {
                lemma_dec_value_mono(s@, from as int, i as int + 1, to as int);
            }
            return 0;
        }
        acc = acc * 10 + d;
        i = i + 1;
    }
    acc
}

/// The value `i64` decimal parsing gives a token: an optional sign, then
/// at least one digit, the value in range; anything else fails.
pub open spec fn spec_parse_i64(t: Seq<char>) -> Option<int> {
    if t.len() == 0 {
        None
    } else {
        let neg = t[0] == '-';
        let signed = t[0] == '-' || t[0] == '+';
        let ds = if signed {
            t.drop_first()
        } else {
            t
        };
        if ds.len() == 0 || !all_digits(ds) {
            None
        } else {
            let v = if neg {
                -(dec_value(ds) as int)
            } else {
                dec_value(ds) as int
            };
            if i64::MIN <= v <= i64::MAX {
                Some(v)
            } else {
                None
            }
        }
    }
}

/// Reads `s[from..to]` as a signed decimal integer, as `i64` parsing
/// would.
#[verifier::loop_isolation(false)]
pub fn parse_i64_token(s: &str, from: usize, to: usize) -> (r: Option<i64>)
    requires
        from <= to,
        to as int <= s@.len(),
    ensures
        ({
            let t = s@.subrange(from as int, to as int);
            match r {
                Some(v) => spec_parse_i64(t) == Some(v as int),
                None => spec_parse_i64(t) is None,
            }
        }),
{
    let ghost t = s@.subrange(from as int, to as int);
    if from == to {
        return None;
    }
    let first = s.get_char(from);
    let neg = first == '-';
    let signed = neg || first == '+';
    let ds_start: usize = if signed {
        from + 1
    } else {
        from
    };
    proof {
        assert(t[0] == s@[from as int]);
        if signed {
            assert(t.drop_first() =~= s@.subrange(ds_start as int, to as int));
        } else {
            assert(t =~= s@.subrange(ds_start as int, to as int));
        }
    }
    let ghost ds = s@.subrange(ds_start as int, to as int);
    if ds_start == to {
        return None;
    }
    let d_end = scan_while(s, ds_start, CharClass::Digit);
    proof {
        lemma_scan_end(s@, ds_start as int, CharClass::Digit);
    }
    if d_end < to {
        proof {
            assert(!class_holds(CharClass::Digit, s@[d_end as int]));
            assert(ds[d_end - ds_start] == s@[d_end as int]);
            assert(!all_digits(ds));
        }
        return None;
    }
    proof {
        assert forall|i: int| 0 <= i < ds.len() implies class_holds(
            CharClass::Digit,
            #[trigger] ds[i],
        ) by {
            assert(ds[i] == s@[ds_start + i]);
        }
        assert(all_digits(ds));
    }
    let limit: u64 = if neg {
        9223372036854775808u64
    } else {
        9223372036854775807u64
    };
    let mut acc: u64 = 0;
    let mut i: usize = ds_start;
    proof {
        assert(s@.subrange(ds_start as int, ds_start as int) =~= Seq::<char>::empty());
    }
    while i < to
        invariant
            ds_start <= i <= to,
            to as int <= s@.len(),
            ds == s@.subrange(ds_start as int, to as int),
            forall|k: int| ds_start <= k < to ==> class_holds(CharClass::Digit, s@[k]),
            acc as int == dec_value(s@.subrange(ds_start as int, i as int)),
            acc <= limit,
            limit == if neg {
                9223372036854775808u64
            } else {
                9223372036854775807u64
            },
        decreases to - i,
    {
        let c = s.get_char(i);
        let d: u64 = (c as u32 - 48) as u64;
        proof {
            assert(class_holds(CharClass::Digit, s@[i as int]));
            assert(d as nat == digit_val(s@[i as int]));
            lemma_dec_value_step(s@, ds_start as int, i as int);
        }
        if acc > (limit - d) / 10 {
            proof {
                let b = (limit - d) as int;
                assert((b / 10) * 10 + b % 10 == b);
                assert(acc as int * 10 + d as int > limit as int);
                assert(dec_value(s@.subrange(ds_start as int, i as int + 1)) > limit as nat);
                lemma_dec_value_mono(s@, ds_start as int, i as int + 1, to as int);
                assert(dec_value(ds) > limit as nat);
            }
            return None;
        }
        acc = acc * 10 + d;
        i = i + 1;
    }
    if neg {
        if acc == 9223372036854775808u64 {
            Some(i64::MIN)
        } else {
            Some(-(acc as i64))
        }
    } else {
        Some(acc as i64)
    }
}

/// The decimal rendering is a nonempty digit string whose value is the
/// number.
pub proof fn lemma_dec_rep_value(n: nat)
    ensures
        dec_rep(n).len() >= 1,
        all_digits(dec_rep(n)),
        dec_value(dec_rep(n)) == n,
{
    if n == 0 {
        assert(dec_rep(n) =~= seq!['0']);
        assert(dec_rep(n).drop_last() =~= Seq::<char>::empty());
        assert(dec_value(Seq::<char>::empty()) == 0);
        assert(dec_rep(n).last() == '0');
        assert(digit_val('0') == 0);
        assert(dec_value(dec_rep(n)) == 0);
        assert(class_holds(CharClass::Digit, '0'));
        assert(all_digits(dec_rep(n)));
    } else {
        lemma_dec_aux_digits(n);
        lemma_dec_value_of_aux(n);
    }
}

/// Decimal parsing reads the rendering of any machine integer back.
pub proof fn lemma_parse_i64_of_rep(v: int)
    requires
        i64::MIN <= v <= i64::MAX,
    ensures
        spec_parse_i64(dec_rep_int(v)) == Some(v),
{
    let t = dec_rep_int(v);
    if v >= 0 {
        lemma_dec_rep_value(v as nat);
        assert(t == dec_rep(v as nat));
        assert(class_holds(CharClass::Digit, t[0]));
        assert(t[0] != '-') by {
            if t[0] == '-' {
                assert(t[0] as u32 == 45);
            }
        }
        assert(t[0] != '+') by {
            if t[0] == '+' {
                assert(t[0] as u32 == 43);
            }
        }
        assert(spec_parse_i64(t) == Some(v));
    } else {
        lemma_dec_rep_value((-v) as nat);
        assert(t == seq!['-'] + dec_rep((-v) as nat));
        assert(t[0] == '-');
        assert(t.drop_first() =~= dec_rep((-v) as nat));
        assert(dec_value(t.drop_first()) == (-v) as nat);
        assert(spec_parse_i64(t) == Some(v));
    }
}

/// Renders an unsigned integer in decimal.
pub fn u64_to_string(n: u64) -> (s: String)
    ensures
        s@ == dec_rep(n as nat),
{
    if n == 0 {
        proof {
            reveal_strlit("0");
        }
        let s = String::from_str("0");
        assert(s@ =~= seq!['0']);
        return s;
    }
    let mut rev: Vec<u64> = Vec::new();
    let mut m: u64 = n;
    while m > 0
        invariant
            dec_aux(n as nat) == dec_aux(m as nat) + chars_of_digits_lsb(rev@),
            forall|i: int| 0 <= i < rev@.len() ==> rev@[i] < 10,
        decreases m,
    {
        let d: u64 = m % 10;
        proof {
            lemma_chars_of_digits_lsb_push(rev@, d);
            assert(dec_aux(m as nat) == dec_aux((m as nat) / 10) + seq![
                dec_digit((m as nat) % 10),
            ]);
            assert(dec_aux(m as nat) + chars_of_digits_lsb(rev@) =~= dec_aux((m as nat) / 10)
                + chars_of_digits_lsb(rev@.push(d)));
        }
        rev.push(d);
        m = m / 10;
    }
    assert(dec_aux(n as nat) =~= chars_of_digits_lsb(rev@));
    let mut s = String::new();
    let mut idx: usize = rev.len();
    while idx > 0
        invariant
            idx <= rev@.len(),
            s@ == chars_of_digits_lsb(rev@.skip(idx as int)),
            forall|i: int| 0 <= i < rev@.len() ==> rev@[i] < 10,
        decreases idx,
    {
        idx = idx - 1;
        let d = rev[idx];
        push_digit(&mut s, d);
        proof {
            assert(rev@.skip(idx as int).drop_first() =~= rev@.skip(idx as int + 1));
            assert(chars_of_digits_lsb(rev@.skip(idx as int)) =~= chars_of_digits_lsb(
                rev@.skip(idx as int + 1),
            ) + seq![dec_digit(rev@[idx as int] as nat)]);
        }
    }
    assert(rev@.skip(0) =~= rev@);
    assert(s@ =~= dec_rep(n as nat));
    s
}

/// Renders a signed integer in decimal, with a minus sign when negative.
pub fn i64_to_string(v: i64) -> (s: String)
    ensures
        s@ == dec_rep_int(v as int),
{
    if v >= 0 {
        u64_to_string(v as u64)
    } else {
        let mag: u64 = if v == i64::MIN {
            9223372036854775808u64
        } else {
            (-v) as u64
        };
        proof {
            reveal_strlit("-");
        }
        let mut s = String::from_str("-");
        assert(s@ =~= seq!['-']);
        let digits = u64_to_string(mag);
        s.append(digits.as_str());
        assert(s@ =~= dec_rep_int(v as int));
        s
    }
}

// ---------------------------------------------------------------------------
// Joining and splitting
// ---------------------------------------------------------------------------

/// The pieces joined with single spaces.
pub open spec fn spec_join_spaces(ps: Seq<Seq<char>>) -> Seq<char>
    decreases ps.len(),
{
    if ps.len() == 0 {
        Seq::empty()
    } else if ps.len() == 1 {
        ps[0]
    } else {
        spec_join_spaces(ps.drop_last()) + seq![' '] + ps.last()
    }
}

/// Joins the parts with single spaces, as a command line shows its words.
pub fn join_spaces(parts: &Vec<String>) -> (r: String)
    ensures
        r@ == spec_join_spaces(parts@.map_values(|p: String| p@)),
{
    let ghost ps = parts@.map_values(|p: String| p@);
    let mut r = String::new();
    let mut i: usize = 0;
    while i < parts.len()
        invariant
            i <= parts@.len(),
            ps == parts@.map_values(|p: String| p@),
            r@ == spec_join_spaces(ps.subrange(0, i as int)),
        decreases parts@.len() - i,
    {
        if i > 0 {
            proof {
                reveal_strlit(" ");
            }
            r.append(" ");
            assert(r@ =~= spec_join_spaces(ps.subrange(0, i as int)) + seq![' ']);
        }
        r.append(parts[i].as_str());
        proof {
            assert(ps.subrange(0, i as int + 1).drop_last() =~= ps.subrange(0, i as int));
            assert(ps.subrange(0, i as int + 1).last() == ps[i as int]);
            assert(ps[i as int] == parts@[i as int]@);
        }
        i = i + 1;
    }
    proof {
        assert(ps.subrange(0, ps.len() as int) =~= ps);
    }
    r
}

/// The lines of `l` starting at index `i`: pieces split at newlines, each
/// with one carriage return stripped from its end when a newline followed,
/// and no final empty line for text that ends in a newline.
pub open spec fn spec_lines_from(l: Seq<char>, i: int) -> Seq<Seq<char>>
    decreases l.len() - i,
{
    if i < 0 || i >= l.len() {
        Seq::empty()
    } else {
        let j0 = scan_end(l, i, CharClass::NotNewline);
        let j = if j0 < i {
            i
        } else {
            j0
        };
        let raw = l.subrange(i, j);
        let line = if j < l.len() && raw.len() > 0 && raw.last() == '\r' {
            raw.drop_last()
        } else {
            raw
        };
        seq![line] + (if j < l.len() {
            spec_lines_from(l, j + 1)
        } else {
            Seq::empty()
        })
    }
}

/// The lines of a text, as line-oriented reading sees them.
pub open spec fn spec_lines(l: Seq<char>) -> Seq<Seq<char>> {
    spec_lines_from(l, 0)
}

/// Splits a text into lines.
#[verifier::loop_isolation(false)]
pub fn split_lines(s: &str) -> (r: Vec<String>)
    ensures
        r@.map_values(|x: String| x@) == spec_lines(s@),
{
    let n = s.unicode_len();
    let mut out: Vec<String> = Vec::new();
    let mut i: usize = 0;
    while i < n
        invariant
            i <= n,
            spec_lines(s@) == out@.map_values(|x: String| x@) + spec_lines_from(s@, i as int),
        decreases n - i,
    {
        let j = scan_while(s, i, CharClass::NotNewline);
        proof {
            lemma_scan_end(s@, i as int, CharClass::NotNewline);
        }
        let line_end: usize = if j < n && j > i && s.get_char(j - 1) == '\r' {
            j - 1
        } else {
            j
        };
        let piece = s.substring_char(i, line_end);
        let owned = piece.to_owned();
        proof {
            let raw = s@.subrange(i as int, j as int);
            if j < n && j > i && s@[j as int - 1] == '\r' {
                assert(raw.last() == s@[j as int - 1]);
                assert(raw.drop_last() =~= s@.subrange(i as int, j as int - 1));
            }
            assert(owned@ == spec_lines_from(s@, i as int)[0]);
        }
        let ghost ov = owned@;
        let ghost prev = out@.map_values(|x: String| x@);
        out.push(owned);
        proof {
            assert(out@.map_values(|x: String| x@) =~= prev.push(ov));
        }
        if j < n {
            proof {
                assert(spec_lines_from(s@, i as int) =~= seq![ov] + spec_lines_from(
                    s@,
                    j as int + 1,
                ));
                assert(out@.map_values(|x: String| x@) + spec_lines_from(s@, j as int + 1)
                    =~= spec_lines(s@));
            }
            i = j + 1;
        } else {
            proof {
                assert(spec_lines_from(s@, i as int) =~= seq![ov]);
                assert(out@.map_values(|x: String| x@) + spec_lines_from(s@, n as int)
                    =~= spec_lines(s@));
            }
            i = n;
        }
    }
    out
}

/// The comma-separated pieces of `l` from index `i` on, each trimmed.
pub open spec fn spec_split_commas_trimmed(l: Seq<char>, i: int) -> Seq<Seq<char>>
    decreases l.len() - i,
{
    if i < 0 || i > l.len() {
        Seq::empty()
    } else {
        let j0 = scan_end(l, i, CharClass::NotComma);
        let j = if j0 < i {
            i
        } else {
            j0
        };
        let piece = trimmed(l.subrange(i, j));
        if j < l.len() {
            seq![piece] + spec_split_commas_trimmed(l, j + 1)
        } else {
            seq![piece]
        }
    }
}

/// Splits a text at commas and trims each piece.
pub fn split_commas_trimmed(s: &str) -> (r: Vec<String>)
    ensures
        r@.map_values(|x: String| x@) == spec_split_commas_trimmed(s@, 0),
{
    let n = s.unicode_len();
    let mut out: Vec<String> = Vec::new();
    let mut i: usize = 0;
    loop
        invariant_except_break
            i <= n,
            n as int == s@.len(),
            spec_split_commas_trimmed(s@, 0) == out@.map_values(|x: String| x@)
                + spec_split_commas_trimmed(s@, i as int),
        ensures
            out@.map_values(|x: String| x@) == spec_split_commas_trimmed(s@, 0),
        decreases n - i + 1,
    {
        let j = scan_while(s, i, CharClass::NotComma);
        proof {
            lemma_scan_end(s@, i as int, CharClass::NotComma);
        }
        let piece = s.substring_char(i, j);
        let t = trim_copy(piece);
        let ghost tv = t@;
        let ghost prev = out@.map_values(|x: String| x@);
        out.push(t);
        proof {
            assert(out@.map_values(|x: String| x@) =~= prev.push(tv));
        }
        if j < n {
            proof {
                assert(spec_split_commas_trimmed(s@, i as int) =~= seq![tv]
                    + spec_split_commas_trimmed(s@, j as int + 1));
            }
            i = j + 1;
        } else {
            proof {
                assert(spec_split_commas_trimmed(s@, i as int) =~= seq![tv]);
                assert(out@.map_values(|x: String| x@) =~= spec_split_commas_trimmed(s@, 0));
            }
            break ;
        }
    }
    out
}

/// The lines joined with single newlines, no trailing one.
pub open spec fn spec_join_nl(ls: Seq<Seq<char>>) -> Seq<char>
    decreases ls.len(),
{
    if ls.len() == 0 {
        Seq::empty()
    } else if ls.len() == 1 {
        ls[0]
    } else {
        ls.first() + seq!['\n'] + spec_join_nl(ls.drop_first())
    }
}

/// Reading lines from a shifted position in a concatenation mirrors
/// reading them from the second part alone.
pub proof fn lemma_lines_from_shift(l1: Seq<char>, l2: Seq<char>, i: int)
    requires
        0 <= i <= l2.len(),
    ensures
        spec_lines_from(l1 + l2, l1.len() + i) == spec_lines_from(l2, i),
    decreases l2.len() - i,
{
    let t = l1 + l2;
    if i < l2.len() {
        lemma_scan_end_shift(l1, l2, i, CharClass::NotNewline);
        lemma_scan_end(l2, i, CharClass::NotNewline);
        let j = scan_end(l2, i, CharClass::NotNewline);
        assert(t.subrange(l1.len() + i, l1.len() + j) =~= l2.subrange(i, j));
        if j < l2.len() {
            lemma_lines_from_shift(l1, l2, j + 1);
        }
        if j < l2.len() && j > i && l2[j - 1] == '\r' {
            assert(t.subrange(l1.len() + i, l1.len() + j - 1) =~= l2.subrange(i, j - 1));
        }
    }
}

/// Splitting the newline-joined lines back gives the lines, provided no
/// line holds a newline or ends with a carriage return, and the last
/// line is not empty.
pub proof fn lemma_lines_of_join(ls: Seq<Seq<char>>)
    requires
        ls.len() > 0,
        ls.last().len() > 0,
        forall|i: int, k: int|
            0 <= i < ls.len() && 0 <= k < ls[i].len() ==> (#[trigger] ls[i][k]) != '\n',
        forall|i: int| 0 <= i < ls.len() && ls[i].len() > 0 ==> (#[trigger] ls[i]).last() != '\r',
    ensures
        spec_lines(spec_join_nl(ls)) == ls,
    decreases ls.len(),
{
    let t = spec_join_nl(ls);
    let l0 = ls[0];
    if ls.len() == 1 {
        assert(t == l0);
        assert(l0.len() > 0);
        lemma_scan_end_determined(t, 0, l0.len() as int, CharClass::NotNewline);
        assert(t.subrange(0, l0.len() as int) =~= l0);
        assert(spec_lines(t) =~= seq![l0]);
        assert(spec_lines(t) =~= ls);
    } else {
        let rest = ls.drop_first();
        let t2 = spec_join_nl(rest);
        assert(t == l0 + seq!['\n'] + t2);
        let pre = l0 + seq!['\n'];
        assert(t =~= pre + t2);
        assert(forall|k: int| 0 <= k < l0.len() ==> t[k] == l0[k]);
        assert(t[l0.len() as int] == '\n');
        lemma_scan_end_determined(t, 0, l0.len() as int, CharClass::NotNewline);
        assert(t.subrange(0, l0.len() as int) =~= l0);
        lemma_lines_from_shift(pre, t2, 0);
        assert(spec_lines_from(t, pre.len() as int) == spec_lines_from(t2, 0));
        lemma_lines_of_join(rest);
        assert(forall|i: int|
            0 <= i < rest.len() ==> #[trigger] rest[i] == ls[i + 1]);
        assert(spec_lines(t2) == rest);
        assert(spec_lines(t) =~= seq![l0] + rest);
        assert(seq![l0] + rest =~= ls);
    }
}

// ---------------------------------------------------------------------------
// Lexicographic order
// ---------------------------------------------------------------------------

/// Lexicographic order on character sequences, by scalar value.
pub open spec fn lex_le(a: Seq<char>, b: Seq<char>) -> bool
    decreases a.len(),
{
    if a.len() == 0 {
        true
    } else if b.len() == 0 {
        false
    } else if (a.first() as int) < (b.first() as int) {
        true
    } else if (a.first() as int) > (b.first() as int) {
        false
    } else {
        lex_le(a.drop_first(), b.drop_first())
    }
}

/// The order is reflexive.
pub proof fn lemma_lex_refl(a: Seq<char>)
    ensures
        lex_le(a, a),
    decreases a.len(),
{
    if a.len() > 0 {
        lemma_lex_refl(a.drop_first());
    }
}

/// The order is total: two sequences compare one way or the other.
pub proof fn lemma_lex_total(a: Seq<char>, b: Seq<char>)
    ensures
        lex_le(a, b) || lex_le(b, a),
    decreases a.len(),
{
    if a.len() > 0 && b.len() > 0 && a.first() as int == b.first() as int {
        lemma_lex_total(a.drop_first(), b.drop_first());
    }
}

/// The order is antisymmetric: mutual order means equality.
pub proof fn lemma_lex_antisym(a: Seq<char>, b: Seq<char>)
    requires
        lex_le(a, b),
        lex_le(b, a),
    ensures
        a == b,
    decreases a.len(),
{
    if a.len() == 0 {
        assert(b.len() == 0);
        assert(a =~= b);
    } else {
        assert(b.len() > 0);
        assert(a.first() as int == b.first() as int);
        assert(a.first() == b.first());
        lemma_lex_antisym(a.drop_first(), b.drop_first());
        assert(a =~= seq![a.first()] + a.drop_first());
        assert(b =~= seq![b.first()] + b.drop_first());
    }
}

/// The order is transitive.
pub proof fn lemma_lex_trans(a: Seq<char>, b: Seq<char>, c: Seq<char>)
    requires
        lex_le(a, b),
        lex_le(b, c),
    ensures
        lex_le(a, c),
    decreases a.len(),
{
    if a.len() > 0 && b.len() > 0 && c.len() > 0 && a.first() as int == b.first() as int
        && b.first() as int == c.first() as int {
        lemma_lex_trans(a.drop_first(), b.drop_first(), c.drop_first());
    }
}

/// Compares two strings in lexicographic order.
pub fn str_lex_le(a: &str, b: &str) -> (r: bool)
    ensures
        r == lex_le(a@, b@),
{
    let an = a.unicode_len();
    let bn = b.unicode_len();
    proof {
        assert(a@.skip(0) =~= a@);
        assert(b@.skip(0) =~= b@);
    }
    let mut i: usize = 0;
    loop
        invariant_except_break
            i <= an,
            i <= bn,
            an as int == a@.len(),
            bn as int == b@.len(),
            lex_le(a@, b@) == lex_le(a@.skip(i as int), b@.skip(i as int)),
        ensures
            ({
                let r0: bool = lex_le(a@, b@);
                r0 == lex_le(a@, b@)
            }),
        decreases an - i,
    {
        if i >= an {
            proof {
                assert(a@.skip(i as int).len() == 0);
            }
            return true;
        }
        if i >= bn {
            proof {
                assert(b@.skip(i as int).len() == 0);
                assert(a@.skip(i as int).len() > 0);
            }
            return false;
        }
        let ca = a.get_char(i);
        let cb = b.get_char(i);
        proof {
            assert(a@.skip(i as int).first() == a@[i as int]);
            assert(b@.skip(i as int).first() == b@[i as int]);
            assert(a@.skip(i as int).drop_first() =~= a@.skip(i as int + 1));
            assert(b@.skip(i as int).drop_first() =~= b@.skip(i as int + 1));
        }
        if (ca as u32) < (cb as u32) {
            return true;
        }
        if ca != cb {
            return false;
        }
        i = i + 1;
    }
}

} // verus!
