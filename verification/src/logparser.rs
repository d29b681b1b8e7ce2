//! The vendor updater's live log, reduced to structure: each line is
//! classified into an update event — a stale file, the announced download
//! total, or a finished transfer — and event histories are folded into
//! aggregate progress counters. Counters embedded in the log carry
//! thousands separators and are de-separated before parsing.
//!
//! The recognized lines look like these:
//!
//! ```text
//! 14.165 Sys [Info]: /Lotus/Levels/Proc/Orokin/OrokinMoonDefense is out of date (hash mismatch)
//! 14.182 Sys [Info]: 4,493,854,909 bytes to download
//! 16.217 Sys [Info]: Used shared /Lotus/Levels/Proc/Orokin/OrokinMoonDefense (25,705B Copy: 1.85s Write: 0s Latency: 2.01s)
//! ```

use vstd::prelude::*;
use crate::strutil::{find_from, find_char_from, match_at, has_suffix, str_ends_with,
    is_space_char, is_space};
use crate::digits::{is_digit, dec_val, digit_value, lemma_dec_val_prefix};

verus! {

/// One parsed line of the updater's log.
#[derive(Debug, PartialEq, Eq)]
pub enum LogLine {
    /// A file whose local hash does not match: it is pending download.
    HashMismatch(String),
    /// The announced total number of bytes to download.
    BytesToDownload(u64),
    /// One finished transfer: its size in bytes and its file.
    UsedShared(u64, String),
    /// A line the patterns do not recognize.
    Unknown(String),
}

/// The characters a log timestamp is made of.
pub open spec fn is_stamp_char(c: char) -> bool {
    is_digit(c) || c == '.'
}

/// A digit or the thousands separator.
pub open spec fn is_num_char(c: char) -> bool {
    is_digit(c) || c == ','
}

/// End of the run of timestamp characters starting at `i`.
pub open spec fn stamp_run_end(s: Seq<char>, i: int) -> int
    decreases s.len() - i,
{
    if 0 <= i < s.len() && is_stamp_char(s[i]) {
        stamp_run_end(s, i + 1)
    } else {
        i
    }
}

/// End of the run of non-space characters starting at `i`.
pub open spec fn nonspace_run_end(s: Seq<char>, i: int) -> int
    decreases s.len() - i,
{
    if 0 <= i < s.len() && !is_space_char(s[i]) {
        nonspace_run_end(s, i + 1)
    } else {
        i
    }
}

/// End of the run of digits and separators starting at `i`.
pub open spec fn num_run_end(s: Seq<char>, i: int) -> int
    decreases s.len() - i,
{
    if 0 <= i < s.len() && is_num_char(s[i]) {
        num_run_end(s, i + 1)
    } else {
        i
    }
}

/// Position right after the fixed `<timestamp> Sys [Info]: ` head of a log
/// line, if the line carries one: a non-empty run of digits and dots, one
/// space, `Sys`, one space, and `[Info]: `.
pub open spec fn info_body_start(s: Seq<char>) -> Option<int> {
    let t = stamp_run_end(s, 0);
    if t >= 1 && t + 13 <= s.len() && is_space_char(s[t]) && s.subrange(t + 1, t + 4) == "Sys"@
        && is_space_char(s[t + 4]) && s.subrange(t + 5, t + 13) == "[Info]: "@ {
        Some(t + 13)
    } else {
        None
    }
}

/// The file and size fields of a finished-transfer line, when the body at
/// `m` reads `Used shared <file> (<size><filler>)`: the file is the maximal
/// non-space run, the size the maximal run of digits and separators after
/// the opening parenthesis. When the size run is followed directly by a
/// closing parenthesis, its last character plays the filler instead, as the
/// original pattern's backtracking has it.
pub open spec fn used_shared_parts(s: Seq<char>, m: int) -> Option<(Seq<char>, Seq<char>)> {
    if !(m + 12 <= s.len() && s.subrange(m, m + 12) == "Used shared "@) {
        None
    } else {
        let fe = nonspace_run_end(s, m + 12);
        if fe == m + 12 || fe + 2 > s.len() || s[fe] != ' ' || s[fe + 1] != '(' {
            None
        } else {
            let file = s.subrange(m + 12, fe);
            let p0 = fe + 2;
            let se = num_run_end(s, p0);
            if se == p0 || se == s.len() {
                None
            } else if s[se] == ')' {
                if se - p0 >= 2 {
                    Some((file, s.subrange(p0, se - 1)))
                } else {
                    None
                }
            } else {
                match find_from(s, ')', se) {
                    Some(_) => Some((file, s.subrange(p0, se))),
                    None => None,
                }
            }
        }
    }
}

/// The file of a stale-file line, when the body at `m` reads
/// `<file> is out of date (hash mismatch)`.
pub open spec fn hash_mismatch_file(s: Seq<char>, m: int) -> Option<Seq<char>> {
    let fe = nonspace_run_end(s, m);
    if fe == m {
        None
    } else if fe + 31 <= s.len() && s.subrange(fe, fe + 31) == " is out of date (hash mismatch)"@ {
        Some(s.subrange(m, fe))
    } else {
        None
    }
}

/// The size field of an announced-total line, when the body at `m` reads
/// `<size> bytes to download`.
pub open spec fn bytes_total_field(s: Seq<char>, m: int) -> Option<Seq<char>> {
    let se = num_run_end(s, m);
    if se == m {
        None
    } else if se + 18 <= s.len() && s.subrange(se, se + 18) == " bytes to download"@ {
        Some(s.subrange(m, se))
    } else {
        None
    }
}

/// A counter string with its thousands separators removed.
pub open spec fn de_sep(s: Seq<char>) -> Seq<char>
    decreases s.len(),
{
    if s.len() == 0 {
        seq![]
    } else if s[0] == ',' {
        de_sep(s.drop_first())
    } else {
        seq![s[0]] + de_sep(s.drop_first())
    }
}

/// The value of a counter string: its digits read as one decimal number
/// once the separators are dropped; empty means zero.
pub open spec fn sep_num_val(s: Seq<char>) -> int {
    dec_val(de_sep(s))
}

/// What one log line says, at the specification level.
pub enum LineEvent {
    /// A stale file: its path.
    Stale(Seq<char>),
    /// The announced total bytes to download.
    Announce(int),
    /// A finished transfer: its bytes and its path.
    Done(int, Seq<char>),
    /// Nothing the patterns recognize, or a counter beyond 64 bits.
    Other,
}

/// The event a log line denotes. The patterns apply in a fixed priority
/// order — finished transfer, stale file, announced total — and a line
/// whose counter does not fit an unsigned 64-bit integer is not an event.
pub open spec fn spec_parse_line(s: Seq<char>) -> LineEvent {
    match info_body_start(s) {
        None => LineEvent::Other,
        Some(m) => match used_shared_parts(s, m) {
            Some(parts) => if sep_num_val(parts.1) <= u64::MAX as int {
                LineEvent::Done(sep_num_val(parts.1), parts.0)
            } else {
                LineEvent::Other
            },
            None => match hash_mismatch_file(s, m) {
                Some(file) => LineEvent::Stale(file),
                None => match bytes_total_field(s, m) {
                    Some(size) => if sep_num_val(size) <= u64::MAX as int {
                        LineEvent::Announce(sep_num_val(size))
                    } else {
                        LineEvent::Other
                    },
                    None => LineEvent::Other,
                },
            },
        },
    }
}

/// Splitting at a concatenation commutes with dropping separators.
proof fn lemma_de_sep_cat(a: Seq<char>, b: Seq<char>)
    ensures
        de_sep(a + b) == de_sep(a) + de_sep(b),
    decreases a.len(),
{
    if a.len() == 0 {
        assert(a + b =~= b);
        assert(de_sep(a) + de_sep(b) =~= de_sep(b));
    } else {
        lemma_de_sep_cat(a.drop_first(), b);
        assert((a + b).drop_first() =~= a.drop_first() + b);
        if a[0] == ',' {
        } else {
            assert(seq![a[0]] + (de_sep(a.drop_first()) + de_sep(b)) =~= (seq![a[0]] + de_sep(
                a.drop_first(),
            )) + de_sep(b));
        }
    }
}

/// Dropping separators from digits and separators leaves only digits.
proof fn lemma_de_sep_digits(s: Seq<char>)
    requires
        forall|i: int| 0 <= i < s.len() ==> is_num_char(#[trigger] s[i]),
    ensures
        forall|i: int| 0 <= i < de_sep(s).len() ==> is_digit(#[trigger] de_sep(s)[i]),
    decreases s.len(),
{
    if s.len() > 0 {
        assert(forall|i: int|
            0 <= i < s.drop_first().len() ==> is_num_char(#[trigger] s.drop_first()[i]));
        lemma_de_sep_digits(s.drop_first());
        if s[0] != ',' {
            assert(forall|i: int| 0 <= i < de_sep(s).len() ==> is_digit(#[trigger] de_sep(s)[i]))
                by {
                assert(de_sep(s) == seq![s[0]] + de_sep(s.drop_first()));
                assert(forall|i: int|
                    1 <= i < de_sep(s).len() ==> #[trigger] de_sep(s)[i] == de_sep(
                        s.drop_first(),
                    ).index(i - 1));
                assert(de_sep(s)[0] == s[0]);
            }
        }
    }
}

/// The value of a counter's prefix never exceeds the whole counter's value.
proof fn lemma_sep_num_val_prefix(s: Seq<char>, k: int)
    requires
        forall|i: int| 0 <= i < s.len() ==> is_num_char(#[trigger] s[i]),
        0 <= k <= s.len(),
    ensures
        sep_num_val(s.subrange(0, k)) <= sep_num_val(s),
{
    let a = s.subrange(0, k);
    let b = s.subrange(k, s.len() as int);
    assert(s =~= a + b);
    lemma_de_sep_cat(a, b);
    lemma_de_sep_digits(s);
    assert(de_sep(a) =~= de_sep(s).subrange(0, de_sep(a).len() as int));
    lemma_dec_val_prefix(de_sep(s), de_sep(a).len() as int);
}

/// De-separates a counter and parses it: separators are dropped and the
/// digits read as one decimal number; an empty counter is zero.
pub fn parse_bytes(input: &str) -> (r: u64)
    requires
        forall|i: int| 0 <= i < input@.len() ==> is_num_char(#[trigger] input@[i]),
        sep_num_val(input@) <= u64::MAX as int,
    ensures
        r as int == sep_num_val(input@),
{
    let n = input.unicode_len();
    match parse_num_field(input, 0, n) {
        Some(v) => {
            proof {
                assert(input@.subrange(0, n as int) =~= input@);
            }
            v
        },
        None => {
            proof {
                assert(input@.subrange(0, n as int) =~= input@);
                assert(false);
            }
            0
        },
    }
}

/// Parses the counter in `s[from..to]`, or reports that its value does not
/// fit an unsigned 64-bit integer.
fn parse_num_field(s: &str, from: usize, to: usize) -> (r: Option<u64>)
    requires
        from <= to <= s@.len(),
        forall|i: int| from <= i < to ==> is_num_char(#[trigger] s@[i]),
    ensures
        match r {
            Some(v) => v as int == sep_num_val(s@.subrange(from as int, to as int)),
            None => sep_num_val(s@.subrange(from as int, to as int)) > u64::MAX as int,
        },
{
    let ghost field = s@.subrange(from as int, to as int);
    proof {
        assert(forall|i: int| 0 <= i < field.len() ==> is_num_char(#[trigger] field[i])) by {
            assert(forall|i: int| 0 <= i < field.len() ==> #[trigger] field[i] == s@[from + i]);
        }
        assert(field.subrange(0, 0) =~= Seq::<char>::empty());
    }
    let mut acc: u64 = 0;
    let mut i: usize = from;
    while i < to
        invariant
            from <= i <= to <= s@.len(),
            field == s@.subrange(from as int, to as int),
            forall|j: int| 0 <= j < field.len() ==> is_num_char(#[trigger] field[j]),
            acc as int == sep_num_val(field.subrange(0, i - from)),
        decreases to - i,
    {
        let c = s.get_char(i);
        proof {
            let tpre = field.subrange(0, i - from);
            let cc = field[i - from];
            assert(cc == s@[i as int]);
            assert(field.subrange(0, i - from + 1) =~= tpre.push(cc));
            lemma_de_sep_snoc(tpre, cc);
            if cc != ',' {
                assert((de_sep(tpre) + seq![cc]).drop_last() =~= de_sep(tpre));
                assert((de_sep(tpre) + seq![cc]).last() == cc);
            }
        }
        match digit_value(c) {
            Some(d) => {
                let next = match acc.checked_mul(10) {
                    Some(x) => x.checked_add(d as u64),
                    None => None,
                };
                match next {
                    Some(v) => {
                        acc = v;
                    },
                    None => {
                        proof {
                            lemma_overflow_stays(field, i - from + 1);
                        }
                        return None;
                    },
                }
            },
            None => {},
        }
        i += 1;
    }
    proof {
        assert(field.subrange(0, to - from) =~= field);
    }
    Some(acc)
}

/// Appending one character to a counter extends its de-separated digits by
/// that character, unless it is the separator.
proof fn lemma_de_sep_snoc(t: Seq<char>, c: char)
    ensures
        de_sep(t.push(c)) == if c == ',' {
            de_sep(t)
        } else {
            de_sep(t) + seq![c]
        },
    decreases t.len(),
{
    if t.len() == 0 {
        assert(t.push(c).drop_first() =~= Seq::<char>::empty());
        if c != ',' {
            assert(seq![c] + de_sep(Seq::<char>::empty()) =~= de_sep(t) + seq![c]);
        }
    } else {
        lemma_de_sep_snoc(t.drop_first(), c);
        assert(t.push(c).drop_first() =~= t.drop_first().push(c));
        assert(t.push(c)[0] == t[0]);
        if t[0] != ',' {
            if c == ',' {
            } else {
                assert(seq![t[0]] + (de_sep(t.drop_first()) + seq![c]) =~= (seq![t[0]] + de_sep(
                    t.drop_first(),
                )) + seq![c]);
            }
        }
    }
}

/// Once a counter's prefix exceeds the 64-bit range, the whole counter does.
proof fn lemma_overflow_stays(field: Seq<char>, k: int)
    requires
        forall|i: int| 0 <= i < field.len() ==> is_num_char(#[trigger] field[i]),
        0 <= k <= field.len(),
        sep_num_val(field.subrange(0, k)) > u64::MAX as int,
    ensures
        sep_num_val(field) > u64::MAX as int,
{
    lemma_sep_num_val_prefix(field, k);
}

/// Is `c` a log-timestamp character?
fn is_stamp(c: char) -> (r: bool)
    ensures
        r == is_stamp_char(c),
{
    digit_value(c).is_some() || c == '.'
}

/// Is `c` a digit or the thousands separator?
fn is_num(c: char) -> (r: bool)
    ensures
        r == is_num_char(c),
{
    digit_value(c).is_some() || c == ','
}

/// Scans the run of timestamp characters starting at `from`.
fn scan_stamp(s: &str, from: usize) -> (r: usize)
    requires
        from <= s@.len(),
    ensures
        from <= r <= s@.len(),
        r as int == stamp_run_end(s@, from as int),
{
    let n = s.unicode_len();
    let mut i: usize = from;
    while i < n
        invariant
            n == s@.len(),
            from <= i <= n,
            stamp_run_end(s@, from as int) == stamp_run_end(s@, i as int),
        decreases n - i,
    {
        if !is_stamp(s.get_char(i)) {
            return i;
        }
        i += 1;
    }
    i
}

/// Scans the run of non-space characters starting at `from`.
fn scan_nonspace(s: &str, from: usize) -> (r: usize)
    requires
        from <= s@.len(),
    ensures
        from <= r <= s@.len(),
        r as int == nonspace_run_end(s@, from as int),
{
    let n = s.unicode_len();
    let mut i: usize = from;
    while i < n
        invariant
            n == s@.len(),
            from <= i <= n,
            nonspace_run_end(s@, from as int) == nonspace_run_end(s@, i as int),
        decreases n - i,
    {
        if is_space(s.get_char(i)) {
            return i;
        }
        i += 1;
    }
    i
}

/// Scans the run of digits and separators starting at `from`.
fn scan_num(s: &str, from: usize) -> (r: usize)
    requires
        from <= s@.len(),
    ensures
        from <= r <= s@.len(),
        r as int == num_run_end(s@, from as int),
        forall|j: int| from <= j < r ==> is_num_char(#[trigger] s@[j]),
    decreases s@.len() - from,
{
    let n = s.unicode_len();
    let mut i: usize = from;
    while i < n
        invariant
            n == s@.len(),
            from <= i <= n,
            num_run_end(s@, from as int) == num_run_end(s@, i as int),
            forall|j: int| from <= j < i ==> is_num_char(#[trigger] s@[j]),
        decreases n - i,
    {
        if !is_num(s.get_char(i)) {
            return i;
        }
        i += 1;
    }
    i
}

/// Tries the finished-transfer pattern against the body at `m`.
fn try_used_shared(line: &str, m: usize) -> (r: Option<LogLine>)
    requires
        m <= line@.len(),
    ensures
        match used_shared_parts(line@, m as int) {
            Some(parts) => if sep_num_val(parts.1) <= u64::MAX as int {
                r matches Some(l) && (l matches LogLine::UsedShared(b, f) && b as int
                    == sep_num_val(parts.1) && f@ == parts.0)
            } else {
                r matches Some(l) && (l matches LogLine::Unknown(u) && u@
                    == Seq::<char>::empty())
            },
            None => r is None,
        },
{
    let n = line.unicode_len();
    proof {
        reveal_strlit("Used shared ");
    }
    if n - m < 12 {
        return None;
    }
    if !match_at(line, "Used shared ", m) {
        return None;
    }
    let fe = scan_nonspace(line, m + 12);
    if fe == m + 12 {
        return None;
    }
    if n - fe < 2 {
        return None;
    }
    if line.get_char(fe) != ' ' || line.get_char(fe + 1) != '(' {
        return None;
    }
    let p0 = fe + 2;
    let se = scan_num(line, p0);
    if se == p0 || se == n {
        return None;
    }
    let lo = p0;
    let hi: usize;
    if line.get_char(se) == ')' {
        if se - p0 >= 2 {
            hi = se - 1;
        } else {
            return None;
        }
    } else {
        match find_char_from(line, ')', se) {
            Some(_) => {
                hi = se;
            },
            None => {
                return None;
            },
        }
    }
    let file = line.substring_char(m + 12, fe).to_owned();
    match parse_num_field(line, lo, hi) {
        Some(v) => Some(LogLine::UsedShared(v, file)),
        None => Some(LogLine::Unknown(String::new())),
    }
}

/// Tries the stale-file pattern against the body at `m`.
fn try_hash_mismatch(line: &str, m: usize) -> (r: Option<LogLine>)
    requires
        m <= line@.len(),
    ensures
        match hash_mismatch_file(line@, m as int) {
            Some(f) => r matches Some(l) && (l matches LogLine::HashMismatch(ff) && ff@ == f),
            None => r is None,
        },
{
    let n = line.unicode_len();
    proof {
        reveal_strlit(" is out of date (hash mismatch)");
    }
    let fe = scan_nonspace(line, m);
    if fe == m {
        return None;
    }
    if n - fe < 31 {
        return None;
    }
    if !match_at(line, " is out of date (hash mismatch)", fe) {
        return None;
    }
    Some(LogLine::HashMismatch(line.substring_char(m, fe).to_owned()))
}

/// Tries the announced-total pattern against the body at `m`.
fn try_bytes_total(line: &str, m: usize) -> (r: Option<LogLine>)
    requires
        m <= line@.len(),
    ensures
        match bytes_total_field(line@, m as int) {
            Some(size) => if sep_num_val(size) <= u64::MAX as int {
                r matches Some(l) && (l matches LogLine::BytesToDownload(b) && b as int
                    == sep_num_val(size))
            } else {
                r matches Some(l) && (l matches LogLine::Unknown(u) && u@
                    == Seq::<char>::empty())
            },
            None => r is None,
        },
{
    let n = line.unicode_len();
    proof {
        reveal_strlit(" bytes to download");
    }
    let se = scan_num(line, m);
    if se == m {
        return None;
    }
    if n - se < 18 {
        return None;
    }
    if !match_at(line, " bytes to download", se) {
        return None;
    }
    match parse_num_field(line, m, se) {
        Some(v) => Some(LogLine::BytesToDownload(v)),
        None => Some(LogLine::Unknown(String::new())),
    }
}

/// Classifies one log line into its event.
///
/// Every line gets an answer: a line that no pattern recognizes — including
/// one whose counter does not fit 64 bits — is `Unknown` with an empty
/// payload, never a failure.
pub fn parse_line(line: &str) -> (r: LogLine)
    ensures
        match spec_parse_line(line@) {
            LineEvent::Done(bytes, file) => r matches LogLine::UsedShared(b, f) && b as int
                == bytes && f@ == file,
            LineEvent::Stale(file) => r matches LogLine::HashMismatch(f) && f@ == file,
            LineEvent::Announce(bytes) => r matches LogLine::BytesToDownload(b) && b as int
                == bytes,
            LineEvent::Other => r matches LogLine::Unknown(u) && u@ == Seq::<char>::empty(),
        },
{
    let n = line.unicode_len();
    proof {
        reveal_strlit("Sys");
        reveal_strlit("[Info]: ");
    }
    let t = scan_stamp(line, 0);
    if t < 1 || n - t < 13 {
        return LogLine::Unknown(String::new());
    }
    if !is_space(line.get_char(t)) {
        return LogLine::Unknown(String::new());
    }
    if !match_at(line, "Sys", t + 1) {
        return LogLine::Unknown(String::new());
    }
    if !is_space(line.get_char(t + 4)) {
        return LogLine::Unknown(String::new());
    }
    if !match_at(line, "[Info]: ", t + 5) {
        return LogLine::Unknown(String::new());
    }
    let m = t + 13;
    proof {
        assert(info_body_start(line@) == Some(m as int));
    }
    match try_used_shared(line, m) {
        Some(l) => {
            return l;
        },
        None => {},
    }
    match try_hash_mismatch(line, m) {
        Some(l) => {
            return l;
        },
        None => {},
    }
    match try_bytes_total(line, m) {
        Some(l) => {
            return l;
        },
        None => {},
    }
    LogLine::Unknown(String::new())
}

impl LogLine {
    /// The name of this line's kind, for display.
    pub fn kind_name(&self) -> (r: String)
        ensures
            r@ == match self {
                LogLine::HashMismatch(_) => "HashMismatch"@,
                LogLine::BytesToDownload(_) => "BytesToDownload"@,
                LogLine::UsedShared(_, _) => "UsedShared"@,
                LogLine::Unknown(_) => "Unknown"@,
            },
    {
        match self {
            LogLine::HashMismatch(_) => "HashMismatch".to_owned(),
            LogLine::BytesToDownload(_) => "BytesToDownload".to_owned(),
            LogLine::UsedShared(_, _) => "UsedShared".to_owned(),
            LogLine::Unknown(_) => "Unknown".to_owned(),
        }
    }
}

/// Whether a parsed line belongs in a fold of update progress: lines the
/// patterns do not recognize are dropped, and so are transfers of the
/// bookkeeping files (suffix `.bin`) that the updater moves before a real
/// update begins — counting those would inflate the finished-file count.
pub open spec fn spec_should_track(l: LogLine) -> bool {
    match l {
        LogLine::Unknown(_) => false,
        LogLine::UsedShared(_, name) => !has_suffix(name@, ".bin"@),
        _ => true,
    }
}

/// Applies the fold's caller-side filter to one parsed line.
pub fn should_track(line: &LogLine) -> (r: bool)
    ensures
        r == spec_should_track(*line),
{
    match line {
        LogLine::Unknown(_) => false,
        LogLine::UsedShared(_, name) => {
            proof {
                reveal_strlit(".bin");
            }
            !str_ends_with(name.as_str(), ".bin")
        },
        _ => true,
    }
}

/// Aggregate progress counters folded from a history of parsed lines.
#[derive(Debug, Clone, Copy, PartialEq, Eq, Structural)]
pub struct Progress {
    /// How many files were reported stale.
    pub files_pending_total: u64,
    /// The last announced total of bytes to download.
    pub bytes_total: u64,
    /// How many transfers finished.
    pub files_completed: u64,
    /// The bytes of all finished transfers, saturating at the 64-bit limit.
    pub bytes_completed: u64,
}

/// Stale-file lines in a history.
pub open spec fn count_stale(l: Seq<LogLine>) -> int
    decreases l.len(),
{
    if l.len() == 0 {
        0
    } else {
        count_stale(l.drop_last()) + if l.last() is HashMismatch {
            1int
        } else {
            0
        }
    }
}

/// Finished transfers in a history.
pub open spec fn count_done(l: Seq<LogLine>) -> int
    decreases l.len(),
{
    if l.len() == 0 {
        0
    } else {
        count_done(l.drop_last()) + if l.last() is UsedShared {
            1int
        } else {
            0
        }
    }
}

/// Bytes of all finished transfers in a history.
pub open spec fn sum_done(l: Seq<LogLine>) -> int
    decreases l.len(),
{
    if l.len() == 0 {
        0
    } else {
        sum_done(l.drop_last()) + match l.last() {
            LogLine::UsedShared(b, _) => b as int,
            _ => 0,
        }
    }
}

/// The last announced total in a history, zero before any announcement.
pub open spec fn last_total(l: Seq<LogLine>) -> int
    decreases l.len(),
{
    if l.len() == 0 {
        0
    } else {
        match l.last() {
            LogLine::BytesToDownload(b) => b as int,
            _ => last_total(l.drop_last()),
        }
    }
}

/// `x` clamped to the unsigned 64-bit range from above.
pub open spec fn sat64(x: int) -> int {
    if x > u64::MAX as int {
        u64::MAX as int
    } else {
        x
    }
}

/// The event counts of a history stay within its length, and its sums stay
/// non-negative.
proof fn lemma_fold_bounds(l: Seq<LogLine>)
    ensures
        0 <= count_stale(l) <= l.len(),
        0 <= count_done(l) <= l.len(),
        0 <= sum_done(l),
        0 <= last_total(l),
    decreases l.len(),
{
    if l.len() > 0 {
        lemma_fold_bounds(l.drop_last());
    }
}

/// Folds a history of parsed lines into the running aggregate: how many
/// files were reported stale, the last announced byte total, and the count
/// and byte sum of finished transfers, the sum saturating at the 64-bit
/// limit rather than overflowing.
pub fn fold_lines(lines: &Vec<LogLine>) -> (r: Progress)
    ensures
        r.files_pending_total as int == count_stale(lines@),
        r.bytes_total as int == last_total(lines@),
        r.files_completed as int == count_done(lines@),
        r.bytes_completed as int == sat64(sum_done(lines@)),
{
    let n = lines.len();
    let mut files_pending_total: u64 = 0;
    let mut bytes_total: u64 = 0;
    let mut files_completed: u64 = 0;
    let mut bytes_completed: u64 = 0;
    let mut i: usize = 0;
    proof {
        assert(lines@.subrange(0, 0) =~= Seq::<LogLine>::empty());
    }
    while i < n
        invariant
            n == lines@.len(),
            i <= n,
            files_pending_total as int == count_stale(lines@.subrange(0, i as int)),
            bytes_total as int == last_total(lines@.subrange(0, i as int)),
            files_completed as int == count_done(lines@.subrange(0, i as int)),
            bytes_completed as int == sat64(sum_done(lines@.subrange(0, i as int))),
        decreases n - i,
    {
        proof {
            let pre = lines@.subrange(0, i as int);
            assert(lines@.subrange(0, i as int + 1).drop_last() =~= pre);
            assert(lines@.subrange(0, i as int + 1).last() == lines@[i as int]);
            lemma_fold_bounds(pre);
        }
        match &lines[i] {
            LogLine::HashMismatch(_) => {
                files_pending_total = files_pending_total + 1;
            },
            LogLine::BytesToDownload(b) => {
                bytes_total = *b;
            },
            LogLine::UsedShared(b, _) => {
                files_completed = files_completed + 1;
                bytes_completed = match bytes_completed.checked_add(*b) {
                    Some(v) => v,
                    None => u64::MAX,
                };
            },
            LogLine::Unknown(_) => {},
        }
        i += 1;
    }
    proof {
        assert(lines@.subrange(0, n as int) =~= lines@);
    }
    Progress { files_pending_total, bytes_total, files_completed, bytes_completed }
}

/// Index of the first line announcing a total, from position `i` on.
pub open spec fn first_announce_from(lines: Seq<String>, i: int) -> Option<int>
    decreases lines.len() - i,
{
    if !(0 <= i < lines.len()) {
        None
    } else if spec_parse_line(lines[i]@) is Announce {
        Some(i)
    } else {
        first_announce_from(lines, i + 1)
    }
}

/// Stale-file lines among the first `k` lines.
pub open spec fn count_stale_lines(lines: Seq<String>, k: int) -> int
    decreases k,
{
    if k <= 0 {
        0
    } else {
        count_stale_lines(lines, k - 1) + if spec_parse_line(lines[k - 1]@) is Stale {
            1int
        } else {
            0
        }
    }
}

/// What probing a stream of log lines reports.
#[derive(Debug, PartialEq, Eq)]
pub struct ProbeReport {
    /// Stale files seen before the total was announced.
    pub files_pending: u64,
    /// The first announced total, or nothing if the stream ended first —
    /// no update is needed then.
    pub bytes_total: Option<u64>,
}

/// Stale lines among the first `k` are at most `k`.
proof fn lemma_count_stale_lines_bound(lines: Seq<String>, k: int)
    ensures
        0 <= count_stale_lines(lines, k) <= if k <= 0 {
            0int
        } else {
            k
        },
    decreases k,
{
    if k > 0 {
        lemma_count_stale_lines_bound(lines, k - 1);
    }
}

/// Probe mode: reads lines only until the first announced total, counting
/// the stale files seen on the way, and stops there. A stream that ends
/// before any total is announced reports none — no update is needed — and
/// is never an error.
pub fn probe_lines(lines: &Vec<String>) -> (r: ProbeReport)
    ensures
        match first_announce_from(lines@, 0) {
            Some(i) => {
                &&& r.bytes_total matches Some(b) && spec_parse_line(lines@[i]@) == (
                LineEvent::Announce(b as int))
                &&& r.files_pending as int == count_stale_lines(lines@, i)
            },
            None => r.bytes_total is None && r.files_pending as int == count_stale_lines(
                lines@,
                lines@.len() as int,
            ),
        },
{
    let n = lines.len();
    let mut files_pending: u64 = 0;
    let mut i: usize = 0;
    while i < n
        invariant
            n == lines@.len(),
            i <= n,
            first_announce_from(lines@, 0) == first_announce_from(lines@, i as int),
            forall|j: int| 0 <= j < i ==> !(spec_parse_line(lines@[j]@) is Announce),
            files_pending as int == count_stale_lines(lines@, i as int),
        decreases n - i,
    {
        proof {
            lemma_count_stale_lines_bound(lines@, i as int);
        }
        match parse_line(lines[i].as_str()) {
            LogLine::BytesToDownload(b) => {
                return ProbeReport { files_pending, bytes_total: Some(b) };
            },
            LogLine::HashMismatch(_) => {
                files_pending = files_pending + 1;
            },
            _ => {},
        }
        i += 1;
    }
    ProbeReport { files_pending, bytes_total: None }
}

/// Law: probing a stream that announces no total reports none — "no update
/// needed" — rather than an error or a made-up total.
pub proof fn lemma_probe_no_announce(lines: Seq<String>)
    requires
        forall|i: int| 0 <= i < lines.len() ==> !(spec_parse_line(#[trigger] lines[i]@) is Announce),
    ensures
        first_announce_from(lines, 0) is None,
{
    lemma_no_announce_from(lines, 0);
}

proof fn lemma_no_announce_from(lines: Seq<String>, i: int)
    requires
        0 <= i,
        forall|j: int| 0 <= j < lines.len() ==> !(spec_parse_line(#[trigger] lines[j]@) is Announce),
    ensures
        first_announce_from(lines, i) is None,
    decreases lines.len() - i,
{
    if i < lines.len() {
        lemma_no_announce_from(lines, i + 1);
    }
}

} // verus!
