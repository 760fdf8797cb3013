//! The file sink's decisions: where a line goes, the daily file name, when and
//! how size rotation shifts backups, and which stale daily files are removed.
use vstd::prelude::*;
use chrono::Datelike;
use crate::json::{digit, digit_char, nat_text, write_nat};
use crate::text::{is_prefix, is_suffix, lex_lt, push_all, push_char, starts_with_str, ends_with_str, lex_less};
use crate::types::{EnvConfig, OutputTarget};

verus! {

/// A calendar date (proleptic Gregorian, UTC).
#[derive(Clone, Copy, Debug, PartialEq, Eq, Structural)]
pub struct CivilDate {
    pub year: i32,
    pub month: u8,
    pub day: u8,
}

impl CivilDate {
    /// Month and day are in range.
    pub open spec fn wf(&self) -> bool {
        1 <= self.month <= 12 && 1 <= self.day <= 31
    }
}

/// Relies on `std::time::SystemTime::now`, chrono's
/// `From<SystemTime> for DateTime<Utc>` (which also accepts a clock set before
/// 1970) and `NaiveDate`'s `year`, `month` and `day`: today's date in UTC,
/// whose month lies in 1..=12 and day in 1..=31.
#[verifier::external_body]
fn utc_today() -> (r: CivilDate)
    ensures
        r.wf(),
{
    let now: chrono::DateTime<chrono::Utc> = std::time::SystemTime::now().into();
    let d = now.date_naive();
    CivilDate { year: d.year(), month: d.month() as u8, day: d.day() as u8 }
}

/// Ten to the power `w`.
pub open spec fn pow10(w: nat) -> nat
    decreases w,
{
    if w == 0 {
        1
    } else {
        10 * pow10((w - 1) as nat)
    }
}

/// The last `w` decimal digits of `n`, leading zeros included.
pub open spec fn fixed_digits(n: nat, w: nat) -> Seq<char>
    decreases w,
{
    if w == 0 {
        Seq::empty()
    } else {
        fixed_digits(n / 10, (w - 1) as nat).push(digit(n % 10))
    }
}

/// `n` written with at least `width` digits, zero-padded on the left.
pub open spec fn padded(n: nat, width: nat) -> Seq<char> {
    if n < pow10(width) {
        fixed_digits(n, width)
    } else {
        nat_text(n)
    }
}

/// The year as `%Y` writes it: four digits for years 0 to 9999, otherwise
/// with an explicit sign.
pub open spec fn year_text(y: int) -> Seq<char> {
    if y < 0 {
        seq!['-'] + padded((-y) as nat, 4)
    } else if y > 9999 {
        seq!['+'] + nat_text(y as nat)
    } else {
        padded(y as nat, 4)
    }
}

/// The date as `YYYY-MM-DD`.
pub open spec fn date_text(d: CivilDate) -> Seq<char> {
    year_text(d.year as int) + seq!['-'] + padded(d.month as nat, 2) + seq!['-'] + padded(d.day as nat, 2)
}

fn write_fixed(n: u64, width: usize, out: &mut String)
    ensures
        final(out)@ == old(out)@ + fixed_digits(n as nat, width as nat),
    decreases width,
{
    if width > 0 {
        write_fixed(n / 10, width - 1, out);
        push_char(out, digit_char(n % 10));
    }
}

fn write_padded(n: u64, width: usize, out: &mut String)
    requires
        width <= 4,
    ensures
        final(out)@ == old(out)@ + padded(n as nat, width as nat),
{
    let mut limit: u64 = 1;
    let mut i: usize = 0;
    while i < width
        invariant
            i <= width <= 4,
            limit == pow10(i as nat),
            limit <= 10000,
        decreases width - i,
    {
        proof {
            assert(pow10((i + 1) as nat) == 10 * pow10(i as nat));
            if i < 4 {
                assert(pow10(i as nat) <= 1000) by {
                    reveal_with_fuel(pow10, 4);
                }
            }
        }
        limit = limit * 10;
        i = i + 1;
    }
    if n < limit {
        write_fixed(n, width, out);
    } else {
        write_nat(n, out);
    }
}

/// Appends the date as `YYYY-MM-DD`.
pub fn write_date(d: CivilDate, out: &mut String)
    ensures
        final(out)@ == old(out)@ + date_text(d),
{
    let ghost s0 = out@;
    if d.year < 0 {
        push_char(out, '-');
        let y: i64 = -(d.year as i64);
        write_padded(y as u64, 4, out);
    } else if d.year > 9999 {
        push_char(out, '+');
        write_nat(d.year as u64, out);
    } else {
        write_padded(d.year as u64, 4, out);
    }
    assert(out@ =~= s0 + year_text(d.year as int));
    let ghost s1 = out@;
    push_char(out, '-');
    write_padded(d.month as u64, 2, out);
    push_char(out, '-');
    write_padded(d.day as u64, 2, out);
    assert(out@ =~= s1 + (seq!['-'] + padded(d.month as nat, 2) + seq!['-'] + padded(d.day as nat, 2)));
    assert(out@ =~= s0 + date_text(d));
}

/// The position just after the last `c` in `s`, or 0 when there is none.
pub open spec fn after_last(s: Seq<char>, c: char) -> nat
    decreases s.len(),
{
    if s.len() == 0 {
        0
    } else if s.last() == c {
        s.len()
    } else {
        after_last(s.drop_last(), c)
    }
}

/// The directory part of a path, up to and including its last `/`.
pub open spec fn dir_prefix(p: Seq<char>) -> Seq<char> {
    p.subrange(0, after_last(p, '/') as int)
}

/// The file name: what follows the last `/`.
pub open spec fn file_name_of(p: Seq<char>) -> Seq<char> {
    p.subrange(after_last(p, '/') as int, p.len() as int)
}

/// The stem of a file name: the part before its last `.`, or the whole name
/// when it has no `.` past its first character; `log` for an empty name or `..`.
pub open spec fn stem_of(name: Seq<char>) -> Seq<char> {
    if name.len() == 0 || name == seq!['.', '.'] {
        seq!['l', 'o', 'g']
    } else if after_last(name, '.') <= 1 {
        name
    } else {
        name.subrange(0, after_last(name, '.') - 1)
    }
}

/// The extension of a file name: the part after its last `.`; `log` when the
/// name has no `.` past its first character, is empty, or is `..`.
pub open spec fn ext_of(name: Seq<char>) -> Seq<char> {
    if name.len() == 0 || name == seq!['.', '.'] || after_last(name, '.') <= 1 {
        seq!['l', 'o', 'g']
    } else {
        name.subrange(after_last(name, '.') as int, name.len() as int)
    }
}

/// The name of the daily file for `base` on date `d`: `<stem>_<YYYY-MM-DD>.<ext>`.
pub open spec fn daily_name(base: Seq<char>, d: CivilDate) -> Seq<char> {
    daily_prefix(base) + date_text(d) + daily_suffix(base)
}

/// The daily file for `base` on date `d`, beside `base`: `<dir>/<stem>_<YYYY-MM-DD>.<ext>`.
pub open spec fn daily_path(base: Seq<char>, d: CivilDate) -> Seq<char> {
    dir_prefix(base) + daily_name(base, d)
}

/// The prefix every daily file of `base` starts with: `<stem>_`.
pub open spec fn daily_prefix(base: Seq<char>) -> Seq<char> {
    stem_of(file_name_of(base)) + seq!['_']
}

/// The suffix every daily file of `base` ends with: `.<ext>`.
pub open spec fn daily_suffix(base: Seq<char>) -> Seq<char> {
    seq!['.'] + ext_of(file_name_of(base))
}

fn find_after_last(s: &str, c: char) -> (r: usize)
    ensures
        r == after_last(s@, c),
{
    let n = s.unicode_len();
    let mut i: usize = n;
    assert(s@.subrange(0, n as int) =~= s@);
    while i > 0
        invariant
            n == s@.len(),
            i <= n,
            after_last(s@, c) == after_last(s@.subrange(0, i as int), c),
        decreases i,
    {
        let ch = s.get_char(i - 1);
        if ch == c {
            return i;
        }
        assert(s@.subrange(0, i as int).drop_last() =~= s@.subrange(0, i - 1));
        i = i - 1;
    }
    0
}

proof fn lemma_after_last_bound(s: Seq<char>, c: char)
    ensures
        after_last(s, c) <= s.len(),
        after_last(s, c) > 0 ==> s[after_last(s, c) - 1] == c,
    decreases s.len(),
{
    if s.len() > 0 && s.last() != c {
        lemma_after_last_bound(s.drop_last(), c);
    }
}

/// The stem and extension of the file name of `base`.
pub fn stem_and_ext(base: &str) -> (r: (String, String))
    ensures
        r.0@ == stem_of(file_name_of(base@)),
        r.1@ == ext_of(file_name_of(base@)),
{
    proof {
        reveal_strlit("log");
        lemma_after_last_bound(base@, '/');
    }
    let n = base.unicode_len();
    let start = find_after_last(base, '/');
    let name = base.substring_char(start, n);
    let m = name.unicode_len();
    let is_dotdot = m == 2 && name.get_char(0) == '.' && name.get_char(1) == '.';
    proof {
        if is_dotdot {
            assert(name@ =~= seq!['.', '.']);
        }
        if m == 2 && name@ == seq!['.', '.'] {
            assert(name@[0] == '.' && name@[1] == '.');
        }
        assert("log"@ =~= seq!['l', 'o', 'g']);
        lemma_after_last_bound(name@, '.');
    }
    if m == 0 || is_dotdot {
        return (String::from_str("log"), String::from_str("log"));
    }
    let dot = find_after_last(name, '.');
    if dot <= 1 {
        (name.to_owned(), String::from_str("log"))
    } else {
        (name.substring_char(0, dot - 1).to_owned(), name.substring_char(dot, m).to_owned())
    }
}

/// The path of the daily file of `base` for date `d`.
pub fn daily_file_path(base: &str, d: CivilDate) -> (r: String)
    ensures
        r@ == daily_path(base@, d),
{
    proof { lemma_after_last_bound(base@, '/'); }
    let start = find_after_last(base, '/');
    let (stem, ext) = stem_and_ext(base);
    let mut out = base.substring_char(0, start).to_owned();
    push_all(&mut out, stem.as_str());
    push_char(&mut out, '_');
    write_date(d, &mut out);
    push_char(&mut out, '.');
    push_all(&mut out, ext.as_str());
    assert(out@ =~= daily_path(base@, d));
    out
}

/// The size limit that triggers rotation when none is configured: 10 MiB.
pub open spec fn default_max_size() -> int {
    10485760int
}

/// The configured size limit, or the default.
pub open spec fn max_size_of(c: EnvConfig) -> int {
    match c.output.max_file_size {
        Some(m) => m as int,
        None => default_max_size(),
    }
}

/// A file of `len` bytes is rotated before the next write when the limit is
/// not negative and the length has reached it. A file that does not exist
/// (`None`) is never rotated.
pub open spec fn rotation_due(len: Option<u64>, c: EnvConfig) -> bool {
    match len {
        Some(l) => max_size_of(c) >= 0 && l as int >= max_size_of(c),
        None => false,
    }
}

/// Should the current file, whose length is `file_len` (`None` when it does
/// not exist or cannot be read), be rotated before the next write?
pub fn should_rotate(file_len: Option<u64>, config: &EnvConfig) -> (r: bool)
    ensures
        r == rotation_due(file_len, *config),
{
    let max_size: i64 = match config.output.max_file_size {
        Some(m) => m,
        None => 10 * 1024 * 1024,
    };
    match file_len {
        Some(len) => max_size >= 0 && len >= max_size as u64,
        None => false,
    }
}

/// The number of size-rotation backups kept: the configured one, or 3.
pub open spec fn size_backups(c: EnvConfig) -> nat {
    match c.output.max_backups {
        Some(k) => k as nat,
        None => 3,
    }
}

/// The number of daily files kept: the configured one, or 7.
pub open spec fn daily_backups(c: EnvConfig) -> nat {
    match c.output.max_backups {
        Some(k) => k as nat,
        None => 7,
    }
}

/// The file of rotation slot `i` of `path`: the path itself for slot 0, and
/// `<path>.<i>` for backup `i`.
pub open spec fn slot_name(path: Seq<char>, i: nat) -> Seq<char> {
    if i == 0 {
        path
    } else {
        path + seq!['.'] + nat_text(i)
    }
}

fn slot_file(path: &str, i: u8) -> (r: String)
    ensures
        r@ == slot_name(path@, i as nat),
{
    let mut out = path.to_owned();
    if i > 0 {
        push_char(&mut out, '.');
        write_nat(i as u64, &mut out);
    }
    out
}

/// The renames of one size rotation of `path`, in the order they are made:
/// backup `i - 1` (the path itself for `i = 1`) becomes backup `i`, for `i`
/// from the number of kept backups down to 1. Each applies only when its
/// source exists; the oldest backup is overwritten.
pub fn rotate_logs(path: &str, config: &EnvConfig) -> (r: Vec<(String, String)>)
    ensures
        r@.len() == size_backups(*config),
        forall|j: int| 0 <= j < r@.len() ==> {
            &&& (#[trigger] r@[j]).0@ == slot_name(path@, (size_backups(*config) - 1 - j) as nat)
            &&& r@[j].1@ == slot_name(path@, (size_backups(*config) - j) as nat)
        },
{
    let k: u8 = match config.output.max_backups {
        Some(k) => k,
        None => 3,
    };
    let mut r: Vec<(String, String)> = Vec::new();
    let mut i: u8 = k;
    while i > 0
        invariant
            k as nat == size_backups(*config),
            i <= k,
            r@.len() == k - i,
            forall|j: int| 0 <= j < r@.len() ==> {
                &&& (#[trigger] r@[j]).0@ == slot_name(path@, (k - 1 - j) as nat)
                &&& r@[j].1@ == slot_name(path@, (k - j) as nat)
            },
        decreases i,
    {
        let src = slot_file(path, i - 1);
        let dst = slot_file(path, i);
        r.push((src, dst));
        i = i - 1;
    }
    r
}

/// `name` is a daily file of `base`: it starts with `<stem>_` and ends with `.<ext>`.
pub open spec fn is_daily_name(base: Seq<char>, name: Seq<char>) -> bool {
    is_prefix(daily_prefix(base), name) && is_suffix(daily_suffix(base), name)
}

/// The daily files of `base` among `names`, in their order.
pub open spec fn daily_files(base: Seq<char>, names: Seq<Seq<char>>) -> Seq<Seq<char>> {
    names.filter(|n: Seq<char>| is_daily_name(base, n))
}

/// The names in `ms` that come after `x` in lexicographic order.
pub open spec fn later_than(ms: Seq<Seq<char>>, x: Seq<char>) -> Seq<Seq<char>> {
    ms.filter(|y: Seq<char>| lex_lt(x, y))
}

/// The names in `ms` with at least `keep` names after them: all but the
/// `keep` newest (for distinct names).
pub open spec fn stale(ms: Seq<Seq<char>>, keep: nat) -> Seq<Seq<char>> {
    stale_among(ms, ms, keep)
}

/// The names of `part` with at least `keep` names of `ms` after them.
pub open spec fn stale_among(ms: Seq<Seq<char>>, part: Seq<Seq<char>>, keep: nat) -> Seq<Seq<char>> {
    part.filter(|x: Seq<char>| later_than(ms, x).len() >= keep)
}

pub open spec fn names_view(v: Vec<String>) -> Seq<Seq<char>> {
    Seq::new(v@.len(), |i: int| v@[i]@)
}

proof fn lemma_filter_step(s: Seq<Seq<char>>, f: spec_fn(Seq<char>) -> bool, i: int)
    requires
        0 <= i < s.len(),
    ensures
        s.take(i + 1).filter(f) == if f(s[i]) {
            s.take(i).filter(f).push(s[i])
        } else {
            s.take(i).filter(f)
        },
{
    reveal(Seq::filter);
    assert(s.take(i + 1).drop_last() =~= s.take(i));
}

fn daily_names(names: &Vec<String>, prefix: &str, suffix: &str, base: Ghost<Seq<char>>) -> (r: Vec<String>)
    requires
        prefix@ == daily_prefix(base@),
        suffix@ == daily_suffix(base@),
    ensures
        names_view(r) == daily_files(base@, names_view(*names)),
{
    let ghost all = names_view(*names);
    let mut r: Vec<String> = Vec::new();
    let mut i: usize = 0;
    assert(all.take(0).filter(|n: Seq<char>| is_daily_name(base@, n)) =~= Seq::empty()) by {
        reveal(Seq::filter);
    }
    while i < names.len()
        invariant
            all == names_view(*names),
            prefix@ == daily_prefix(base@),
            suffix@ == daily_suffix(base@),
            i <= names@.len(),
            names_view(r) == daily_files(base@, all.take(i as int)),
        decreases names@.len() - i,
    {
        proof { lemma_filter_step(all, |n: Seq<char>| is_daily_name(base@, n), i as int); }
        let ghost before = names_view(r);
        if starts_with_str(names[i].as_str(), prefix) && ends_with_str(names[i].as_str(), suffix) {
            r.push(names[i].clone());
            assert(names_view(r) =~= before.push(all[i as int]));
        } else {
            assert(names_view(r) =~= before);
        }
        i = i + 1;
    }
    assert(all.take(names@.len() as int) =~= all);
    r
}

fn count_later(ms: &Vec<String>, x: &String) -> (r: usize)
    ensures
        r == later_than(names_view(*ms), x@).len(),
{
    let ghost all = names_view(*ms);
    let mut c: usize = 0;
    let mut i: usize = 0;
    assert(all.take(0).filter(|y: Seq<char>| lex_lt(x@, y)) =~= Seq::empty()) by {
        reveal(Seq::filter);
    }
    while i < ms.len()
        invariant
            all == names_view(*ms),
            i <= ms@.len(),
            c == later_than(all.take(i as int), x@).len(),
            c <= i,
        decreases ms@.len() - i,
    {
        proof { lemma_filter_step(all, |y: Seq<char>| lex_lt(x@, y), i as int); }
        if lex_less(x.as_str(), ms[i].as_str()) {
            c = c + 1;
        }
        i = i + 1;
    }
    assert(all.take(ms@.len() as int) =~= all);
    c
}

/// The daily files to delete before a write: among `names` (the file names in
/// the directory of the configured path), the daily files of that path with
/// at least the kept number of daily files after them in lexicographic,
/// hence chronological, order.
pub fn cleanup_old_daily_logs(names: &Vec<String>, config: &EnvConfig) -> (r: Vec<String>)
    ensures
        names_view(r) == match config.output.file_path {
            Some(base) => stale(daily_files(base@, names_view(*names)), daily_backups(*config)),
            None => Seq::empty(),
        },
{
    let base = match &config.output.file_path {
        Some(b) => b,
        None => {
            let r: Vec<String> = Vec::new();
            assert(names_view(r) =~= Seq::empty());
            return r;
        },
    };
    let keep: usize = match config.output.max_backups {
        Some(k) => k as usize,
        None => 7,
    };
    let (stem, ext) = stem_and_ext(base.as_str());
    let mut prefix = stem;
    push_char(&mut prefix, '_');
    assert(prefix@ =~= daily_prefix(base@));
    let mut suffix = String::new();
    push_char(&mut suffix, '.');
    push_all(&mut suffix, ext.as_str());
    assert(suffix@ =~= daily_suffix(base@));
    let ms = daily_names(names, prefix.as_str(), suffix.as_str(), Ghost(base@));
    let ghost all = names_view(ms);
    let mut r: Vec<String> = Vec::new();
    let mut i: usize = 0;
    assert(stale_among(all, all.take(0), keep as nat) =~= Seq::empty()) by {
        reveal(Seq::filter);
    }
    while i < ms.len()
        invariant
            all == names_view(ms),
            keep == daily_backups(*config),
            i <= ms@.len(),
            names_view(r) == stale_among(all, all.take(i as int), keep as nat),
        decreases ms@.len() - i,
    {
        proof { lemma_filter_step(all, |x: Seq<char>| later_than(all, x).len() >= keep as nat, i as int); }
        let ghost before = names_view(r);
        if count_later(&ms, &ms[i]) >= keep {
            r.push(ms[i].clone());
            assert(names_view(r) =~= before.push(all[i as int]));
        } else {
            assert(names_view(r) =~= before);
        }
        i = i + 1;
    }
    assert(all.take(ms@.len() as int) =~= all);
    r
}

/// What to do on disk before appending a line to a log file.
#[derive(Clone, Copy, Debug, PartialEq, Eq, Structural)]
pub enum BeforeAppend {
    /// Daily mode: remove the stale daily files ([`cleanup_old_daily_logs`]).
    RemoveStaleDaily,
    /// Size mode: rotate the file when it is due ([`should_rotate`],
    /// [`rotate_logs`]).
    RotateIfDue,
}

/// What to do with one rendered line.
#[derive(Debug)]
pub enum OutputPlan {
    /// Write the line and a newline to standard output.
    Stdout(String),
    /// Write the line and a newline to standard error.
    Stderr(String),
    /// Drop the line.
    Discard,
    /// The target is a file but no path, or an empty one, is configured:
    /// report it on standard error and drop the line.
    MissingPath,
    /// Do `before`, then append the line to the file at `path`.
    AppendFile { path: String, line: String, before: BeforeAppend },
}

/// Is daily rotation on?
pub open spec fn is_daily(c: EnvConfig) -> bool {
    c.output.rotate_daily == Some(true)
}

/// `p` is the plan for writing `line` under `c` on date `today`.
pub open spec fn plan_for(c: EnvConfig, line: Seq<char>, today: CivilDate, p: OutputPlan) -> bool {
    match c.output.target {
        OutputTarget::Stdout => p matches OutputPlan::Stdout(l) && l@ == line,
        OutputTarget::Stderr => p matches OutputPlan::Stderr(l) && l@ == line,
        OutputTarget::Null => p is Discard,
        OutputTarget::File => match c.output.file_path {
            Some(base) if base@.len() > 0 => p matches OutputPlan::AppendFile { path, line: l, before } && {
                &&& l@ == line
                &&& before == if is_daily(c) { BeforeAppend::RemoveStaleDaily } else { BeforeAppend::RotateIfDue }
                &&& path@ == if is_daily(c) { daily_path(base@, today) } else { base@ }
            },
            _ => p is MissingPath,
        },
    }
}

/// The plan for writing `message` under `config` on date `today`.
pub fn plan_output(config: &EnvConfig, message: &str, today: CivilDate) -> (r: OutputPlan)
    ensures
        plan_for(*config, message@, today, r),
{
    match config.output.target {
        OutputTarget::Stdout => OutputPlan::Stdout(message.to_owned()),
        OutputTarget::Stderr => OutputPlan::Stderr(message.to_owned()),
        OutputTarget::Null => OutputPlan::Discard,
        OutputTarget::File => match &config.output.file_path {
            None => OutputPlan::MissingPath,
            Some(base) => {
                if base.unicode_len() == 0 {
                    return OutputPlan::MissingPath;
                }
                if config.output.rotate_daily == Some(true) {
                    let path = daily_file_path(base.as_str(), today);
                    OutputPlan::AppendFile { path, line: message.to_owned(), before: BeforeAppend::RemoveStaleDaily }
                } else {
                    OutputPlan::AppendFile { path: base.clone(), line: message.to_owned(), before: BeforeAppend::RotateIfDue }
                }
            },
        },
    }
}

/// The plan for writing `message` under `config` today (UTC).
pub fn write_output(config: &EnvConfig, message: &str) -> (r: OutputPlan)
    ensures
        exists|d: CivilDate| d.wf() && plan_for(*config, message@, d, r),
{
    // The date only names daily files; no clock is read for other targets.
    let daily_file = config.output.target == OutputTarget::File && config.output.rotate_daily == Some(true);
    let today = if daily_file {
        utc_today()
    } else {
        CivilDate { year: 1970, month: 1, day: 1 }
    };
    let r = plan_output(config, message, today);
    assert(today.wf() && plan_for(*config, message@, today, r));
    r
}

// The files of a size-rotated log are modelled as slots (0 for the current
// file, `i` for backup `i`), each holding the generation of lines written
// into it.

/// The rename of slot `i - 1` into slot `i`, made only when slot `i - 1` exists.
pub open spec fn shift_slot(fs: Map<nat, nat>, i: nat) -> Map<nat, nat> {
    if i >= 1 && fs.contains_key((i - 1) as nat) {
        fs.insert(i, fs[(i - 1) as nat]).remove((i - 1) as nat)
    } else {
        fs
    }
}

/// The renames for slots `i`, `i - 1`, ..., 1, in that order.
pub open spec fn shifts_down(fs: Map<nat, nat>, i: nat) -> Map<nat, nat>
    decreases i,
{
    if i == 0 {
        fs
    } else {
        shifts_down(shift_slot(fs, i), (i - 1) as nat)
    }
}

/// A write of generation `g`: a missing current file is created with it, an
/// existing one keeps its generation.
pub open spec fn write_generation(fs: Map<nat, nat>, g: nat) -> Map<nat, nat> {
    if fs.contains_key(0) {
        fs
    } else {
        fs.insert(0, g)
    }
}

/// The slots after generation 0 was written, then, for each later generation
/// `g` up to `n`, a rotation keeping `k` backups followed by a write of `g`.
pub open spec fn rotation_cycles(k: nat, n: nat) -> Map<nat, nat>
    decreases n,
{
    if n == 0 {
        map![0nat => 0nat]
    } else {
        write_generation(shifts_down(rotation_cycles(k, (n - 1) as nat), k), n)
    }
}

pub open spec fn min_nat(a: nat, b: nat) -> nat {
    if a <= b { a } else { b }
}

/// After `m` cycles: slots 0 up to `min(m, k)`, slot `t` holding generation `m - t`.
pub open spec fn cycled(k: nat, m: nat) -> Map<nat, nat> {
    Map::new(|t: nat| t <= min_nat(m, k), |t: nat| (m - t) as nat)
}

/// The slots part way through a rotation of `cycled(k, m)`, before the rename
/// into slot `j`.
spec fn rotating(k: nat, m: nat, j: nat) -> Map<nat, nat> {
    Map::new(
        |t: nat|
            if t < j {
                t <= min_nat(m, k)
            } else if t == j {
                j == k && k <= m
            } else {
                t <= k && t - 1 <= min_nat(m, k)
            },
        |t: nat| if t <= j { (m - t) as nat } else { (m - t + 1) as nat },
    )
}

proof fn lemma_rotating_step(k: nat, m: nat, j: nat)
    requires
        1 <= j <= k,
    ensures
        shift_slot(rotating(k, m, j), j) == rotating(k, m, (j - 1) as nat),
{
    let a = shift_slot(rotating(k, m, j), j);
    let b = rotating(k, m, (j - 1) as nat);
    assert(a =~= b);
}

proof fn lemma_rotating_down(k: nat, m: nat, j: nat)
    requires
        j <= k,
    ensures
        shifts_down(rotating(k, m, j), j) == rotating(k, m, 0),
    decreases j,
{
    if j > 0 {
        lemma_rotating_step(k, m, j);
        lemma_rotating_down(k, m, (j - 1) as nat);
    }
}

proof fn lemma_cycles_closed_form(k: nat, n: nat)
    requires
        k >= 1,
    ensures
        rotation_cycles(k, n) == cycled(k, n),
    decreases n,
{
    if n == 0 {
        assert(rotation_cycles(k, 0) =~= cycled(k, 0));
    } else {
        let m = (n - 1) as nat;
        lemma_cycles_closed_form(k, m);
        assert(rotating(k, m, k) =~= cycled(k, m));
        lemma_rotating_down(k, m, k);
        assert(write_generation(rotating(k, m, 0), n) =~= cycled(k, n));
    }
}

proof fn lemma_no_backups(n: nat)
    ensures
        rotation_cycles(0, n) == map![0nat => 0nat],
    decreases n,
{
    if n > 0 {
        lemma_no_backups((n - 1) as nat);
    }
}

/// Size rotation keeps the newest backups: with `k >= 1` backups kept, after
/// the file has reached its limit `k + 1` times (each time rotated, then
/// written again), exactly slots 0 to `k` exist (the current file and `k`
/// backups), backup `t` holds the generation written `t` rotations ago, and
/// the first generation, the oldest, is gone. With no backup kept, the
/// current file is never moved.
pub proof fn lemma_size_rotation_keeps_newest(k: nat)
    ensures
        k >= 1 ==> {
            let fs = rotation_cycles(k, k + 1);
            &&& forall|t: nat| fs.contains_key(t) <==> t <= k
            &&& forall|t: nat| t <= k ==> fs[t] == k + 1 - t
            &&& forall|t: nat| fs.contains_key(t) ==> fs[t] != 0
        },
        k == 0 ==> rotation_cycles(0, 1) == map![0nat => 0nat],
{
    if k >= 1 {
        lemma_cycles_closed_form(k, k + 1);
    } else {
        lemma_no_backups(1);
    }
}

/// Two numbers with the same decimal notation are equal.
pub proof fn lemma_nat_text_injective(a: nat, b: nat)
    requires
        nat_text(a) == nat_text(b),
    ensures
        a == b,
    decreases a,
{
    if a >= 10 && b >= 10 {
        let ta = nat_text(a);
        let tb = nat_text(b);
        assert(ta.drop_last() =~= nat_text(a / 10));
        assert(tb.drop_last() =~= nat_text(b / 10));
        lemma_nat_text_injective(a / 10, b / 10);
        assert(ta.last() == digit(a % 10));
        assert(tb.last() == digit(b % 10));
        lemma_digit_injective(a % 10, b % 10);
        assert(a == 10 * (a / 10) + a % 10) by (nonlinear_arith);
        assert(b == 10 * (b / 10) + b % 10) by (nonlinear_arith);
    } else if a >= 10 {
        lemma_nat_text_len(a / 10);
        assert(nat_text(a).len() == nat_text(a / 10).len() + 1);
        assert(nat_text(b).len() == 1);
    } else if b >= 10 {
        lemma_nat_text_len(b / 10);
        assert(nat_text(b).len() == nat_text(b / 10).len() + 1);
        assert(nat_text(a).len() == 1);
    } else {
        assert(nat_text(a)[0] == digit(a));
        assert(nat_text(b)[0] == digit(b));
        lemma_digit_injective(a, b);
    }
}

proof fn lemma_digit_injective(x: nat, y: nat)
    requires
        x < 10,
        y < 10,
        digit(x) == digit(y),
    ensures
        x == y,
{
}

proof fn lemma_nat_text_len(n: nat)
    ensures
        nat_text(n).len() >= 1,
    decreases n,
{
    if n >= 10 {
        lemma_nat_text_len(n / 10);
    }
}

/// Distinct rotation slots are distinct files.
pub proof fn lemma_slot_names_distinct(path: Seq<char>, i: nat, j: nat)
    requires
        i != j,
    ensures
        slot_name(path, i) != slot_name(path, j),
{
    if i > 0 && j > 0 {
        if slot_name(path, i) == slot_name(path, j) {
            let a = slot_name(path, i);
            let pre = path + seq!['.'];
            assert(a.subrange(pre.len() as int, a.len() as int) =~= nat_text(i));
            assert(slot_name(path, j).subrange(pre.len() as int, a.len() as int) =~= nat_text(j));
            lemma_nat_text_injective(i, j);
        }
    } else if i > 0 {
        assert(slot_name(path, i).len() > path.len());
    } else {
        assert(slot_name(path, j).len() > path.len());
    }
}

/// The names in `ms` with fewer than `keep` names after them: those a
/// cleanup leaves in place.
pub open spec fn kept(ms: Seq<Seq<char>>, keep: nat) -> Seq<Seq<char>> {
    ms.filter(|x: Seq<char>| later_than(ms, x).len() < keep)
}

/// Each name comes strictly before every later one.
pub open spec fn increasing(ms: Seq<Seq<char>>) -> bool {
    forall|i: int, j: int| 0 <= i < j < ms.len() ==> lex_lt(#[trigger] ms[i], #[trigger] ms[j])
}

/// The daily files after writing on each of the first `j` dates of `names`
/// (one file name per date): each write first removes the stale files, then
/// creates the file of its date.
pub open spec fn daily_run(names: Seq<Seq<char>>, keep: nat, j: nat) -> Seq<Seq<char>>
    decreases j,
{
    if j == 0 || j > names.len() {
        Seq::empty()
    } else {
        kept(daily_run(names, keep, (j - 1) as nat), keep).push(names[j - 1])
    }
}

proof fn lemma_lex_lt_irreflexive(a: Seq<char>)
    ensures
        !lex_lt(a, a),
    decreases a.len(),
{
    if a.len() > 0 {
        lemma_lex_lt_irreflexive(a.drop_first());
    }
}

proof fn lemma_lex_lt_asymmetric(a: Seq<char>, b: Seq<char>)
    requires
        lex_lt(a, b),
    ensures
        !lex_lt(b, a),
    decreases a.len(),
{
    if a.len() > 0 && b.len() > 0 && a[0] == b[0] {
        lemma_lex_lt_asymmetric(a.drop_first(), b.drop_first());
    }
}

/// A filter that keeps exactly the positions from `c` on keeps the suffix.
proof fn lemma_filter_from(ms: Seq<Seq<char>>, f: spec_fn(Seq<char>) -> bool, c: int)
    requires
        0 <= c <= ms.len(),
        forall|k: int| 0 <= k < ms.len() ==> (f(#[trigger] ms[k]) <==> k >= c),
    ensures
        ms.filter(f) == ms.skip(c),
    decreases ms.len(),
{
    reveal(Seq::filter);
    if ms.len() > 0 {
        let pre = ms.drop_last();
        if c < ms.len() {
            assert forall|k: int| 0 <= k < pre.len() implies (f(#[trigger] pre[k]) <==> k >= c) by {
                assert(pre[k] == ms[k]);
            }
            lemma_filter_from(pre, f, c);
            assert(ms.len() - 1 >= c);
            assert(pre.skip(c).push(ms.last()) =~= ms.skip(c));
        } else {
            assert forall|k: int| 0 <= k < pre.len() implies (f(#[trigger] pre[k]) <==> k >= ms.len() - 1) by {
                assert(pre[k] == ms[k]);
            }
            lemma_filter_from(pre, f, ms.len() - 1);
            assert(pre.skip(ms.len() - 1) =~= ms.skip(c));
        }
    } else {
        assert(ms.skip(c) =~= ms);
    }
}

/// In an increasing list, the names after the one at `i` are those at later positions.
proof fn lemma_later_count(ms: Seq<Seq<char>>, i: int)
    requires
        increasing(ms),
        0 <= i < ms.len(),
    ensures
        later_than(ms, ms[i]).len() == ms.len() - 1 - i,
{
    let x = ms[i];
    assert forall|k: int| 0 <= k < ms.len() implies ((|y: Seq<char>| lex_lt(x, y))(#[trigger] ms[k]) <==> k >= i + 1) by {
        if k < i {
            lemma_lex_lt_asymmetric(ms[k], ms[i]);
        } else if k == i {
            lemma_lex_lt_irreflexive(x);
        }
    }
    lemma_filter_from(ms, |y: Seq<char>| lex_lt(x, y), i + 1);
}

/// A cleanup of an increasing list keeps its last `keep` names.
pub proof fn lemma_kept_newest(ms: Seq<Seq<char>>, keep: nat)
    requires
        increasing(ms),
    ensures
        kept(ms, keep) == ms.skip(ms.len() - min_nat(ms.len(), keep)),
        stale(ms, keep) == ms.take(ms.len() - min_nat(ms.len(), keep)),
{
    let c = ms.len() - min_nat(ms.len(), keep);
    assert forall|k: int| 0 <= k < ms.len() implies ((|x: Seq<char>| later_than(ms, x).len() < keep)(#[trigger] ms[k]) <==> k >= c) by {
        lemma_later_count(ms, k);
    }
    lemma_filter_from(ms, |x: Seq<char>| later_than(ms, x).len() < keep, c);
    lemma_stale_prefix(ms, keep, c);
}

proof fn lemma_stale_prefix(ms: Seq<Seq<char>>, keep: nat, c: int)
    requires
        increasing(ms),
        c == ms.len() - min_nat(ms.len(), keep),
    ensures
        stale(ms, keep) == ms.take(c),
    decreases ms.len(),
{
    let f = |x: Seq<char>| later_than(ms, x).len() >= keep;
    assert forall|k: int| 0 <= k < ms.len() implies (f(#[trigger] ms[k]) <==> k < c) by {
        lemma_later_count(ms, k);
    }
    lemma_filter_upto(ms, f, c);
}

/// A filter that keeps exactly the positions before `c` keeps the prefix.
proof fn lemma_filter_upto(ms: Seq<Seq<char>>, f: spec_fn(Seq<char>) -> bool, c: int)
    requires
        0 <= c <= ms.len(),
        forall|k: int| 0 <= k < ms.len() ==> (f(#[trigger] ms[k]) <==> k < c),
    ensures
        ms.filter(f) == ms.take(c),
    decreases ms.len(),
{
    reveal(Seq::filter);
    if ms.len() > 0 {
        let pre = ms.drop_last();
        let c2 = if c == ms.len() { c - 1 } else { c };
        assert forall|k: int| 0 <= k < pre.len() implies (f(#[trigger] pre[k]) <==> k < c2) by {
            assert(pre[k] == ms[k]);
        }
        lemma_filter_upto(pre, f, c2);
        if c == ms.len() {
            assert(pre.take(c2).push(ms.last()) =~= ms.take(c));
        } else {
            assert(pre.take(c2) =~= ms.take(c));
        }
    } else {
        assert(ms.take(c) =~= ms);
    }
}

/// Daily cleanup keeps the newest files: writing on dates whose file names
/// increase, after `j` writes the files are those of the last `keep + 1`
/// dates (the `keep` kept by the last cleanup and the one just written), and
/// the cleanup before the next write removes all but the `keep` newest.
/// With `keep + 3` dates, exactly the `keep` most recent files then remain.
pub proof fn lemma_daily_cleanup_keeps_newest(names: Seq<Seq<char>>, keep: nat, j: nat)
    requires
        increasing(names),
        j <= names.len(),
    ensures
        daily_run(names, keep, j) == names.subrange(j - min_nat(j, keep + 1), j as int),
        kept(daily_run(names, keep, j), keep) == names.subrange(j - min_nat(j, keep), j as int),
        stale(daily_run(names, keep, j), keep) == names.subrange(
            j - min_nat(j, keep + 1),
            j - min_nat(j, keep),
        ),
    decreases j,
{
    let fs = daily_run(names, keep, j);
    if j == 0 {
        assert(fs =~= names.subrange(0, 0));
    } else {
        lemma_daily_cleanup_keeps_newest(names, keep, (j - 1) as nat);
        let prev = daily_run(names, keep, (j - 1) as nat);
        assert(fs == kept(prev, keep).push(names[j - 1]));
        assert(fs =~= names.subrange(j - min_nat(j, keep + 1), j as int));
    }
    let lo = j - min_nat(j, keep + 1);
    assert forall|a: int, b: int| 0 <= a < b < fs.len() implies lex_lt(#[trigger] fs[a], #[trigger] fs[b]) by {
        assert(fs[a] == names[lo + a]);
        assert(fs[b] == names[lo + b]);
    }
    lemma_kept_newest(fs, keep);
    assert(fs.skip(fs.len() - min_nat(fs.len(), keep)) =~= names.subrange(j - min_nat(j, keep), j as int));
    assert(fs.take(fs.len() - min_nat(fs.len(), keep)) =~= names.subrange(lo, j - min_nat(j, keep)));
}

/// A common prefix does not change the order.
proof fn lemma_lex_common_prefix(p: Seq<char>, a: Seq<char>, b: Seq<char>)
    ensures
        lex_lt(p + a, p + b) == lex_lt(a, b),
    decreases p.len(),
{
    if p.len() == 0 {
        assert(p + a =~= a);
        assert(p + b =~= b);
    } else {
        assert((p + a)[0] == p[0]);
        assert((p + b)[0] == p[0]);
        assert((p + a).drop_first() =~= p.drop_first() + a);
        assert((p + b).drop_first() =~= p.drop_first() + b);
        lemma_lex_common_prefix(p.drop_first(), a, b);
    }
}

/// Between texts of equal length the order is decided before any continuation.
proof fn lemma_lex_equal_length(a: Seq<char>, b: Seq<char>, qa: Seq<char>, qb: Seq<char>)
    requires
        a.len() == b.len(),
        lex_lt(a, b),
    ensures
        lex_lt(a + qa, b + qb),
    decreases a.len(),
{
    assert((a + qa)[0] == a[0]);
    assert((b + qb)[0] == b[0]);
    if a[0] == b[0] {
        assert((a + qa).drop_first() =~= a.drop_first() + qa);
        assert((b + qb).drop_first() =~= b.drop_first() + qb);
        lemma_lex_equal_length(a.drop_first(), b.drop_first(), qa, qb);
    }
}

proof fn lemma_fixed_len(n: nat, w: nat)
    ensures
        fixed_digits(n, w).len() == w,
    decreases w,
{
    if w > 0 {
        lemma_fixed_len(n / 10, (w - 1) as nat);
    }
}

proof fn lemma_digit_order(x: nat, y: nat)
    requires
        x < y < 10,
    ensures
        (digit(x) as u32) < (digit(y) as u32),
{
}

/// Fixed-width digits order as the numbers do.
proof fn lemma_fixed_order(n: nat, m: nat, w: nat)
    requires
        n < m < pow10(w),
    ensures
        lex_lt(fixed_digits(n, w), fixed_digits(m, w)),
    decreases w,
{
    if w == 0 {
    } else {
        let w1 = (w - 1) as nat;
        let a = fixed_digits(n / 10, w1);
        let b = fixed_digits(m / 10, w1);
        lemma_fixed_len(n / 10, w1);
        lemma_fixed_len(m / 10, w1);
        assert(fixed_digits(n, w) =~= a + seq![digit(n % 10)]);
        assert(fixed_digits(m, w) =~= b + seq![digit(m % 10)]);
        assert(m / 10 < pow10(w1)) by {
            assert(pow10(w) == 10 * pow10(w1));
            assert(m < 10 * pow10(w1));
            assert(m / 10 < pow10(w1)) by (nonlinear_arith)
                requires m < 10 * pow10(w1);
        }
        assert(n / 10 <= m / 10) by (nonlinear_arith)
            requires n < m;
        if n / 10 < m / 10 {
            lemma_fixed_order(n / 10, m / 10, w1);
            lemma_lex_equal_length(a, b, seq![digit(n % 10)], seq![digit(m % 10)]);
        } else {
            assert(n % 10 < m % 10) by (nonlinear_arith)
                requires n < m, n / 10 == m / 10;
            lemma_digit_order(n % 10, m % 10);
            assert(a == b);
            lemma_lex_common_prefix(a, seq![digit(n % 10)], seq![digit(m % 10)]);
            assert(seq![digit(n % 10)].drop_first() =~= Seq::<char>::empty());
        }
    }
}

/// `a` comes strictly before `b` in the calendar.
pub open spec fn date_before(a: CivilDate, b: CivilDate) -> bool {
    a.year < b.year || (a.year == b.year && (a.month < b.month || (a.month == b.month && a.day < b.day)))
}

/// A date whose year has four digits.
pub open spec fn four_digit_year(d: CivilDate) -> bool {
    d.wf() && 0 <= d.year <= 9999
}

proof fn lemma_date_text_parts(d: CivilDate)
    requires
        four_digit_year(d),
    ensures
        date_text(d) == fixed_digits(d.year as nat, 4) + (seq!['-'] + (fixed_digits(d.month as nat, 2)
            + (seq!['-'] + fixed_digits(d.day as nat, 2)))),
        fixed_digits(d.year as nat, 4).len() == 4,
        fixed_digits(d.month as nat, 2).len() == 2,
        fixed_digits(d.day as nat, 2).len() == 2,
{
    reveal_with_fuel(pow10, 5);
    lemma_fixed_len(d.year as nat, 4);
    lemma_fixed_len(d.month as nat, 2);
    lemma_fixed_len(d.day as nat, 2);
    assert(date_text(d) =~= fixed_digits(d.year as nat, 4) + (seq!['-'] + (fixed_digits(d.month as nat, 2)
        + (seq!['-'] + fixed_digits(d.day as nat, 2)))));
}

/// Dates with four-digit years order as their `YYYY-MM-DD` texts do.
pub proof fn lemma_date_text_order(a: CivilDate, b: CivilDate)
    requires
        four_digit_year(a),
        four_digit_year(b),
        date_before(a, b),
    ensures
        lex_lt(date_text(a), date_text(b)),
{
    reveal_with_fuel(pow10, 5);
    lemma_date_text_parts(a);
    lemma_date_text_parts(b);
    let ya = fixed_digits(a.year as nat, 4);
    let yb = fixed_digits(b.year as nat, 4);
    let ma = fixed_digits(a.month as nat, 2);
    let mb = fixed_digits(b.month as nat, 2);
    let da = fixed_digits(a.day as nat, 2);
    let db = fixed_digits(b.day as nat, 2);
    if a.year < b.year {
        lemma_fixed_order(a.year as nat, b.year as nat, 4);
        lemma_lex_equal_length(ya, yb, seq!['-'] + (ma + (seq!['-'] + da)), seq!['-'] + (mb + (seq!['-'] + db)));
    } else {
        let sep = ya + seq!['-'];
        assert(date_text(a) =~= sep + (ma + (seq!['-'] + da)));
        assert(date_text(b) =~= sep + (mb + (seq!['-'] + db)));
        lemma_lex_common_prefix(sep, ma + (seq!['-'] + da), mb + (seq!['-'] + db));
        if a.month < b.month {
            lemma_fixed_order(a.month as nat, b.month as nat, 2);
            lemma_lex_equal_length(ma, mb, seq!['-'] + da, seq!['-'] + db);
        } else {
            lemma_lex_common_prefix(ma + seq!['-'], da, db);
            assert(ma + (seq!['-'] + da) =~= (ma + seq!['-']) + da);
            assert(mb + (seq!['-'] + db) =~= (ma + seq!['-']) + db);
            lemma_fixed_order(a.day as nat, b.day as nat, 2);
        }
    }
}

/// Daily files of later dates have later names.
pub proof fn lemma_daily_name_order(base: Seq<char>, a: CivilDate, b: CivilDate)
    requires
        four_digit_year(a),
        four_digit_year(b),
        date_before(a, b),
    ensures
        lex_lt(daily_name(base, a), daily_name(base, b)),
{
    lemma_date_text_order(a, b);
    lemma_date_text_parts(a);
    lemma_date_text_parts(b);
    let p = daily_prefix(base);
    let sfx = daily_suffix(base);
    lemma_lex_equal_length(date_text(a), date_text(b), sfx, sfx);
    lemma_lex_common_prefix(p, date_text(a) + sfx, date_text(b) + sfx);
    assert(daily_name(base, a) =~= p + (date_text(a) + sfx));
    assert(daily_name(base, b) =~= p + (date_text(b) + sfx));
}

/// The daily file of any date is recognised as a daily file by the cleanup.
pub proof fn lemma_daily_name_matches(base: Seq<char>, d: CivilDate)
    ensures
        is_daily_name(base, daily_name(base, d)),
{
    let p = daily_prefix(base);
    let sfx = daily_suffix(base);
    let n = daily_name(base, d);
    assert(n.subrange(0, p.len() as int) =~= p);
    assert(n.subrange(n.len() - sfx.len(), n.len() as int) =~= sfx);
}

/// Daily cleanup over calendar dates: writing on increasing dates (with
/// four-digit years), after `j` writes the daily files of `base` are those of
/// the last `keep + 1` dates, and the cleanup before the next write leaves
/// exactly those of the `keep` most recent dates.
pub proof fn lemma_daily_dates_keep_newest(base: Seq<char>, dates: Seq<CivilDate>, keep: nat, j: nat)
    requires
        forall|i: int| 0 <= i < dates.len() ==> four_digit_year(#[trigger] dates[i]),
        forall|i: int, k: int| 0 <= i < k < dates.len() ==> date_before(#[trigger] dates[i], #[trigger] dates[k]),
        j <= dates.len(),
    ensures
        ({
            let names = dates.map_values(|d: CivilDate| daily_name(base, d));
            &&& daily_run(names, keep, j) == names.subrange(j - min_nat(j, keep + 1), j as int)
            &&& kept(daily_run(names, keep, j), keep) == names.subrange(j - min_nat(j, keep), j as int)
            &&& forall|i: int| 0 <= i < names.len() ==> is_daily_name(base, #[trigger] names[i])
        }),
{
    let names = dates.map_values(|d: CivilDate| daily_name(base, d));
    assert forall|i: int, k: int| 0 <= i < k < names.len() implies lex_lt(#[trigger] names[i], #[trigger] names[k]) by {
        lemma_daily_name_order(base, dates[i], dates[k]);
    }
    assert forall|i: int| 0 <= i < names.len() implies is_daily_name(base, #[trigger] names[i]) by {
        lemma_daily_name_matches(base, dates[i]);
    }
    lemma_daily_cleanup_keeps_newest(names, keep, j);
}

} // verus!
