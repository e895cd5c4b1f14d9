//! The dropzone: a host directory that a sandboxed program sees read-only.

use vstd::arithmetic::power2::{lemma2_to64, lemma_pow2_pos, lemma_pow2_unfold, pow2};
use vstd::prelude::*;
use vstd::string::*;
use crate::config::opt_str;
use crate::path::{components, copy_range, join, joined, same_path};
use crate::text::{
    all_bytes, bytes, chars, check_stands_at, copy_chars, decimal, decimal_string, find,
    find_from, find_lines, is_space, law_pattern_is_found_first, law_trailing_copies_are_taken,
    law_trimming_takes_only_space, line_spans, lines, no_bytes, push_bytes, stands_at, trim_range, trim_trailing, trimmed, utf8,
    without_trailing,
};

verus! {

pub const KB: u64 = 0x400;

pub const MB: u64 = 0x10_0000;

pub const GB: u64 = 0x4000_0000;

/// `n / d` rounded to the nearest integer, halves to the even one.
pub open spec fn round_half_even(n: nat, d: nat) -> nat {
    let q = n / d;
    let r = n % d;
    if 2 * r > d || (2 * r == d && q % 2 == 1) {
        q + 1
    } else {
        q
    }
}

/// The distance between neighbouring double-precision numbers around `n`.
pub open spec fn double_step(n: nat) -> nat
    decreases n,
{
    if n < 0x20_0000_0000_0000 {
        1
    } else {
        2 * double_step(n / 2)
    }
}

/// The double-precision number nearest to `n`.
pub open spec fn as_double(n: nat) -> nat {
    round_half_even(n, double_step(n)) * double_step(n)
}

/// `size` in tenths of `unit`, as double-precision arithmetic rounds it.
pub open spec fn tenths(size: nat, unit: nat) -> nat {
    round_half_even(as_double(size) * 10, unit)
}

/// A number of tenths with one decimal, and a unit behind it.
pub open spec fn with_unit(t: nat, unit: Seq<char>) -> Seq<char> {
    decimal(t / 10) + "."@ + decimal(t % 10) + unit
}

/// A size in bytes the way it is shown to a person.
pub open spec fn shown_size(size: nat) -> Seq<char> {
    if size >= GB {
        with_unit(tenths(size, GB as nat), " GB"@)
    } else if size >= MB {
        with_unit(tenths(size, MB as nat), " MB"@)
    } else if size >= KB {
        with_unit(tenths(size, KB as nat), " KB"@)
    } else {
        decimal(size) + " bytes"@
    }
}

fn rounded(n: u128, d: u128) -> (r: u128)
    requires
        0 < d <= 0x1_0000_0000_0000_0000,
        n <= 0x100_0000_0000_0000_0000,
    ensures
        r == round_half_even(n as nat, d as nat),
        r <= n / d + 1,
{
    let q = n / d;
    let r = n % d;
    assert(q <= n) by (nonlinear_arith)
        requires
            q == n / d,
            d > 0,
    ;
    if 2 * r > d || (2 * r == d && q % 2 == 1) {
        q + 1
    } else {
        q
    }
}

/// Rounds to a double-precision number.
fn nearest_double(n: u64) -> (r: u128)
    ensures
        r == as_double(n as nat),
        r <= 0x2_0000_0000_0000_0000,
{
    let mut part: u64 = n;
    let mut step: u128 = 1;
    while part >= 0x20_0000_0000_0000
        invariant
            1 <= step <= 0x1000,
            step * part <= n,
            double_step(n as nat) == step * double_step(part as nat),
        decreases part,
    {
        assert(step <= 0x800) by (nonlinear_arith)
            requires
                step * part <= n,
                part >= 0x20_0000_0000_0000,
                n <= 0xffff_ffff_ffff_ffff,
        ;
        assert((step * 2) * (part / 2) <= n) by (nonlinear_arith)
            requires
                step * part <= n,
                step >= 1,
        ;
        assert(step * (2 * double_step((part / 2) as nat)) == (step * 2) * double_step(
            (part / 2) as nat,
        )) by (nonlinear_arith);
        step = step * 2;
        part = part / 2;
    }
    let q = rounded(n as u128, step);
    assert(q * step <= n + step) by (nonlinear_arith)
        requires
            q <= (n as u128) / step + 1,
            step >= 1,
    ;
    assert(step * 1 == step);
    q * step
}

/// Writes a number of tenths with a unit.
fn tenths_string(t: u64, unit: &str) -> (r: String)
    ensures
        r@ == with_unit(t as nat, unit@),
{
    let fraction = decimal_string(t % 10);
    decimal_string(t / 10).concat(".").concat(fraction.as_str()).concat(unit)
}

/// Writes a size in a unit, with one decimal.
fn size_in(size: u64, unit: u64, name: &str) -> (r: String)
    requires
        unit >= KB,
    ensures
        r@ == with_unit(tenths(size as nat, unit as nat), name@),
{
    let d = nearest_double(size);
    let t = rounded(d * 10, unit as u128);
    assert((d * 10) as u128 / (unit as u128) <= 0x14_0000_0000_0000_0000u128 / 0x400) by (nonlinear_arith)
        requires
            d <= 0x2_0000_0000_0000_0000,
            unit >= 0x400,
    ;
    tenths_string(t as u64, name)
}

/// Writes a size in bytes for a person to read.
pub fn format_size(size: u64) -> (r: String)
    ensures
        r@ == shown_size(size as nat),
{
    if size >= GB {
        size_in(size, GB, " GB")
    } else if size >= MB {
        size_in(size, MB, " MB")
    } else if size >= KB {
        size_in(size, KB, " KB")
    } else {
        decimal_string(size).concat(" bytes")
    }
}


/// Below two to the 53rd a size is shown as it is, rounded once.
pub proof fn law_small_sizes_are_exact(size: nat, unit: nat)
    requires
        size < 0x20_0000_0000_0000,
    ensures
        tenths(size, unit) == round_half_even(size * 10, unit),
{
    assert(double_step(size) == 1);
    assert(round_half_even(size, 1) == size) by {
        assert(size / 1 == size && size % 1 == 0);
    }
    assert(size * 1 == size);
}

/// What stands in a directory.
pub enum DirEntry {
    Symlink,
    Directory(Vec<DirEntry>),
    File(u64),
    /// Something that could not be read: an entry, its kind or its size, or the
    /// list of what a directory holds.
    Unreadable,
}

/// How many files an entry holds; a link counts for nothing.
pub open spec fn entry_files(e: DirEntry) -> nat
    decreases e,
{
    match e {
        DirEntry::Symlink => 0,
        DirEntry::Directory(v) => count_files(v@),
        DirEntry::File(_) => 1,
        DirEntry::Unreadable => 0,
    }
}

pub open spec fn count_files(s: Seq<DirEntry>) -> nat
    decreases s,
{
    if s.len() == 0 {
        0
    } else {
        count_files(s.drop_last()) + entry_files(s.last())
    }
}

/// How many bytes the files of an entry hold; a link counts for nothing.
pub open spec fn entry_size(e: DirEntry) -> nat
    decreases e,
{
    match e {
        DirEntry::Symlink => 0,
        DirEntry::Directory(v) => total_size(v@),
        DirEntry::File(n) => n as nat,
        DirEntry::Unreadable => 0,
    }
}

pub open spec fn total_size(s: Seq<DirEntry>) -> nat
    decreases s,
{
    if s.len() == 0 {
        0
    } else {
        total_size(s.drop_last()) + entry_size(s.last())
    }
}

proof fn lemma_stats_take(s: Seq<DirEntry>, i: int)
    requires
        0 <= i <= s.len(),
    ensures
        count_files(s.take(i)) <= count_files(s),
        total_size(s.take(i)) <= total_size(s),
    decreases s.len(),
{
    if i == s.len() {
        assert(s.take(i) =~= s);
    } else {
        assert(s.drop_last().take(i) =~= s.take(i));
        lemma_stats_take(s.drop_last(), i);
    }
}

/// Whether an entry could be read, and all that is below it.
pub open spec fn entry_readable(e: DirEntry) -> bool
    decreases e,
{
    match e {
        DirEntry::Unreadable => false,
        DirEntry::Directory(v) => all_readable(v@),
        _ => true,
    }
}

pub open spec fn all_readable(s: Seq<DirEntry>) -> bool
    decreases s,
{
    if s.len() == 0 {
        true
    } else {
        all_readable(s.drop_last()) && entry_readable(s.last())
    }
}

proof fn lemma_readable_take(s: Seq<DirEntry>, i: int)
    requires
        0 <= i <= s.len(),
    ensures
        all_readable(s) ==> all_readable(s.take(i)),
    decreases s.len(),
{
    if i == s.len() {
        assert(s.take(i) =~= s);
    } else {
        assert(s.drop_last().take(i) =~= s.take(i));
        lemma_readable_take(s.drop_last(), i);
    }
}

fn check_readable(entries: &Vec<DirEntry>) -> (r: bool)
    ensures
        r == all_readable(entries@),
    decreases entries,
{
    let mut i: usize = 0;
    assert(entries@.take(0) =~= seq![]);
    while i < entries.len()
        invariant
            i <= entries@.len(),
            all_readable(entries@.take(i as int)),
        decreases entries@.len() - i,
    {
        let ghost next = entries@.take(i + 1);
        proof {
            assert(next.drop_last() =~= entries@.take(i as int));
            assert(next.last() == entries@[i as int]);
            lemma_readable_take(entries@, i + 1);
            reveal_with_fuel(all_readable, 2);
            reveal_with_fuel(entry_readable, 2);
            assert(all_readable(next) == entry_readable(entries@[i as int]));
        }
        let readable = match &entries[i] {
            DirEntry::Unreadable => false,
            DirEntry::Directory(v) => check_readable(v),
            _ => true,
        };
        if !readable {
            return false;
        }
        i = i + 1;
    }
    assert(entries@.take(i as int) =~= entries@);
    true
}

/// Why a directory has no totals.
#[derive(Clone, Copy, PartialEq, Eq, Structural, Debug)]
pub enum StatsError {
    Unreadable,
    /// One of the totals does not fit.
    TooMuch,
}

/// The totals of a directory, where there are any.
pub open spec fn stats_of(s: Seq<DirEntry>) -> Result<(nat, nat), StatsError> {
    if !all_readable(s) {
        Err(StatsError::Unreadable)
    } else if count_files(s) > u64::MAX || total_size(s) > u64::MAX {
        Err(StatsError::TooMuch)
    } else {
        Ok((count_files(s), total_size(s)))
    }
}

/// Counts the files below a directory and adds up their sizes. Where anything
/// below it could not be read there is an error, and never a part of the totals.
pub fn calculate_dir_stats(entries: &Vec<DirEntry>) -> (r: Result<(u64, u64), StatsError>)
    ensures
        match r {
            Ok((count, size)) => all_readable(entries@) && count == count_files(entries@) && size
                == total_size(entries@),
            Err(StatsError::Unreadable) => !all_readable(entries@),
            Err(StatsError::TooMuch) => all_readable(entries@) && (count_files(entries@) > u64::MAX
                || total_size(entries@) > u64::MAX),
        },
        match r {
            Ok((count, size)) => stats_of(entries@) == Ok::<(nat, nat), StatsError>(
                (count as nat, size as nat),
            ),
            Err(e) => stats_of(entries@) == Err::<(nat, nat), StatsError>(e),
        },
{
    if !check_readable(entries) {
        return Err(StatsError::Unreadable);
    }
    match add_up(entries) {
        Some(totals) => Ok(totals),
        None => Err(StatsError::TooMuch),
    }
}

/// Counts files and adds up sizes; `None` where one of the two does not fit.
fn add_up(entries: &Vec<DirEntry>) -> (r: Option<(u64, u64)>)
    ensures
        match r {
            Some((count, size)) => count == count_files(entries@) && size == total_size(entries@),
            None => count_files(entries@) > u64::MAX || total_size(entries@) > u64::MAX,
        },
    decreases entries,
{
    let mut count: u64 = 0;
    let mut size: u64 = 0;
    let mut i: usize = 0;
    assert(entries@.take(0) =~= seq![]);
    while i < entries.len()
        invariant
            i <= entries@.len(),
            count == count_files(entries@.take(i as int)),
            size == total_size(entries@.take(i as int)),
        decreases entries@.len() - i,
    {
        let ghost next = entries@.take(i + 1);
        proof {
            assert(next.drop_last() =~= entries@.take(i as int));
            assert(next.last() == entries@[i as int]);
            lemma_stats_take(entries@, i + 1);
            reveal_with_fuel(count_files, 2);
            reveal_with_fuel(total_size, 2);
            reveal_with_fuel(entry_files, 2);
            reveal_with_fuel(entry_size, 2);
            assert(count_files(next) == count + entry_files(entries@[i as int]));
            assert(total_size(next) == size + entry_size(entries@[i as int]));
        }
        let (c, s) = match &entries[i] {
            DirEntry::Symlink => (0, 0),
            DirEntry::Directory(v) => match add_up(v) {
                Some(t) => t,
                None => return None,
            },
            DirEntry::File(n) => (1, *n),
            DirEntry::Unreadable => (0, 0),
        };
        match (count.checked_add(c), size.checked_add(s)) {
            (Some(c2), Some(s2)) => {
                count = c2;
                size = s2;
            },
            _ => {
                return None;
            },
        }
        i = i + 1;
    }
    assert(entries@.take(i as int) =~= entries@);
    Some((count, size))
}


proof fn lemma_stats_remove(s: Seq<DirEntry>, i: int)
    requires
        0 <= i < s.len(),
    ensures
        count_files(s) == count_files(s.remove(i)) + entry_files(s[i]),
        total_size(s) == total_size(s.remove(i)) + entry_size(s[i]),
    decreases s.len(),
{
    if i == s.len() - 1 {
        assert(s.remove(i) =~= s.drop_last());
    } else {
        let t = s.drop_last();
        lemma_stats_remove(t, i);
        assert(s.remove(i).drop_last() =~= t.remove(i));
        assert(s.remove(i).last() == s.last());
    }
}

proof fn lemma_readable_remove(s: Seq<DirEntry>, i: int)
    requires
        0 <= i < s.len(),
    ensures
        all_readable(s) <==> all_readable(s.remove(i)) && entry_readable(s[i]),
    decreases s.len(),
{
    if i == s.len() - 1 {
        assert(s.remove(i) =~= s.drop_last());
    } else {
        let t = s.drop_last();
        lemma_readable_remove(t, i);
        assert(s.remove(i).drop_last() =~= t.remove(i));
        assert(s.remove(i).last() == s.last());
    }
}

/// An entry adds to the totals of its directory what it holds: a file itself, a
/// directory its own totals, a link nothing; and one that could not be read
/// spoils the totals of every directory above it.
pub proof fn law_entries_add_up(s: Seq<DirEntry>, i: int)
    requires
        0 <= i < s.len(),
    ensures
        ({
            let rest = s.remove(i);
            let (files, size, readable) = match s[i] {
                DirEntry::Symlink => (0nat, 0nat, true),
                DirEntry::Directory(v) => (count_files(v@), total_size(v@), all_readable(v@)),
                DirEntry::File(n) => (1nat, n as nat, true),
                DirEntry::Unreadable => (0nat, 0nat, false),
            };
            &&& count_files(s) == count_files(rest) + files
            &&& total_size(s) == total_size(rest) + size
            &&& all_readable(s) <==> all_readable(rest) && readable
        }),
{
    reveal_with_fuel(entry_files, 2);
    reveal_with_fuel(entry_size, 2);
    reveal_with_fuel(entry_readable, 2);
    lemma_stats_remove(s, i);
    lemma_readable_remove(s, i);
}

/// The order in which the entries of a directory are listed changes neither
/// whether there are totals, nor the number of files, nor their size.
pub proof fn law_stats_ignore_order(a: Seq<DirEntry>, b: Seq<DirEntry>)
    requires
        a.to_multiset() == b.to_multiset(),
    ensures
        count_files(a) == count_files(b),
        total_size(a) == total_size(b),
        all_readable(a) == all_readable(b),
    decreases a.len(),
{
    broadcast use vstd::seq_lib::group_to_multiset_ensures;

    assert(a.to_multiset().len() == a.len());
    assert(b.to_multiset().len() == b.len());
    if a.len() > 0 {
        let n = a.len() - 1;
        let x = a[n];
        assert(a.to_multiset().count(x) > 0) by {
            assert(a.contains(x));
        }
        assert(b.contains(x));
        let i = choose|i: int| 0 <= i < b.len() && b[i] == x;
        assert(a.remove(n).to_multiset() =~= a.to_multiset().remove(x));
        assert(b.remove(i).to_multiset() =~= b.to_multiset().remove(x));
        law_stats_ignore_order(a.remove(n), b.remove(i));
        lemma_stats_remove(a, n);
        lemma_stats_remove(b, i);
        lemma_readable_remove(a, n);
        lemma_readable_remove(b, i);
    }
}

/// What a refused dropzone is refused for.
#[derive(Clone, Copy, PartialEq, Eq, Structural, Debug)]
pub enum DropzoneError {
    /// The path has no canonical form.
    Unresolved,
    /// The path is a directory that must stay hidden.
    Sensitive,
    /// The path is no directory, or nothing is there.
    NotADirectory,
    /// What the directory holds cannot be read.
    Uncounted,
}

/// What is never mounted as a dropzone, whatever the desktop names.
pub open spec fn always_blocked(home: Seq<u8>) -> Seq<Seq<u8>> {
    seq![
        utf8("/"@),
        utf8("/home"@),
        utf8("/etc"@),
        utf8("/var"@),
        utf8("/usr"@),
        utf8("/sys"@),
        utf8("/proc"@),
        utf8("/dev"@),
        home,
        joined(home, utf8(".ssh"@)),
        joined(home, utf8(".gnupg"@)),
        joined(home, utf8(".config"@)),
        joined(home, utf8(".local"@)),
        joined(home, utf8(".pki"@)),
        joined(home, utf8("Desktop"@)),
        joined(home, utf8("Documents"@)),
        joined(home, utf8("Downloads"@)),
        joined(home, utf8("Music"@)),
        joined(home, utf8("Pictures"@)),
        joined(home, utf8("Public"@)),
        joined(home, utf8("Templates"@)),
        joined(home, utf8("Videos"@)),
    ]
}

/// What opens a directory below the home in a line of `user-dirs.dirs`.
pub open spec fn home_marker() -> Seq<char> {
    "=\"$HOME/"@
}

/// The directory that a line of `user-dirs.dirs` names below the home, such as
/// `Spiele` in `XDG_GAMES_DIR="$HOME/Spiele"`.
pub open spec fn user_dir_in(line: Seq<char>) -> Option<Seq<char>> {
    let t = trimmed(line);
    let m = home_marker();
    if !stands_at(t, "XDG_"@, 0) {
        None
    } else {
        match find_from(t, m, 0) {
            None => None,
            Some(i) => {
                let start = i + m.len();
                let stop = match find_from(t, m, start) {
                    None => t.len() as int,
                    Some(j) => j,
                };
                Some(without_trailing(t.subrange(start, stop), '"'))
            },
        }
    }
}

/// The directories that some lines name, in order.
pub open spec fn user_dirs_in(ls: Seq<Seq<char>>) -> Seq<Seq<char>>
    decreases ls.len(),
{
    if ls.len() == 0 {
        seq![]
    } else {
        match user_dir_in(ls.last()) {
            Some(d) => user_dirs_in(ls.drop_last()).push(d),
            None => user_dirs_in(ls.drop_last()),
        }
    }
}

/// Each of several directories, seen from a home.
pub open spec fn below(home: Seq<u8>, dirs: Seq<Seq<char>>) -> Seq<Seq<u8>> {
    Seq::new(dirs.len(), |k: int| joined(home, utf8(dirs[k])))
}

/// The home that is protected: without one, a path at which nothing stands.
pub open spec fn protected_home(home: Option<Seq<char>>) -> Seq<u8> {
    utf8(
        match home {
            Some(h) => h,
            None => "/nonexistent"@,
        },
    )
}

/// Every path that is never mounted as a dropzone, for a home and the text of
/// its `user-dirs.dirs`.
pub open spec fn blocked_paths_of(home: Option<Seq<char>>, user_dirs: Option<Seq<char>>) -> Seq<
    Seq<u8>,
> {
    let h = protected_home(home);
    match user_dirs {
        Some(text) => always_blocked(h) + below(h, user_dirs_in(lines(text))),
        None => always_blocked(h),
    }
}

/// Finds the directory that a trimmed line of `user-dirs.dirs` names.
fn find_user_dir(t: &Vec<char>) -> (r: Option<(usize, usize)>)
    requires
        trimmed(t@) == t@,
    ensures
        match r {
            Some((i, e)) => i <= e <= t@.len() && user_dir_in(t@) == Some(
                t@.subrange(i as int, e as int),
            ),
            None => user_dir_in(t@) is None,
        },
{
    let n = t.len();
    assert(t@.take(n as int) =~= t@);
    if !check_stands_at(t, n, &chars("XDG_"), 0) {
        return None;
    }
    let marker = chars("=\"$HOME/");
    match find(t, n, &marker, 0) {
        None => None,
        Some(i) => {
            let start = i + marker.len();
            let stop = match find(t, n, &marker, start) {
                None => n,
                Some(j) => j,
            };
            Some((start, trim_trailing(t, start, stop, '"')))
        },
    }
}

proof fn lemma_trimmed_twice(s: Seq<char>)
    ensures
        trimmed(trimmed(s)) == trimmed(s),
    decreases s.len(),
{
    if s.len() > 0 && crate::text::is_space(s.first()) {
        lemma_trimmed_twice(s.drop_first());
    } else if s.len() > 0 && crate::text::is_space(s.last()) {
        lemma_trimmed_twice(s.drop_last());
    }
}

/// Puts a directory below a home at the end of a list.
fn push_below(list: &mut Vec<Vec<u8>>, home: &Vec<u8>, dir: &str)
    ensures
        all_bytes(final(list)@) == all_bytes(old(list)@).push(joined(home@, utf8(dir@))),
{
    push_bytes(list, join(home, &bytes(dir)));
}

/// Puts the directories that `user-dirs.dirs` names at the end of a list.
fn push_user_dirs(list: &mut Vec<Vec<u8>>, home: &Vec<u8>, text: &str)
    ensures
        all_bytes(final(list)@) == all_bytes(old(list)@) + below(
            home@,
            user_dirs_in(lines(text@)),
        ),
{
    let s = chars(text);
    let spans = find_lines(&s);
    let ghost start = all_bytes(list@);
    let ghost ls = lines(text@);
    let mut k: usize = 0;
    assert(ls.len() == spans@.len()) by {
        assert(crate::path::as_spans(spans@).len() == spans@.len());
    }
    assert(ls.take(0) =~= seq![]);
    assert(start + below(home@, user_dirs_in(ls.take(0))) =~= start);
    while k < spans.len()
        invariant
            k <= spans@.len() == ls.len(),
            s@ == text@,
            ls == lines(text@),
            crate::path::as_spans(spans@) == line_spans(text@, 0),
            forall|m: int|
                0 <= m < spans@.len() ==> (#[trigger] spans@[m]).0 <= spans@[m].1 <= s@.len(),
            all_bytes(list@) == start + below(home@, user_dirs_in(ls.take(k as int))),
        decreases spans@.len() - k,
    {
        let (a, b) = spans[k];
        let (i, e) = trim_range(&s, a, b);
        let t = copy_chars(&s, i, e);
        let ghost before = user_dirs_in(ls.take(k as int));
        proof {
            assert(crate::path::as_spans(spans@)[k as int] == (a as int, b as int));
            assert(ls[k as int] == text@.subrange(a as int, b as int));
            lemma_trimmed_twice(ls[k as int]);
            assert(ls.take(k + 1).drop_last() =~= ls.take(k as int));
            assert(ls.take(k + 1).last() == ls[k as int]);
            assert(user_dir_in(t@) == user_dir_in(ls[k as int]));
        }
        if let Some((from, to)) = find_user_dir(&t) {
            proof {
                assert(t@.subrange(from as int, to as int) =~= text@.subrange(i + from, i + to));
            }
            push_below(list, home, text.substring_char(i + from, i + to));
            proof {
                let d = t@.subrange(from as int, to as int);
                assert(below(home@, before.push(d)) =~= below(home@, before).push(
                    joined(home@, utf8(d)),
                ));
                assert(start + below(home@, before.push(d)) =~= (start + below(
                    home@,
                    before,
                )).push(joined(home@, utf8(d))));
            }
        }
        k = k + 1;
    }
    assert(ls.take(k as int) =~= ls);
}

/// Where a desktop names the directories of a home.
pub open spec fn user_dirs_place(home: Option<Seq<char>>) -> Seq<u8> {
    joined(protected_home(home), utf8(".config/user-dirs.dirs"@))
}

/// The file in which a desktop names the directories of a home.
pub fn user_dirs_file(home: Option<&str>) -> (r: Vec<u8>)
    ensures
        r@ == joined(
            protected_home(
                match home {
                    Some(h) => Some(h@),
                    None => None,
                },
            ),
            utf8(".config/user-dirs.dirs"@),
        ),
        r@ == user_dirs_place(opt_str(home)),
{
    let h = match home {
        Some(h) => h,
        None => "/nonexistent",
    };
    join(&bytes(h), &bytes(".config/user-dirs.dirs"))
}

/// Lists every path that is never mounted as a dropzone.
pub fn blocked_paths(home: Option<&str>, user_dirs: Option<&str>) -> (r: Vec<Vec<u8>>)
    ensures
        all_bytes(r@) == blocked_paths_of(
            match home {
                Some(h) => Some(h@),
                None => None,
            },
            match user_dirs {
                Some(t) => Some(t@),
                None => None,
            },
        ),
{
    let h = match home {
        Some(h) => bytes(h),
        None => bytes("/nonexistent"),
    };
    let mut list = no_bytes();
    push_bytes(&mut list, bytes("/"));
    push_bytes(&mut list, bytes("/home"));
    push_bytes(&mut list, bytes("/etc"));
    push_bytes(&mut list, bytes("/var"));
    push_bytes(&mut list, bytes("/usr"));
    push_bytes(&mut list, bytes("/sys"));
    push_bytes(&mut list, bytes("/proc"));
    push_bytes(&mut list, bytes("/dev"));
    push_bytes(&mut list, copy_range(&h, 0, h.len()));
    assert(h@.subrange(0, h@.len() as int) =~= h@);
    push_below(&mut list, &h, ".ssh");
    push_below(&mut list, &h, ".gnupg");
    push_below(&mut list, &h, ".config");
    push_below(&mut list, &h, ".local");
    push_below(&mut list, &h, ".pki");
    push_below(&mut list, &h, "Desktop");
    push_below(&mut list, &h, "Documents");
    push_below(&mut list, &h, "Downloads");
    push_below(&mut list, &h, "Music");
    push_below(&mut list, &h, "Pictures");
    push_below(&mut list, &h, "Public");
    push_below(&mut list, &h, "Templates");
    push_below(&mut list, &h, "Videos");
    match user_dirs {
        Some(text) => {
            push_user_dirs(&mut list, &h, text);
        },
        None => {},
    }
    list
}


/// Resolved paths by what they hold.
pub open spec fn all_resolved(v: Seq<Option<Vec<u8>>>) -> Seq<Option<Seq<u8>>> {
    Seq::new(
        v.len(),
        |k: int|
            match v[k] {
                Some(p) => Some(p@),
                None => None,
            },
    )
}

/// Whether `path` is one of the blocked paths, where those that do not exist
/// are left out.
pub open spec fn is_blocked(path: Seq<u8>, blocked: Seq<Option<Seq<u8>>>) -> bool {
    exists|k: int|
        0 <= k < blocked.len() && (#[trigger] blocked[k] matches Some(b) && components(b)
            == components(path))
}

pub open spec fn opt_path(o: Option<&Vec<u8>>) -> Option<Seq<u8>> {
    match o {
        Some(p) => Some(p@),
        None => None,
    }
}

/// Why a directory must not be shown, if it must not, by its canonical path.
pub open spec fn refusal_of(
    canonical: Option<Seq<u8>>,
    blocked: Seq<Option<Seq<u8>>>,
) -> Option<DropzoneError> {
    match canonical {
        None => Some(DropzoneError::Unresolved),
        Some(path) => if is_blocked(path, blocked) {
            Some(DropzoneError::Sensitive)
        } else {
            None
        },
    }
}

/// Decides on a dropzone: its canonical path, if it has one, is held against the
/// canonical forms of the blocked paths.
pub fn validate_dropzone(canonical: Option<&Vec<u8>>, blocked: &Vec<Option<Vec<u8>>>) -> (r: Result<
    (),
    DropzoneError,
>)
    ensures
        r == match canonical {
            None => Err::<(), DropzoneError>(DropzoneError::Unresolved),
            Some(path) => if is_blocked(path@, all_resolved(blocked@)) {
                Err(DropzoneError::Sensitive)
            } else {
                Ok(())
            },
        },
        match r {
            Ok(_) => refusal_of(opt_path(canonical), all_resolved(blocked@)) is None,
            Err(e) => refusal_of(opt_path(canonical), all_resolved(blocked@)) == Some(e),
        },
{
    let path = match canonical {
        None => {
            return Err(DropzoneError::Unresolved);
        },
        Some(path) => path,
    };
    let ghost all = all_resolved(blocked@);
    let mut k: usize = 0;
    while k < blocked.len()
        invariant
            k <= blocked@.len(),
            canonical == Some(path),
            all == all_resolved(blocked@),
            forall|m: int|
                0 <= m < k ==> !(#[trigger] all[m] matches Some(b) && components(b) == components(
                    path@,
                )),
        decreases blocked@.len() - k,
    {
        if let Some(b) = &blocked[k] {
            if same_path(b, path) {
                assert(all[k as int] == Some(b@));
                assert(is_blocked(path@, all));
                return Err(DropzoneError::Sensitive);
            }
        }
        k = k + 1;
    }
    Ok(())
}

/// The home, its key stores, its settings and the system directories are
/// blocked whatever the desktop names, and naming more unblocks nothing.
pub proof fn law_naming_more_unblocks_nothing(home: Option<Seq<char>>, text: Seq<char>)
    ensures
        always_blocked(protected_home(home)).is_prefix_of(blocked_paths_of(home, Some(text))),
        blocked_paths_of(home, None) == always_blocked(protected_home(home)),
        blocked_paths_of(home, None).contains(protected_home(home)),
        blocked_paths_of(home, None).contains(joined(protected_home(home), utf8(".ssh"@))),
        blocked_paths_of(home, None).contains(joined(protected_home(home), utf8(".gnupg"@))),
        blocked_paths_of(home, None).contains(utf8("/"@)),
{
    let a = always_blocked(protected_home(home));
    let b = blocked_paths_of(home, Some(text));
    assert(b.take(a.len() as int) =~= a);
    assert(a[8] == protected_home(home));
    assert(a[9] == joined(protected_home(home), utf8(".ssh"@)));
    assert(a[10] == joined(protected_home(home), utf8(".gnupg"@)));
    assert(a[0] == utf8("/"@));
}

/// However paths are resolved, a dropzone that resolves to what a blocked path
/// resolves to is refused.
pub proof fn law_blocked_path_is_refused(
    home: Option<Seq<char>>,
    text: Option<Seq<char>>,
    resolve: spec_fn(Seq<u8>) -> Option<Seq<u8>>,
    secret: Seq<u8>,
    dropzone: Seq<u8>,
)
    requires
        blocked_paths_of(home, text).contains(secret),
        resolve(secret) is Some,
        resolve(dropzone) == resolve(secret),
    ensures
        is_blocked(resolve(dropzone)->0, blocked_paths_of(home, text).map_values(resolve)),
{
    let list = blocked_paths_of(home, text);
    let k = list.index_of(secret);
    assert(list.map_values(resolve)[k] == resolve(secret));
}

/// Whether a person has to be asked.
#[derive(Clone, Copy, PartialEq, Eq, Structural, Debug)]
pub enum Confirmation {
    Approved,
    Ask,
}

/// Whether mounting a dropzone needs a person's consent, once it is known whether
/// it is a directory and whether its files could be counted.
pub open spec fn confirmation_of(
    is_directory: bool,
    counted: bool,
    allow_dropzone: bool,
) -> Result<Confirmation, DropzoneError> {
    if !is_directory {
        Err(DropzoneError::NotADirectory)
    } else if !counted {
        Err(DropzoneError::Uncounted)
    } else if allow_dropzone {
        Ok(Confirmation::Approved)
    } else {
        Ok(Confirmation::Ask)
    }
}

/// Decides whether mounting a dropzone needs a person's consent.
pub fn confirmation(is_directory: bool, counted: bool, allow_dropzone: bool) -> (r: Result<
    Confirmation,
    DropzoneError,
>)
    ensures
        r == confirmation_of(is_directory, counted, allow_dropzone),
{
    if !is_directory {
        Err(DropzoneError::NotADirectory)
    } else if !counted {
        Err(DropzoneError::Uncounted)
    } else if allow_dropzone {
        Ok(Confirmation::Approved)
    } else {
        Ok(Confirmation::Ask)
    }
}

/// What is said of a dropzone before it is mounted, and whether an answer is
/// waited for.
#[derive(Debug)]
pub struct Prompt {
    pub text: String,
    pub confirmation: Confirmation,
}

/// The line that tells what a dropzone holds.
pub open spec fn contents_of(count: nat, size: nat) -> Seq<char> {
    "Contains: "@ + decimal(count) + " files ("@ + shown_size(size) + ")"@
}

/// What is said of a dropzone before it is mounted: where it is, what it holds and
/// a warning, each on a line; and then the question, where one is asked.
pub open spec fn prompt_text(
    path: Seq<char>,
    count: nat,
    size: nat,
    allow_dropzone: bool,
) -> Seq<char> {
    let notice = "Mounting Dropzone: "@ + path + "\n"@ + contents_of(count, size) + "\n"@
        + "Warning: These files will be visible (read-only) to the untrusted process.\n"@;
    if allow_dropzone {
        notice
    } else {
        notice + "Do you want to proceed? [y/N] "@
    }
}

/// The question that is put, and whether it waits for an answer.
pub open spec fn question_of(
    path: Seq<char>,
    is_directory: bool,
    stats: Option<(nat, nat)>,
    allow_dropzone: bool,
) -> Result<(Seq<char>, Confirmation), DropzoneError> {
    match (confirmation_of(is_directory, stats is Some, allow_dropzone), stats) {
        (Ok(c), Some((count, size))) => Ok((prompt_text(path, count, size, allow_dropzone), c)),
        (Ok(_), None) => Err(DropzoneError::Uncounted),
        (Err(e), _) => Err(e),
    }
}

/// Decides on a dropzone whose path is shown as `path`, and whose files were
/// counted or could not be, and says what is said of it.
pub fn check_and_prompt(
    path: &str,
    is_directory: bool,
    stats: Option<(u64, u64)>,
    allow_dropzone: bool,
) -> (r: Result<Prompt, DropzoneError>)
    ensures
        match r {
            Ok(prompt) => confirmation_of(is_directory, true, allow_dropzone) == Ok::<
                Confirmation,
                DropzoneError,
            >(prompt.confirmation) && (stats matches Some((count, size)) && prompt.text@
                == prompt_text(path@, count as nat, size as nat, allow_dropzone)),
            Err(e) => confirmation_of(is_directory, stats is Some, allow_dropzone) == Err::<
                Confirmation,
                DropzoneError,
            >(e),
        },
        ({
            let found = match stats {
                Some((count, size)) => Some((count as nat, size as nat)),
                None => None,
            };
            question_of(path@, is_directory, found, allow_dropzone) == match r {
                Ok(prompt) => Ok::<(Seq<char>, Confirmation), DropzoneError>(
                    (prompt.text@, prompt.confirmation),
                ),
                Err(e) => Err(e),
            }
        }),
{
    match (confirmation(is_directory, stats.is_some(), allow_dropzone), stats) {
        (Ok(confirmation), Some((count, size))) => {
            let contents = contents_line(count, size);
            let notice = String::from_str("Mounting Dropzone: ").concat(path).concat("\n").concat(
                contents.as_str(),
            ).concat("\n").concat(
                "Warning: These files will be visible (read-only) to the untrusted process.\n",
            );
            let text = if allow_dropzone {
                notice
            } else {
                notice.concat("Do you want to proceed? [y/N] ")
            };
            Ok(Prompt { text, confirmation })
        },
        (Ok(_), None) => Err(DropzoneError::Uncounted),
        (Err(e), _) => Err(e),
    }
}

/// Makes the line that tells what a dropzone holds.
pub fn contents_line(count: u64, size: u64) -> (r: String)
    ensures
        r@ == contents_of(count as nat, size as nat),
{
    let files = decimal_string(count);
    let shown = format_size(size);
    String::from_str("Contains: ").concat(files.as_str()).concat(" files (").concat(
        shown.as_str(),
    ).concat(")")
}

/// A letter without its case.
pub open spec fn lower(c: char) -> char {
    if 'A' <= c <= 'Z' {
        ((c as u32) + 32) as char
    } else {
        c
    }
}

pub open spec fn lowered(s: Seq<char>) -> Seq<char> {
    Seq::new(s.len(), |k: int| lower(s[k]))
}

/// Whether an answer consents: `y` or `yes`, in any case, between any white space.
pub open spec fn consents(answer: Seq<char>) -> bool {
    lowered(trimmed(answer)) == "y"@ || lowered(trimmed(answer)) == "yes"@
}

/// Whether `s` is the lower-case word `word`, up to case.
fn is_word(s: &Vec<char>, word: &Vec<char>) -> (r: bool)
    ensures
        r == (lowered(s@) == word@),
{
    if s.len() != word.len() {
        assert(lowered(s@).len() != word@.len());
        return false;
    }
    let mut k: usize = 0;
    while k < s.len()
        invariant
            k <= s@.len() == word@.len(),
            forall|m: int| 0 <= m < k ==> lower(s@[m]) == word@[m],
        decreases s@.len() - k,
    {
        let c = s[k];
        let d = if 'A' <= c && c <= 'Z' {
            (c as u8 + 32) as char
        } else {
            c
        };
        assert(d == lower(c));
        if d != word[k] {
            assert(lowered(s@)[k as int] != word@[k as int]);
            return false;
        }
        k = k + 1;
    }
    assert(lowered(s@) =~= word@);
    true
}

/// Reads an answer to the question whether to proceed.
pub fn answer_consents(answer: &str) -> (r: bool)
    ensures
        r == consents(answer@),
{
    let s = chars(answer);
    let (i, e) = trim_range(&s, 0, s.len());
    assert(s@.subrange(0, s@.len() as int) =~= s@);
    let t = copy_chars(&s, i, e);
    is_word(&t, &chars("y")) || is_word(&t, &chars("yes"))
}

/// Whether `t` is the number nearest to `n / d`, and the even one of two that are
/// as near.
pub open spec fn is_nearest(t: nat, n: nat, d: nat) -> bool {
    let twice = 2 * (t * d - n);
    &&& -d <= twice <= d
    &&& twice == d || twice == -d ==> t % 2 == 0
}

/// A size is shown in the largest unit that it reaches, rounded to the nearest
/// tenth of it, and below all units as it is.
pub proof fn law_size_is_shown_to_a_tenth(size: nat, t: nat)
    ensures
        size < 1024 ==> shown_size(size) == decimal(size) + " bytes"@,
        1024 <= size < 1048576 && is_nearest(t, size * 10, 1024) ==> shown_size(size) == decimal(
            t / 10,
        ) + "."@ + decimal(t % 10) + " KB"@,
        1048576 <= size < 1073741824 && is_nearest(t, size * 10, 1048576) ==> shown_size(size)
            == decimal(t / 10) + "."@ + decimal(t % 10) + " MB"@,
        1073741824 <= size && is_nearest(t, as_double(size) * 10, 1073741824) ==> shown_size(size)
            == decimal(t / 10) + "."@ + decimal(t % 10) + " GB"@,
{
    if size < 1073741824 {
        law_small_sizes_are_exact(size, 1024);
        law_small_sizes_are_exact(size, 1048576);
    }
    if 1024 <= size < 1048576 && is_nearest(t, size * 10, 1024) {
        assert(round_half_even(size * 10, 1024) == t);
    }
    if 1048576 <= size < 1073741824 && is_nearest(t, size * 10, 1048576) {
        assert(round_half_even(size * 10, 1048576) == t);
    }
    let n = as_double(size) * 10;
    if 1073741824 <= size && is_nearest(t, n, 1073741824) {
        assert(round_half_even(n, 1073741824) == t);
    }
}

proof fn lemma_double_step(n: nat) -> (k: nat)
    ensures
        double_step(n) == pow2(k),
        n >= 0x20_0000_0000_0000 ==> double_step(n) * 0x10_0000_0000_0000 <= n,
        n < double_step(n) * 0x20_0000_0000_0000,
    decreases n,
{
    if n < 0x20_0000_0000_0000 {
        lemma2_to64();
        0
    } else {
        let k = lemma_double_step(n / 2);
        lemma_pow2_unfold(k + 1);
        k + 1
    }
}

/// What a number becomes as a double: itself where it has no more than 53 bits,
/// and otherwise the nearest multiple of the power of two that leaves it so many,
/// of two that are as near the one with the even factor.
pub proof fn law_nearest_double(n: nat)
    ensures
        n < 0x20_0000_0000_0000 ==> as_double(n) == n,
        exists|k: nat, m: nat|
            {
                &&& as_double(n) == m * #[trigger] pow2(k)
                &&& n < pow2(k) * 0x20_0000_0000_0000
                &&& k > 0 ==> pow2(k) * 0x10_0000_0000_0000 <= n
                &&& #[trigger] is_nearest(m, n, pow2(k))
            },
{
    let k = lemma_double_step(n);
    let d = double_step(n);
    let m = round_half_even(n, d);
    lemma_pow2_pos(k);
    let q = n / d;
    let r = n % d;
    assert(n == q * d + r && 0 <= r < d) by (nonlinear_arith)
        requires
            q == n / d,
            r == n % d,
            d > 0,
    ;
    assert((q + 1) * d == q * d + d) by (nonlinear_arith);
    assert(is_nearest(m, n, d));
    if n < 0x20_0000_0000_0000 {
        assert(n / 1 == n && n % 1 == 0);
        assert(m == n);
        assert(m * 1 == m) by (nonlinear_arith);
        lemma_pow2_pos(0);
        lemma2_to64();
        assert(is_nearest(m, n, pow2(0)));
        assert(as_double(n) == m * pow2(0));
    }
}

/// Links count for nothing, and neither does a directory that holds nothing else.
pub proof fn law_links_hold_nothing(s: Seq<DirEntry>)
    requires
        forall|k: int| 0 <= k < s.len() ==> #[trigger] s[k] is Symlink,
    ensures
        count_files(s) == 0,
        total_size(s) == 0,
        all_readable(s),
    decreases s.len(),
{
    if s.len() > 0 {
        assert(s.last() == s[s.len() - 1]);
        assert forall|k: int| 0 <= k < s.drop_last().len() implies #[trigger] s.drop_last()[k]
            is Symlink by {
            assert(s.drop_last()[k] == s[k]);
        }
        law_links_hold_nothing(s.drop_last());
        assert(s.remove(s.len() - 1) =~= s.drop_last());
        law_entries_add_up(s, s.len() - 1);
    }
}

/// Which directories stay hidden whatever a user has set: the top of the system,
/// the home, and in the home what is private; those and no others, and without a
/// home those of one that is nowhere.
pub proof fn law_hidden_directories(home: Option<Seq<char>>, p: Seq<u8>)
    ensures
        ({
            let h = match home {
                Some(h) => utf8(h),
                None => utf8("/nonexistent"@),
            };
            blocked_paths_of(home, None).contains(p) <==> {
                ||| p == utf8("/"@)
                ||| p == utf8("/home"@)
                ||| p == utf8("/etc"@)
                ||| p == utf8("/var"@)
                ||| p == utf8("/usr"@)
                ||| p == utf8("/sys"@)
                ||| p == utf8("/proc"@)
                ||| p == utf8("/dev"@)
                ||| p == h
                ||| p == joined(h, utf8(".ssh"@))
                ||| p == joined(h, utf8(".gnupg"@))
                ||| p == joined(h, utf8(".config"@))
                ||| p == joined(h, utf8(".local"@))
                ||| p == joined(h, utf8(".pki"@))
                ||| p == joined(h, utf8("Desktop"@))
                ||| p == joined(h, utf8("Documents"@))
                ||| p == joined(h, utf8("Downloads"@))
                ||| p == joined(h, utf8("Music"@))
                ||| p == joined(h, utf8("Pictures"@))
                ||| p == joined(h, utf8("Public"@))
                ||| p == joined(h, utf8("Templates"@))
                ||| p == joined(h, utf8("Videos"@))
            }
        }),
{
    let h = match home {
        Some(h) => utf8(h),
        None => utf8("/nonexistent"@),
    };
    let list = blocked_paths_of(home, None);
    assert(list[0] == utf8("/"@));
    assert(list[1] == utf8("/home"@));
    assert(list[2] == utf8("/etc"@));
    assert(list[3] == utf8("/var"@));
    assert(list[4] == utf8("/usr"@));
    assert(list[5] == utf8("/sys"@));
    assert(list[6] == utf8("/proc"@));
    assert(list[7] == utf8("/dev"@));
    assert(list[8] == h);
    assert(list[9] == joined(h, utf8(".ssh"@)));
    assert(list[10] == joined(h, utf8(".gnupg"@)));
    assert(list[11] == joined(h, utf8(".config"@)));
    assert(list[12] == joined(h, utf8(".local"@)));
    assert(list[13] == joined(h, utf8(".pki"@)));
    assert(list[14] == joined(h, utf8("Desktop"@)));
    assert(list[15] == joined(h, utf8("Documents"@)));
    assert(list[16] == joined(h, utf8("Downloads"@)));
    assert(list[17] == joined(h, utf8("Music"@)));
    assert(list[18] == joined(h, utf8("Pictures"@)));
    assert(list[19] == joined(h, utf8("Public"@)));
    assert(list[20] == joined(h, utf8("Templates"@)));
    assert(list[21] == joined(h, utf8("Videos"@)));
    if list.contains(p) {
        let k = choose|k: int| 0 <= k < list.len() && list[k] == p;
        assert(0 <= k < 22);
    }
}

proof fn lemma_user_dir_is_listed(ls: Seq<Seq<char>>, k: int, dir: Seq<char>)
    requires
        0 <= k < ls.len(),
        user_dir_in(ls[k]) == Some(dir),
    ensures
        user_dirs_in(ls).contains(dir),
    decreases ls.len(),
{
    let rest = ls.drop_last();
    let all = user_dirs_in(ls);
    if k == ls.len() - 1 {
        assert(all.last() == dir);
        assert(all[all.len() - 1] == dir);
    } else {
        assert(rest[k] == ls[k]);
        lemma_user_dir_is_listed(rest, k, dir);
        let j = choose|j: int| 0 <= j < user_dirs_in(rest).len() && user_dirs_in(rest)[j] == dir;
        assert(all[j] == dir);
    }
}

proof fn lemma_listed_dir_has_a_line(ls: Seq<Seq<char>>, dir: Seq<char>) -> (k: int)
    requires
        user_dirs_in(ls).contains(dir),
    ensures
        0 <= k < ls.len(),
        user_dir_in(ls[k]) == Some(dir),
    decreases ls.len(),
{
    let all = user_dirs_in(ls);
    let j = choose|j: int| 0 <= j < all.len() && all[j] == dir;
    let rest = ls.drop_last();
    if user_dir_in(ls.last()) == Some(dir) {
        ls.len() - 1
    } else {
        assert(user_dirs_in(rest)[j] == dir);
        let k = lemma_listed_dir_has_a_line(rest, dir);
        assert(rest[k] == ls[k]);
        k
    }
}

/// The directories that a user has named stay hidden, too, and nothing else does:
/// what is hidden is hidden without them, or a line names it below the home.
pub proof fn law_named_directories_stay_hidden(home: Option<Seq<char>>, text: Seq<char>, p: Seq<u8>)
    ensures
        blocked_paths_of(home, Some(text)).contains(p) <==> {
            ||| blocked_paths_of(home, None).contains(p)
            ||| exists|k: int|
                0 <= k < lines(text).len() && (user_dir_in(#[trigger] lines(text)[k]) matches Some(
                    dir,
                ) && p == joined(protected_home(home), utf8(dir)))
        },
{
    let h = protected_home(home);
    let ls = lines(text);
    let dirs = user_dirs_in(ls);
    let fixed = always_blocked(h);
    let all = blocked_paths_of(home, Some(text));
    if all.contains(p) {
        let i = choose|i: int| 0 <= i < all.len() && all[i] == p;
        if i < fixed.len() {
            assert(fixed[i] == p);
        } else {
            let dir = dirs[i - fixed.len()];
            assert(p == joined(h, utf8(dir)));
            assert(dirs.contains(dir));
            let k = lemma_listed_dir_has_a_line(ls, dir);
            assert(user_dir_in(ls[k]) == Some(dir));
        }
    }
    if fixed.contains(p) {
        let i = choose|i: int| 0 <= i < fixed.len() && fixed[i] == p;
        assert(all[i] == p);
    }
    if exists|k: int|
        0 <= k < ls.len() && (user_dir_in(#[trigger] ls[k]) matches Some(dir) && p == joined(
            h,
            utf8(dir),
        )) {
        let k = choose|k: int|
            0 <= k < ls.len() && (user_dir_in(#[trigger] ls[k]) matches Some(dir) && p == joined(
                h,
                utf8(dir),
            ));
        let dir = user_dir_in(ls[k])->0;
        lemma_user_dir_is_listed(ls, k, dir);
        let j = choose|j: int| 0 <= j < dirs.len() && dirs[j] == dir;
        assert(all[fixed.len() + j] == p);
    }
}

/// A line names a directory as desktops write it, a variable and a quoted path
/// below the home; and a line that does not open so, or has no such path, names
/// none.
pub proof fn law_line_names_a_directory(name: Seq<char>, dir: Seq<char>, line: Seq<char>)
    requires
        !name.contains('='),
        !dir.contains('='),
        dir.len() == 0 || dir.last() != '"',
    ensures
        user_dir_in("XDG_"@ + name + "=\"$HOME/"@ + dir + "\""@) == Some(dir),
        user_dir_in(line) is Some ==> stands_at(trimmed(line), "XDG_"@, 0) && exists|i: int|
            0 <= i && #[trigger] stands_at(trimmed(line), "=\"$HOME/"@, i),
{
    reveal_strlit("XDG_");
    reveal_strlit("=\"$HOME/");
    reveal_strlit("\"");
    let m = home_marker();
    let named = "XDG_"@ + name + m + dir + "\""@;
    let i = (4 + name.len()) as int;
    assert(named[0] == 'X' && named.last() == '"');
    law_trimming_takes_only_space(named, ' ');
    assert(trimmed(named) == named);
    assert(named.subrange(0, 4) =~= "XDG_"@);
    assert(named.subrange(i, i + m.len()) =~= m);
    law_pattern_is_found_first(named, m, 0);
    assert(m[0] == '=');
    let found = find_from(named, m, 0);
    assert(found is Some) by {
        if found is None {
            assert(named.subrange(i, i + m.len()) != m);
        }
    }
    let k = found->0;
    assert(named[k] == named.subrange(k, k + m.len())[0]);
    if k < i {
        if k < 4 {
            assert(named[k] == "XDG_"@[k]);
        } else {
            assert(named[k] == name[k - 4]);
        }
    }
    if k > i {
        assert(named.subrange(i, i + m.len()) != m);
    }
    assert(k == i);
    let start = i + m.len();
    law_pattern_is_found_first(named, m, start);
    let again = find_from(named, m, start);
    if let Some(j) = again {
        assert(named[j] == named.subrange(j, j + m.len())[0]);
        if j < start + dir.len() {
            assert(named[j] == dir[j - start]);
        }
    }
    let rest = named.subrange(start, named.len() as int);
    assert(rest =~= dir.push('"'));
    law_trailing_copies_are_taken(dir, '"');
    let t = trimmed(line);
    if user_dir_in(line) is Some {
        law_pattern_is_found_first(t, m, 0);
        assert(stands_at(t, m, find_from(t, m, 0)->0));
    }
}

/// A directory is refused where it is, by its components, one of those that stay
/// hidden, as far as they are there; and it is let pass where it is none of them.
pub proof fn law_only_hidden_directories_are_refused(
    path: Seq<u8>,
    blocked: Seq<Option<Seq<u8>>>,
    other: Option<Seq<u8>>,
)
    ensures
        blocked.contains(Some(path)) ==> is_blocked(path, blocked),
        is_blocked(path, blocked.push(other)) <==> is_blocked(path, blocked) || (
        other matches Some(b) && components(b) == components(path)),
        blocked.len() == 0 ==> !is_blocked(path, blocked),
{
    let more = blocked.push(other);
    if is_blocked(path, blocked) {
        let k = choose|k: int|
            0 <= k < blocked.len() && (#[trigger] blocked[k] matches Some(b) && components(b)
                == components(path));
        assert(more[k] == blocked[k]);
    }
    if other matches Some(b) && components(b) == components(path) {
        assert(more[blocked.len() as int] == other);
    }
    if is_blocked(path, more) {
        let k = choose|k: int|
            0 <= k < more.len() && (#[trigger] more[k] matches Some(b) && components(b)
                == components(path));
        if k < blocked.len() {
            assert(blocked[k] == more[k]);
        }
    }
}

/// When a person is asked: where there is a directory that could be counted, and
/// consent was not given in advance.
pub proof fn law_when_a_person_is_asked(is_directory: bool, counted: bool, allow_dropzone: bool)
    ensures
        ({
            let r = confirmation_of(is_directory, counted, allow_dropzone);
            &&& r is Ok <==> is_directory && counted
            &&& r matches Ok(c) ==> (c == Confirmation::Ask <==> !allow_dropzone)
            &&& r matches Err(e) ==> (e == DropzoneError::NotADirectory <==> !is_directory)
            &&& r matches Err(e) ==> (e == DropzoneError::Uncounted <==> is_directory)
        }),
{
}

/// The question names the directory, how much it holds and what is at stake, and
/// it is put only where consent was not given in advance.
pub proof fn law_question_tells_what_is_at_stake(path: Seq<char>, count: nat, size: nat)
    ensures
        prompt_text(path, count, size, true) == "Mounting Dropzone: "@ + path + "\n"@
            + "Contains: "@ + decimal(count) + " files ("@ + shown_size(size) + ")"@ + "\n"@
            + "Warning: These files will be visible (read-only) to the untrusted process.\n"@,
        prompt_text(path, count, size, false) == prompt_text(path, count, size, true)
            + "Do you want to proceed? [y/N] "@,
{
    assert(prompt_text(path, count, size, true) =~= "Mounting Dropzone: "@ + path + "\n"@
        + "Contains: "@ + decimal(count) + " files ("@ + shown_size(size) + ")"@ + "\n"@
        + "Warning: These files will be visible (read-only) to the untrusted process.\n"@);
}

/// What counts as consent: `y` or `yes`, in letters of any case, with any white
/// space around; nothing else does, and so neither does an empty answer.
pub proof fn law_what_counts_as_consent(answer: Seq<char>)
    ensures
        ({
            let t = trimmed(answer);
            consents(answer) <==> {
                ||| t.len() == 1 && (t[0] == 'y' || t[0] == 'Y')
                ||| t.len() == 3 && (t[0] == 'y' || t[0] == 'Y') && (t[1] == 'e' || t[1] == 'E')
                    && (t[2] == 's' || t[2] == 'S')
            }
        }),
{
    reveal_strlit("y");
    reveal_strlit("yes");
    let t = trimmed(answer);
    let l = lowered(t);
    lemma_lower_of('y', 'Y');
    lemma_lower_of('e', 'E');
    lemma_lower_of('s', 'S');
    assert(l.len() == t.len());
    assert("y"@.len() == 1 && "yes"@.len() == 3);
    if l == "y"@ {
        assert(l[0] == lower(t[0]));
    }
    if l == "yes"@ {
        assert(l[0] == lower(t[0]) && l[1] == lower(t[1]) && l[2] == lower(t[2]));
    }
    if t.len() == 1 && (t[0] == 'y' || t[0] == 'Y') {
        assert(l =~= "y"@);
    }
    if t.len() == 3 && (t[0] == 'y' || t[0] == 'Y') && (t[1] == 'e' || t[1] == 'E') && (t[2] == 's'
        || t[2] == 'S') {
        assert(l =~= "yes"@);
    }
}

proof fn lemma_lower_of(small: char, big: char)
    requires
        'a' <= small <= 'z',
        small as u32 == big as u32 + 32,
    ensures
        forall|c: char| #[trigger] lower(c) == small <==> c == small || c == big,
{
    assert forall|c: char| #[trigger] lower(c) == small <==> c == small || c == big by {
        if lower(c) == small {
            if 'A' <= c <= 'Z' {
                assert(((c as u32) + 32) as char as u32 == (c as u32) + 32);
                assert(c as u32 == big as u32);
                assert(c == big);
            }
        }
        if c == big {
            assert('A' <= c <= 'Z');
            assert(((c as u32) + 32) as char == small);
        }
    }
}

/// What becomes of a directory that is to be shown: one that has no canonical form
/// is not resolved, one that must stay hidden is sensitive, and any other passes.
pub proof fn law_which_directories_pass(path: Seq<u8>, blocked: Seq<Option<Seq<u8>>>)
    ensures
        refusal_of(None, blocked) == Some(DropzoneError::Unresolved),
        refusal_of(Some(path), blocked) == Some(DropzoneError::Sensitive) <==> is_blocked(
            path,
            blocked,
        ),
        refusal_of(Some(path), blocked) is None <==> !is_blocked(path, blocked),
{
}

/// A desktop names the directories of a home in `user-dirs.dirs` below its
/// `.config`.
pub proof fn law_where_directories_are_named(home: Seq<char>)
    ensures
        user_dirs_place(Some(home)) == joined(utf8(home), utf8(".config/user-dirs.dirs"@)),
        user_dirs_place(None) == joined(utf8("/nonexistent"@), utf8(".config/user-dirs.dirs"@)),
{
}

/// What a directory comes to: nothing where something in it cannot be read, nothing
/// where a total is too large for 64 bits, and else both totals.
pub proof fn law_what_a_directory_comes_to(s: Seq<DirEntry>)
    ensures
        stats_of(s) matches Err(e) ==> (e == StatsError::Unreadable <==> !all_readable(s)),
        stats_of(s) is Ok <==> all_readable(s) && count_files(s) < 0x1_0000_0000_0000_0000
            && total_size(s) < 0x1_0000_0000_0000_0000,
        stats_of(s) matches Ok((count, size)) ==> count == count_files(s) && size == total_size(s),
{
}

/// A question is put together only of what was found: the directory, its totals and
/// whether consent was given in advance.
pub proof fn law_when_a_question_is_put(
    path: Seq<char>,
    is_directory: bool,
    stats: Option<(nat, nat)>,
    allow_dropzone: bool,
)
    ensures
        question_of(path, is_directory, stats, allow_dropzone) is Ok <==> is_directory
            && stats is Some,
        question_of(path, is_directory, stats, allow_dropzone) matches Ok((text, c)) ==> {
            &&& stats matches Some((count, size)) && text == prompt_text(
                path,
                count,
                size,
                allow_dropzone,
            )
            &&& c == Confirmation::Approved <==> allow_dropzone
        },
        question_of(path, is_directory, stats, allow_dropzone) matches Err(e) ==> e
            == if is_directory {
            DropzoneError::Uncounted
        } else {
            DropzoneError::NotADirectory
        },
{
}

/// A line that holds a second path below the home names the first one, up to where
/// the second begins.
pub proof fn law_line_names_its_first_directory(
    name: Seq<char>,
    dir: Seq<char>,
    rest: Seq<char>,
)
    requires
        !name.contains('='),
        !dir.contains('='),
        dir.len() == 0 || dir.last() != '"',
        rest.len() == 0 || !is_space(rest.last()),
    ensures
        user_dir_in("XDG_"@ + name + "=\"$HOME/"@ + dir + "=\"$HOME/"@ + rest) == Some(dir),
{
    reveal_strlit("XDG_");
    reveal_strlit("=\"$HOME/");
    let m = home_marker();
    let named = "XDG_"@ + name + m + dir + m + rest;
    let i = (4 + name.len()) as int;
    let start = i + m.len();
    let stop = start + dir.len();
    assert(m[0] == '=' && m.last() == '/');
    assert(named[0] == 'X');
    assert(!is_space(named.last())) by {
        if rest.len() > 0 {
            assert(named.last() == rest.last());
        } else {
            assert(named.last() == m.last());
        }
    }
    law_trimming_takes_only_space(named, ' ');
    assert(trimmed(named) == named);
    assert(named.subrange(0, 4) =~= "XDG_"@);
    assert(named.subrange(i, i + m.len()) =~= m);
    assert(named.subrange(stop, stop + m.len()) =~= m);
    law_pattern_is_found_first(named, m, 0);
    law_pattern_is_found_first(named, m, start);
    let found = find_from(named, m, 0);
    assert(found is Some) by {
        if found is None {
            assert(named.subrange(i, i + m.len()) != m);
        }
    }
    let k = found->0;
    assert(named[k] == named.subrange(k, k + m.len())[0]);
    if k < i {
        if k < 4 {
            assert(named[k] == "XDG_"@[k]);
        } else {
            assert(named[k] == name[k - 4]);
        }
    }
    if k > i {
        assert(named.subrange(i, i + m.len()) != m);
    }
    let again = find_from(named, m, start);
    assert(again is Some) by {
        if again is None {
            assert(named.subrange(stop, stop + m.len()) != m);
        }
    }
    let j = again->0;
    assert(named[j] == named.subrange(j, j + m.len())[0]);
    if j < stop {
        assert(named[j] == dir[j - start]);
    }
    if j > stop {
        assert(named.subrange(stop, stop + m.len()) != m);
    }
    assert(named.subrange(start, stop) =~= dir);
    law_trailing_copies_are_taken(dir, '"');
}

}
