use vstd::prelude::*;

use vstd::arithmetic::div_mod::lemma_div_decreases;

use crate::mounts::{MountInfo, MountSpec, mount_views};
use crate::mounts::{candidate, lemma_first_seen_selected_once, selected};
use crate::text::{views, 
    decimal, digit, digit_char, pad_left, pad_right, push_char, push_decimal, push_padded_left,
    push_padded_right, push_spaces, spaces,
};

verus! {

/// Bytes in a gibibyte.
pub const GIB: u64 = 1073741824;

/// Cells in a usage bar.
pub const BAR_WIDTH: u64 = 20;

/// The integer nearest to `n / d`; of two equally near, the even one.
pub open spec fn round_half_even(n: nat, d: nat) -> nat
    recommends
        d > 0,
{
    let q = n / d;
    let r = n % d;
    if 2 * r < d {
        q
    } else if 2 * r > d {
        q + 1
    } else if q % 2 == 0 {
        q
    } else {
        q + 1
    }
}

/// The integer nearest to `n / d`; of two equally near, the larger one.
pub open spec fn round_half_up(n: nat, d: nat) -> nat
    recommends
        d > 0,
{
    (2 * n + d) / (2 * d)
}

/// `t` tenths written with one decimal: `12` is `1.2`.
pub open spec fn tenths_text(t: nat) -> Seq<char> {
    decimal(t / 10) + seq!['.', digit(t % 10)]
}

/// `bytes` in gibibytes, in tenths, rounded to the nearest.
pub open spec fn gib_tenths(bytes: nat) -> nat {
    round_half_even(bytes * 10, GIB as nat)
}

/// `bytes` in gibibytes with one decimal and the unit letter: `1.0G`.
pub open spec fn gib_text(bytes: nat) -> Seq<char> {
    tenths_text(gib_tenths(bytes)) + seq!['G']
}

/// The integer nearest to `n / d`, of two equally near the even one.
fn rounded_quotient(n: u128, d: u128) -> (r: u128)
    requires
        d > 0,
    ensures
        r == round_half_even(n as nat, d as nat),
{
    let q = n / d;
    let rem = n % d;
    if rem < d - rem {
        q
    } else {
        proof {
            assert(rem > 0);
            assert(n > 0) by {
                if n == 0 {
                    assert(0int % (d as int) == 0);
                }
            }
            lemma_div_decreases(n as int, d as int);
        }
        if rem > d - rem {
            q + 1
        } else if q % 2 == 0 {
            q
        } else {
            q + 1
        }
    }
}

/// Appends `t` tenths with one decimal to `out`.
fn push_tenths(out: &mut String, t: u128)
    ensures
        final(out)@ == old(out)@ + tenths_text(t as nat),
{
    push_decimal(out, t / 10);
    push_char(out, '.');
    push_char(out, digit_char(t % 10));
    assert(final(out)@ == old(out)@ + tenths_text(t as nat));
}

/// `bytes` in gibibytes, with one decimal and the unit letter `G`.
pub fn to_gib(bytes: u64) -> (r: String)
    ensures
        r@ == gib_text(bytes as nat),
{
    let mut r = String::new();
    push_tenths(&mut r, rounded_quotient(bytes as u128 * 10, GIB as u128));
    push_char(&mut r, 'G');
    r
}

/// Space on one file system, in bytes.
#[derive(Clone, Copy, Debug, PartialEq, Eq)]
pub struct UsageSample {
    total: u64,
    free: u64,
}

impl UsageSample {
    /// What the sample holds: the size and the space free to unprivileged
    /// users, the latter never above the former.
    pub closed spec fn wf(&self) -> bool {
        self.free <= self.total
    }

    pub closed spec fn total_spec(&self) -> nat {
        self.total as nat
    }

    pub closed spec fn free_spec(&self) -> nat {
        self.free as nat
    }

    /// The size of the file system.
    pub fn total(&self) -> (r: u64)
        ensures
            r == self.total_spec(),
    {
        self.total
    }

    /// The space free to unprivileged users.
    pub fn free(&self) -> (r: u64)
        ensures
            r == self.free_spec(),
    {
        self.free
    }

    /// The space in use: the size less the free space.
    pub fn used(&self) -> (r: u64)
        requires
            self.wf(),
        ensures
            r == self.total_spec() - self.free_spec(),
    {
        self.total - self.free
    }
}

/// Makes a sample from file system statistics: `blocks` blocks in all,
/// `avail` of them free to unprivileged users, each `frsize` bytes. `None`
/// where the byte counts do not fit in 64 bits or more blocks are free than
/// there are; such a probe counts as failed.
pub fn sample_from_stat(blocks: u64, avail: u64, frsize: u64) -> (r: Option<UsageSample>)
    ensures
        r is Some <==> (avail <= blocks && blocks * frsize <= u64::MAX),
        r is Some ==> r->0.wf() && r->0.total_spec() == blocks * frsize && r->0.free_spec()
            == avail * frsize,
{
    if avail > blocks {
        return None;
    }
    proof {
        assert(blocks * frsize <= u64::MAX * u64::MAX) by (nonlinear_arith)
            requires
                blocks <= u64::MAX,
                frsize <= u64::MAX,
        ;
    }
    let total = blocks as u128 * frsize as u128;
    if total > u64::MAX as u128 {
        return None;
    }
    proof {
        assert(avail * frsize <= blocks * frsize) by (nonlinear_arith)
            requires
                avail <= blocks,
        ;
    }
    Some(UsageSample { total: total as u64, free: avail * frsize })
}

/// The share of the file system in use, in tenths of a percent, rounded to
/// the nearest; an empty file system counts as unused.
pub open spec fn pct_tenths(used: nat, total: nat) -> nat {
    if total == 0 {
        0
    } else {
        round_half_even(used * 1000, total)
    }
}

/// The filled cells of the usage bar: the share in use of the bar's width,
/// rounded to the nearest, at most the width.
pub open spec fn filled_cells(used: nat, total: nat) -> nat {
    if total == 0 {
        0
    } else if round_half_up(used * (BAR_WIDTH as nat), total) > BAR_WIDTH {
        BAR_WIDTH as nat
    } else {
        round_half_up(used * (BAR_WIDTH as nat), total)
    }
}

/// The terminal colour codes that the report uses.
pub open spec fn green() -> Seq<char> {
    "\x1b[32m"@
}

pub open spec fn yellow() -> Seq<char> {
    "\x1b[33m"@
}

pub open spec fn red() -> Seq<char> {
    "\x1b[31m"@
}

pub open spec fn reset() -> Seq<char> {
    "\x1b[0m"@
}

pub open spec fn bold() -> Seq<char> {
    "\x1b[1m"@
}

pub open spec fn cyan() -> Seq<char> {
    "\x1b[36m"@
}

/// The colour of the bar: green below 75 percent in use, yellow below 85,
/// red from there on.
pub open spec fn bar_color(used: nat, total: nat) -> Seq<char> {
    if used * 100 < total * 75 || total == 0 {
        green()
    } else if used * 100 < total * 85 {
        yellow()
    } else {
        red()
    }
}

/// The glyph of a filled cell.
pub open spec fn block_glyph() -> char {
    '\u{25a0}'
}

/// The usage bar: its colour, the filled cells, spaces up to the width,
/// and the code that resets the colour.
pub open spec fn bar_text(used: nat, total: nat) -> Seq<char> {
    bar_color(used, total) + Seq::new(filled_cells(used, total), |i: int| block_glyph())
        + spaces((BAR_WIDTH - filled_cells(used, total)) as nat) + reset()
}

/// The usage bar for `used` bytes in use of `total`.
pub fn usage_bar(used: u64, total: u64) -> (r: String)
    ensures
        r@ == bar_text(used as nat, total as nat),
{
    let mut r = String::new();
    let wide_used = used as u128;
    let wide_total = total as u128;
    if wide_total == 0 || wide_used * 100 < wide_total * 75 {
        r.append("\x1b[32m");
    } else if wide_used * 100 < wide_total * 85 {
        r.append("\x1b[33m");
    } else {
        r.append("\x1b[31m");
    }
    let mut filled: u128 = 0;
    if wide_total > 0 {
        filled = (2 * wide_used * 20 + wide_total) / (2 * wide_total);
        if filled > 20 {
            filled = 20;
        }
    }
    let ghost head = r@;
    let mut i: u128 = 0;
    while i < filled
        invariant
            i <= filled <= 20,
            r@ == head + Seq::new(i as nat, |k: int| block_glyph()),
        decreases filled - i,
    {
        push_char(&mut r, '\u{25a0}');
        assert(Seq::new((i + 1) as nat, |k: int| block_glyph()) == Seq::new(
            i as nat,
            |k: int| block_glyph(),
        ).push(block_glyph()));
        i = i + 1;
    }
    push_spaces(&mut r, (20 - filled) as usize);
    r.append("\x1b[0m");
    r
}

/// The percentage in use, with one decimal, padded to six characters, and
/// a percent sign.
pub open spec fn percent_text(used: nat, total: nat) -> Seq<char> {
    pad_left(tenths_text(pct_tenths(used, total)), 6) + seq!['%']
}

/// The report line of the entry `m` with the sample `s`: the source padded
/// to 35 characters; size, used and free space in gibibytes, each padded on
/// the left to six; the percentage in use; the usage bar; the mount point.
#[verifier::opaque]
pub open spec fn row_text(m: MountSpec, s: UsageSample) -> Seq<char> {
    let total = s.total_spec();
    let free = s.free_spec();
    let used = (total - free) as nat;
    pad_right(m.source, 35) + " "@ + pad_left(gib_text(total), 6) + " "@ + pad_left(
        gib_text(used),
        6,
    ) + " "@ + pad_left(gib_text(free), 6) + " "@ + percent_text(used, total) + " "@
        + bar_text(used, total) + " "@ + m.mount_point
}

/// The header line: the column titles, aligned as the rows are, bold and
/// in colour.
pub open spec fn header_text() -> Seq<char> {
    bold() + cyan() + pad_right("Filesystem"@, 35) + " "@ + pad_left("Size"@, 6) + " "@
        + pad_left("Used"@, 6) + " "@ + pad_left("Avail"@, 6) + " "@ + pad_left("Use%"@, 6)
        + " "@ + pad_right("Graph"@, 20) + reset() + " "@ + "Mounted on"@ + reset()
}

/// The header line of the report.
pub fn header() -> (r: String)
    ensures
        r@ == header_text(),
{
    let mut r = String::new();
    r.append("\x1b[1m");
    r.append("\x1b[36m");
    push_padded_right(&mut r, "Filesystem", 35);
    r.append(" ");
    push_padded_left(&mut r, "Size", 6);
    r.append(" ");
    push_padded_left(&mut r, "Used", 6);
    r.append(" ");
    push_padded_left(&mut r, "Avail", 6);
    r.append(" ");
    push_padded_left(&mut r, "Use%", 6);
    r.append(" ");
    push_padded_right(&mut r, "Graph", 20);
    r.append("\x1b[0m");
    r.append(" ");
    r.append("Mounted on");
    r.append("\x1b[0m");
    r
}

/// The report line of the entry `m` with the sample `s`.
pub fn format_row(m: &MountInfo, s: &UsageSample) -> (r: String)
    requires
        s.wf(),
    ensures
        r@ == row_text(m@, *s),
{
    let total = s.total();
    let free = s.free();
    let used = s.used();
    let mut r = String::new();
    push_padded_right(&mut r, m.source.as_str(), 35);
    r.append(" ");
    let t = to_gib(total);
    push_padded_left(&mut r, t.as_str(), 6);
    r.append(" ");
    let u = to_gib(used);
    push_padded_left(&mut r, u.as_str(), 6);
    r.append(" ");
    let f = to_gib(free);
    push_padded_left(&mut r, f.as_str(), 6);
    r.append(" ");
    let mut pct = String::new();
    let tenths: u128 = if total == 0 {
        0
    } else {
        rounded_quotient(used as u128 * 1000, total as u128)
    };
    push_tenths(&mut pct, tenths);
    push_padded_left(&mut r, pct.as_str(), 6);
    push_char(&mut r, '%');
    r.append(" ");
    let bar = usage_bar(used, total);
    r.append(bar.as_str());
    r.append(" ");
    r.append(m.mount_point.as_str());
    proof {
        reveal(row_text);
    }
    assert(r@ == row_text(m@, *s));
    r
}

/// The report lines of the entries `ms` whose samples `ss` were taken, in
/// order; an entry whose probe failed has none.
pub open spec fn report_rows(ms: Seq<MountSpec>, ss: Seq<Option<UsageSample>>) -> Seq<Seq<char>>
    decreases ms.len(),
{
    if ms.len() == 0 || ss.len() == 0 {
        seq![]
    } else {
        let prev = report_rows(ms.drop_last(), ss.drop_last());
        match ss.last() {
            Some(s) => prev.push(row_text(ms.last(), s)),
            None => prev,
        }
    }
}

/// Whether each sample that was taken holds what a sample holds.
pub open spec fn samples_wf(ss: Seq<Option<UsageSample>>) -> bool {
    forall|k: int| 0 <= k < ss.len() && #[trigger] ss[k] is Some ==> ss[k]->0.wf()
}

/// The report: the header, then one line for each entry of `mounts` whose
/// sample in `samples` was taken, in order.
pub fn render_report(mounts: &Vec<MountInfo>, samples: &Vec<Option<UsageSample>>) -> (r: Vec<
    String,
>)
    requires
        mounts@.len() == samples@.len(),
        samples_wf(samples@),
    ensures
        views(r@) == seq![header_text()] + report_rows(mount_views(mounts@), samples@),
{
    let mut r: Vec<String> = Vec::new();
    r.push(header());
    let mut i: usize = 0;
    while i < mounts.len()
        invariant
            i <= mounts@.len() == samples@.len(),
            samples_wf(samples@),
            views(r@) == seq![header_text()] + report_rows(
                mount_views(mounts@).take(i as int),
                samples@.take(i as int),
            ),
        decreases mounts.len() - i,
    {
        let ghost before = r@;
        let ghost ms = mount_views(mounts@);
        assert(ms.take(i + 1).drop_last() == ms.take(i as int));
        assert(samples@.take(i + 1).drop_last() == samples@.take(i as int));
        assert(samples@.take(i + 1).last() == samples@[i as int]);
        assert(ms.take(i + 1).last() == mounts@[i as int]@);
        match &samples[i] {
            Some(s) => {
                assert(samples@[i as int] is Some);
                let row = format_row(&mounts[i], s);
                r.push(row);
                assert(views(r@) == views(before).push(row@));
            },
            None => {},
        }
        i = i + 1;
    }
    assert(mount_views(mounts@).take(i as int) == mount_views(mounts@));
    assert(samples@.take(i as int) == samples@);
    r
}

/// Where every probe succeeded, each entry has its own line, in order.
proof fn lemma_rows_all_probed(ms: Seq<MountSpec>, ss: Seq<Option<UsageSample>>)
    requires
        ms.len() == ss.len(),
        forall|k: int| 0 <= k < ss.len() ==> #[trigger] ss[k] is Some,
    ensures
        report_rows(ms, ss).len() == ms.len(),
        forall|k: int|
            0 <= k < ms.len() ==> #[trigger] report_rows(ms, ss)[k] == row_text(ms[k], ss[k]->0),
    decreases ms.len(),
{
    if ms.len() > 0 {
        let ms0 = ms.drop_last();
        let ss0 = ss.drop_last();
        assert forall|k: int| 0 <= k < ss0.len() implies #[trigger] ss0[k] is Some by {
            assert(ss0[k] == ss[k]);
        }
        lemma_rows_all_probed(ms0, ss0);
        assert(ss.last() is Some);
        assert forall|k: int| 0 <= k < ms.len() implies #[trigger] report_rows(ms, ss)[k]
            == row_text(ms[k], ss[k]->0) by {
            if k < ms.len() - 1 {
                assert(report_rows(ms0, ss0)[k] == row_text(ms0[k], ss0[k]->0));
                assert(ms0[k] == ms[k]);
                assert(ss0[k] == ss[k]);
            }
        }
    }
}

/// An entry whose probe failed adds no line to the report: leaving it out
/// gives the same lines.
pub proof fn lemma_failed_probe_adds_no_row(
    ms: Seq<MountSpec>,
    ss: Seq<Option<UsageSample>>,
    k: int,
)
    requires
        ms.len() == ss.len(),
        0 <= k < ms.len(),
        ss[k] is None,
    ensures
        report_rows(ms, ss) == report_rows(ms.remove(k), ss.remove(k)),
    decreases ms.len(),
{
    if k == ms.len() - 1 {
        assert(ms.remove(k) == ms.drop_last());
        assert(ss.remove(k) == ss.drop_last());
    } else {
        lemma_failed_probe_adds_no_row(ms.drop_last(), ss.drop_last(), k);
        assert(ms.remove(k).drop_last() == ms.drop_last().remove(k));
        assert(ss.remove(k).drop_last() == ss.drop_last().remove(k));
        assert(ms.remove(k).last() == ms.last());
        assert(ss.remove(k).last() == ss.last());
    }
}

/// A line of the listing with at least four fields and a type that is not
/// ignored, whose source no earlier such line has, gets exactly one line of
/// the report where every probe succeeds: its entry is reported at one place,
/// no other reported entry has its source, and the report line there is the
/// line of that entry.
pub proof fn lemma_first_seen_gets_one_row(
    lines: Seq<Seq<char>>,
    i: int,
    ss: Seq<Option<UsageSample>>,
)
    requires
        0 <= i < lines.len(),
        candidate(lines[i]) is Some,
        forall|j: int|
            0 <= j < i && #[trigger] candidate(lines[j]) is Some ==> candidate(lines[j])->0.source
                != candidate(lines[i])->0.source,
        ss.len() == selected(lines).len(),
        forall|k: int| 0 <= k < ss.len() ==> #[trigger] ss[k] is Some,
    ensures
        report_rows(selected(lines), ss).len() == selected(lines).len(),
        exists|k: int|
            0 <= k < selected(lines).len() && selected(lines)[k] == candidate(lines[i])->0
                && report_rows(selected(lines), ss)[k] == row_text(
                candidate(lines[i])->0,
                ss[k]->0,
            ) && (forall|k2: int|
                0 <= k2 < selected(lines).len() && selected(lines)[k2].source
                    == candidate(lines[i])->0.source ==> k2 == k),
{
    lemma_first_seen_selected_once(lines, i);
    lemma_rows_all_probed(selected(lines), ss);
}

} // verus!
