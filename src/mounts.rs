use vstd::prelude::*;

use crate::text::{chars_of, decode_escaped_spaces, decode_spaces, fields, split_fields, views};

verus! {

/// One entry of the mount listing, as plain values.
pub struct MountSpec {
    pub source: Seq<char>,
    pub mount_point: Seq<char>,
    pub fs_type: Seq<char>,
    pub options: Seq<char>,
}

/// One entry of the mount listing.
#[derive(Clone, Debug)]
pub struct MountInfo {
    /// The device or pseudo-source that backs the mount.
    pub source: String,
    /// Where it is mounted, with escaped spaces decoded.
    pub mount_point: String,
    pub fs_type: String,
    pub options: String,
}

impl View for MountInfo {
    type V = MountSpec;

    open spec fn view(&self) -> MountSpec {
        MountSpec {
            source: self.source@,
            mount_point: self.mount_point@,
            fs_type: self.fs_type@,
            options: self.options@,
        }
    }
}

/// The entry that a listing line describes: its first four fields, or
/// nothing where it has fewer.
pub open spec fn parse_spec(line: Seq<char>) -> Option<MountSpec> {
    let f = fields(line);
    if f.len() >= 4 {
        Some(
            MountSpec {
                source: f[0],
                mount_point: decode_spaces(f[1]),
                fs_type: f[2],
                options: f[3],
            },
        )
    } else {
        None
    }
}

/// The file system types of virtual and pseudo file systems, which hold no
/// disk space worth reporting.
pub open spec fn ignored_fs_types() -> Seq<Seq<char>> {
    seq![
        "proc"@, "sysfs"@, "tmpfs"@, "devtmpfs"@, "devpts"@, "cgroup"@, "cgroup2"@,
        "overlay"@, "mqueue"@, "debugfs"@, "securityfs"@, "pstore"@, "bpf"@, "fusectl"@,
        "configfs"@, "hugetlbfs"@, "tracefs"@, "autofs"@, "binfmt_misc"@, "rpc_pipefs"@,
        "efivarfs"@, "fuse.portal"@, "squashfs"@,
    ]
}

/// Whether mounts of type `t` are left out of the report.
pub open spec fn is_ignored(t: Seq<char>) -> bool {
    ignored_fs_types().contains(t)
}

/// The entry of `line` if it is one and its type is not ignored.
pub open spec fn candidate(line: Seq<char>) -> Option<MountSpec> {
    match parse_spec(line) {
        Some(m) => if is_ignored(m.fs_type) { None } else { Some(m) },
        None => None,
    }
}

/// The entry of `line` that is reported after the sources in `seen`: a
/// candidate whose source has not been seen.
pub open spec fn admits(seen: Seq<Seq<char>>, line: Seq<char>) -> Option<MountSpec> {
    match candidate(line) {
        Some(m) => if seen.contains(m.source) { None } else { Some(m) },
        None => None,
    }
}

/// The sources of `ms`, in order.
pub open spec fn sources(ms: Seq<MountSpec>) -> Seq<Seq<char>> {
    ms.map_values(|m: MountSpec| m.source)
}

/// The entries that are reported for `lines`, in listing order: each
/// candidate whose source no earlier reported entry has.
pub open spec fn selected(lines: Seq<Seq<char>>) -> Seq<MountSpec>
    decreases lines.len(),
{
    if lines.len() == 0 {
        seq![]
    } else {
        let prev = selected(lines.drop_last());
        match admits(sources(prev), lines.last()) {
            Some(m) => prev.push(m),
            None => prev,
        }
    }
}

/// Views of a vector of entries.
pub open spec fn mount_views(v: Seq<MountInfo>) -> Seq<MountSpec> {
    v.map_values(|m: MountInfo| m@)
}

/// Reads one line of the mount listing: `None` where it has fewer than four
/// fields.
pub fn parse_line(line: &str) -> (r: Option<MountInfo>)
    ensures
        r is Some <==> parse_spec(line@) is Some,
        r is Some ==> r->0@ == parse_spec(line@)->0,
{
    let f = split_fields(line);
    proof {
        assert(views(f@).len() == f@.len());
    }
    if f.len() >= 4 {
        proof {
            assert(views(f@)[0] == f@[0]@);
            assert(views(f@)[1] == f@[1]@);
            assert(views(f@)[2] == f@[2]@);
            assert(views(f@)[3] == f@[3]@);
        }
        let mount_point = decode_escaped_spaces(f[1].as_str());
        Some(
            MountInfo {
                source: f[0].clone(),
                mount_point,
                fs_type: f[2].clone(),
                options: f[3].clone(),
            },
        )
    } else {
        None
    }
}

/// Whether `a` and `b` hold the same characters.
fn same_chars(a: &Vec<char>, b: &Vec<char>) -> (r: bool)
    ensures
        r == (a@ == b@),
{
    if a.len() != b.len() {
        return false;
    }
    let mut i: usize = 0;
    while i < a.len()
        invariant
            i <= a.len() == b.len(),
            forall|k: int| 0 <= k < i ==> a@[k] == b@[k],
        decreases a.len() - i,
    {
        if a[i] != b[i] {
            return false;
        }
        i = i + 1;
    }
    assert(a@ == b@);
    true
}

/// The names of the ignored file system types.
fn ignored_fs_type_names() -> (r: Vec<&'static str>)
    ensures
        r@.len() == ignored_fs_types().len(),
        forall|k: int| 0 <= k < r@.len() ==> r@[k]@ == ignored_fs_types()[k],
{
    vec![
        "proc", "sysfs", "tmpfs", "devtmpfs", "devpts", "cgroup", "cgroup2", "overlay", "mqueue",
        "debugfs", "securityfs", "pstore", "bpf", "fusectl", "configfs", "hugetlbfs", "tracefs",
        "autofs", "binfmt_misc", "rpc_pipefs", "efivarfs", "fuse.portal", "squashfs",
    ]
}

/// Whether mounts of type `fs_type` are left out of the report.
pub fn is_ignored_fs_type(fs_type: &str) -> (r: bool)
    ensures
        r == is_ignored(fs_type@),
{
    let t = chars_of(fs_type);
    let names = ignored_fs_type_names();
    let mut i: usize = 0;
    while i < names.len()
        invariant
            i <= names@.len() == ignored_fs_types().len(),
            t@ == fs_type@,
            forall|k: int| 0 <= k < names@.len() ==> names@[k]@ == ignored_fs_types()[k],
            forall|k: int| 0 <= k < i ==> ignored_fs_types()[k] != t@,
        decreases names.len() - i,
    {
        let n = chars_of(names[i]);
        if same_chars(&n, &t) {
            return true;
        }
        i = i + 1;
    }
    false
}

/// The state of a pass over the mount listing: the sources reported so far.
pub struct MountFilter {
    seen: Vec<String>,
}

impl MountFilter {
    /// The sources reported so far, in order.
    pub closed spec fn seen(&self) -> Seq<Seq<char>> {
        views(self.seen@)
    }

    /// A filter that has seen nothing.
    pub fn new() -> (r: MountFilter)
        ensures
            r.seen() == Seq::<Seq<char>>::empty(),
    {
        MountFilter { seen: Vec::new() }
    }

    /// Whether `source` has been reported.
    fn has_seen(&self, source: &String) -> (r: bool)
        ensures
            r == self.seen().contains(source@),
    {
        let mut i: usize = 0;
        while i < self.seen.len()
            invariant
                i <= self.seen@.len(),
                forall|k: int| 0 <= k < i ==> self.seen@[k]@ != source@,
            decreases self.seen.len() - i,
        {
            if self.seen[i] == *source {
                assert(self.seen()[i as int] == source@);
                return true;
            }
            i = i + 1;
        }
        assert(!self.seen().contains(source@)) by {
            if self.seen().contains(source@) {
                let k = choose|k: int| 0 <= k < self.seen().len() && self.seen()[k] == source@;
                assert(self.seen@[k]@ == source@);
            }
        }
        false
    }

    /// Takes the next line of the listing: its entry where it is to be
    /// reported, which marks its source as seen; `None` where the line has
    /// fewer than four fields, an ignored type or a source already seen.
    pub fn accept(&mut self, line: &str) -> (r: Option<MountInfo>)
        ensures
            r is Some <==> admits(old(self).seen(), line@) is Some,
            r is Some ==> r->0@ == admits(old(self).seen(), line@)->0,
            final(self).seen() == (if r is Some {
                old(self).seen().push(r->0@.source)
            } else {
                old(self).seen()
            }),
    {
        match parse_line(line) {
            None => None,
            Some(m) => {
                if is_ignored_fs_type(m.fs_type.as_str()) || self.has_seen(&m.source) {
                    None
                } else {
                    self.seen.push(m.source.clone());
                    assert(views(self.seen@) == views(old(self).seen@).push(m.source@));
                    Some(m)
                }
            },
        }
    }
}

/// The entries to report for the listing `lines`, in listing order: each
/// line with at least four fields and a type that is not ignored, whose
/// source no earlier reported entry has.
pub fn select_mounts(lines: &Vec<String>) -> (r: Vec<MountInfo>)
    ensures
        mount_views(r@) == selected(views(lines@)),
{
    let mut filter = MountFilter::new();
    let mut r: Vec<MountInfo> = Vec::new();
    let mut i: usize = 0;
    while i < lines.len()
        invariant
            i <= lines@.len(),
            mount_views(r@) == selected(views(lines@).take(i as int)),
            filter.seen() == sources(mount_views(r@)),
        decreases lines.len() - i,
    {
        let ghost before = r@;
        assert(views(lines@).take(i + 1).drop_last() == views(lines@).take(i as int));
        assert(views(lines@).take(i + 1).last() == lines@[i as int]@);
        match filter.accept(lines[i].as_str()) {
            Some(m) => {
                r.push(m);
                assert(mount_views(r@) == mount_views(before).push(m@));
                assert(sources(mount_views(r@)) == sources(mount_views(before)).push(m@.source));
            },
            None => {},
        }
        i = i + 1;
    }
    assert(views(lines@).take(i as int) == views(lines@));
    r
}

/// Reading the first `n` lines: the last of them extends the selection of
/// the others.
proof fn lemma_take_step(lines: Seq<Seq<char>>, n: int)
    requires
        0 < n <= lines.len(),
    ensures
        lines.take(n).drop_last() == lines.take(n - 1),
        lines.take(n).last() == lines[n - 1],
{
    assert(lines.take(n).drop_last() =~= lines.take(n - 1));
}

/// The selection of a shorter prefix of the listing is a prefix of the
/// selection of a longer one.
proof fn lemma_selected_grows(lines: Seq<Seq<char>>, n1: int, n2: int)
    requires
        0 <= n1 <= n2 <= lines.len(),
    ensures
        selected(lines.take(n1)).len() <= selected(lines.take(n2)).len(),
        selected(lines.take(n2)).take(selected(lines.take(n1)).len() as int) == selected(
            lines.take(n1),
        ),
    decreases n2 - n1,
{
    if n1 < n2 {
        lemma_selected_grows(lines, n1, n2 - 1);
        lemma_take_step(lines, n2);
        let a = selected(lines.take(n1));
        let b = selected(lines.take(n2 - 1));
        let c = selected(lines.take(n2));
        assert(c.take(a.len() as int) =~= b.take(a.len() as int));
    } else {
        assert(selected(lines.take(n2)).take(selected(lines.take(n1)).len() as int)
            =~= selected(lines.take(n1)));
    }
}

/// Each selected entry is the candidate of an earlier line.
proof fn lemma_selected_from_lines(lines: Seq<Seq<char>>, n: int, k: int)
    requires
        0 <= n <= lines.len(),
        0 <= k < selected(lines.take(n)).len(),
    ensures
        exists|j: int| 0 <= j < n && candidate(lines[j]) == Some(selected(lines.take(n))[k]),
    decreases n,
{
    lemma_take_step(lines, n);
    let prev = selected(lines.take(n - 1));
    if k < prev.len() {
        lemma_selected_from_lines(lines, n - 1, k);
    } else {
        assert(candidate(lines[n - 1]) == Some(selected(lines.take(n))[k]));
    }
}

/// The source of a candidate line is among the selected sources from the
/// next line on.
proof fn lemma_candidate_seen(lines: Seq<Seq<char>>, i: int, n: int)
    requires
        0 <= i < n <= lines.len(),
        candidate(lines[i]) is Some,
    ensures
        sources(selected(lines.take(n))).contains(candidate(lines[i])->0.source),
    decreases n,
{
    let src = candidate(lines[i])->0.source;
    lemma_take_step(lines, n);
    let prev = selected(lines.take(n - 1));
    let cur = selected(lines.take(n));
    if n - 1 > i {
        lemma_candidate_seen(lines, i, n - 1);
        let k = choose|k: int| 0 <= k < sources(prev).len() && sources(prev)[k] == src;
        lemma_selected_grows(lines, n - 1, n);
        assert(cur.take(prev.len() as int) == prev);
        assert(cur[k] == prev[k]);
        assert(sources(cur)[k] == src);
    } else if sources(prev).contains(src) {
        let k = choose|k: int| 0 <= k < sources(prev).len() && sources(prev)[k] == src;
        lemma_selected_grows(lines, n - 1, n);
        assert(cur.take(prev.len() as int) == prev);
        assert(cur[k] == prev[k]);
        assert(sources(cur)[k] == src);
    } else {
        assert(sources(cur)[prev.len() as int] == src);
    }
}

/// No two selected entries share a source.
proof fn lemma_selected_distinct(lines: Seq<Seq<char>>, n: int)
    requires
        0 <= n <= lines.len(),
    ensures
        forall|k1: int, k2: int|
            0 <= k1 < k2 < selected(lines.take(n)).len() ==> selected(lines.take(n))[k1].source
                != selected(lines.take(n))[k2].source,
    decreases n,
{
    if n > 0 {
        lemma_selected_distinct(lines, n - 1);
        lemma_take_step(lines, n);
        let prev = selected(lines.take(n - 1));
        let cur = selected(lines.take(n));
        assert forall|k1: int, k2: int| 0 <= k1 < k2 < cur.len() implies cur[k1].source
            != cur[k2].source by {
            if k2 == prev.len() {
                assert(sources(prev)[k1] == prev[k1].source);
            }
        }
    }
}

/// A line with at least four fields and a type that is not ignored, whose
/// source no earlier such line has, is reported exactly once: its entry is
/// selected, and no other selected entry has its source.
pub proof fn lemma_first_seen_selected_once(lines: Seq<Seq<char>>, i: int)
    requires
        0 <= i < lines.len(),
        candidate(lines[i]) is Some,
        forall|j: int|
            0 <= j < i && #[trigger] candidate(lines[j]) is Some ==> candidate(lines[j])->0.source
                != candidate(lines[i])->0.source,
    ensures
        exists|k: int|
            0 <= k < selected(lines).len() && selected(lines)[k] == candidate(lines[i])->0 && (
            forall|k2: int|
                0 <= k2 < selected(lines).len() && selected(lines)[k2].source
                    == candidate(lines[i])->0.source ==> k2 == k),
{
    let m = candidate(lines[i])->0;
    lemma_take_step(lines, i + 1);
    let prev = selected(lines.take(i));
    assert(!sources(prev).contains(m.source)) by {
        if sources(prev).contains(m.source) {
            let k = choose|k: int| 0 <= k < sources(prev).len() && sources(prev)[k] == m.source;
            lemma_selected_from_lines(lines, i, k);
        }
    }
    let k = prev.len() as int;
    assert(selected(lines.take(i + 1))[k] == m);
    lemma_selected_grows(lines, i + 1, lines.len() as int);
    assert(lines.take(lines.len() as int) == lines);
    let all = selected(lines);
    assert(all.take(k + 1) == selected(lines.take(i + 1)));
    assert(all[k] == m);
    lemma_selected_distinct(lines, lines.len() as int);
}

/// Of two lines with the same source, the later one has no effect on what
/// is reported when the earlier one is a candidate: leaving it out of the
/// listing selects the same entries.
pub proof fn lemma_later_duplicate_ignored(lines: Seq<Seq<char>>, i: int, j: int)
    requires
        0 <= i < j < lines.len(),
        candidate(lines[i]) is Some,
        parse_spec(lines[j]) is Some,
        parse_spec(lines[j])->0.source == candidate(lines[i])->0.source,
    ensures
        selected(lines) == selected(lines.remove(j)),
{
    let rest = lines.remove(j);
    assert(lines.take(lines.len() as int) == lines);
    assert(rest.take(rest.len() as int) == rest);
    lemma_duplicate_ignored_from(lines, i, j, lines.len() as int);
}

proof fn lemma_duplicate_ignored_from(lines: Seq<Seq<char>>, i: int, j: int, n: int)
    requires
        0 <= i < j < n <= lines.len(),
        candidate(lines[i]) is Some,
        parse_spec(lines[j]) is Some,
        parse_spec(lines[j])->0.source == candidate(lines[i])->0.source,
    ensures
        selected(lines.take(n)) == selected(lines.remove(j).take(n - 1)),
    decreases n,
{
    let rest = lines.remove(j);
    lemma_take_step(lines, n);
    if n == j + 1 {
        lemma_candidate_seen(lines, i, j);
        assert(rest.take(j) =~= lines.take(j));
    } else {
        lemma_duplicate_ignored_from(lines, i, j, n - 1);
        lemma_take_step(rest, n - 1);
        assert(rest[n - 2] == lines[n - 1]);
    }
}

} // verus!
