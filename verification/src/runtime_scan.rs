//! Finding the sing-box executable and `config.json` under a base directory:
//! a depth-first walk over directory listings, each sorted by file name, down
//! to a fixed depth, that stops once both are found. The caller reads the
//! directories.

use vstd::prelude::*;
use crate::text::{chars_of, concat_text, lower_ascii, lower_range};

verus! {

/// How deep below the base directory the walk reads.
pub const MAX_SCAN_DEPTH: usize = 8;

/// Whether a file name is the sing-box executable, in any ASCII case.
pub open spec fn singbox_name(name: Seq<char>) -> bool {
    let l = lower_ascii(name);
    l == "sing-box.exe"@ || l == "sing-box"@ || l == "singbox.exe"@ || l == "singbox"@
}

/// Whether a file name is `config.json`, in any ASCII case.
pub open spec fn config_name(name: Seq<char>) -> bool {
    lower_ascii(name) == "config.json"@
}

fn lower_of(s: &str) -> (r: Vec<char>)
    ensures
        r@ == lower_ascii(s@),
{
    let v = chars_of(s);
    assert(v@.subrange(0, v@.len() as int) =~= v@);
    lower_range(&v, 0, v.len())
}

fn chars_eq(a: &Vec<char>, b: &str) -> (r: bool)
    ensures
        r == (a@ == b@),
{
    let w = chars_of(b);
    assert(a@.subrange(0, a@.len() as int) =~= a@);
    crate::text::range_eq(a, 0, a.len(), &w)
}

/// Whether a file name is the sing-box executable.
pub fn is_singbox_binary(file_name: &str) -> (r: bool)
    ensures
        r == singbox_name(file_name@),
{
    let l = lower_of(file_name);
    chars_eq(&l, "sing-box.exe") || chars_eq(&l, "sing-box") || chars_eq(&l, "singbox.exe")
        || chars_eq(&l, "singbox")
}

/// Whether a file name is `config.json` (`eq_ignore_ascii_case`).
pub fn is_config_file(file_name: &str) -> (r: bool)
    ensures
        r == config_name(file_name@),
{
    let l = lower_of(file_name);
    chars_eq(&l, "config.json")
}

/// What a directory entry is, following symbolic links.
#[derive(Clone, Copy, Debug, PartialEq, Eq, Structural)]
pub enum EntryKind {
    File,
    Dir,
    Other,
}

/// A directory entry: the caller's handle for its path, its file name when
/// that is valid text, the file name's bytes (by which the entries of a
/// directory are ordered), and its kind.
pub struct ScanEntry<P> {
    pub path: P,
    pub name: Option<String>,
    pub key: Vec<u8>,
    pub kind: EntryKind,
}

/// Byte-wise order of file names: `a` comes no later than `b`.
pub open spec fn key_le(a: Seq<u8>, b: Seq<u8>) -> bool
    decreases a.len(),
{
    if a.len() == 0 {
        true
    } else if b.len() == 0 {
        false
    } else if a[0] != b[0] {
        a[0] < b[0]
    } else {
        key_le(a.drop_first(), b.drop_first())
    }
}

proof fn lemma_key_le_total(a: Seq<u8>, b: Seq<u8>)
    ensures
        key_le(a, b) || key_le(b, a),
    decreases a.len(),
{
    if a.len() > 0 && b.len() > 0 && a[0] == b[0] {
        lemma_key_le_total(a.drop_first(), b.drop_first());
    }
}

proof fn lemma_key_le_trans(a: Seq<u8>, b: Seq<u8>, c: Seq<u8>)
    requires
        key_le(a, b),
        key_le(b, c),
    ensures
        key_le(a, c),
    decreases a.len(),
{
    if a.len() > 0 && b.len() > 0 && c.len() > 0 && a[0] == b[0] && b[0] == c[0] {
        lemma_key_le_trans(a.drop_first(), b.drop_first(), c.drop_first());
    }
}

/// Where an entry with name bytes `k` goes among sorted entries, looking
/// from index `i` on: before the first one that comes after it.
pub open spec fn insert_at<P>(s: Seq<ScanEntry<P>>, k: Seq<u8>, i: int) -> int
    decreases s.len() - i,
{
    if i < 0 || i >= s.len() {
        s.len() as int
    } else if !key_le(s[i].key@, k) {
        i
    } else {
        insert_at(s, k, i + 1)
    }
}

/// A directory's entries in the order the walk visits them: sorted by file
/// name, entries with equal names kept in the order given.
pub open spec fn sort_entries<P>(s: Seq<ScanEntry<P>>) -> Seq<ScanEntry<P>>
    decreases s.len(),
{
    if s.len() == 0 {
        s
    } else {
        let t = sort_entries(s.drop_last());
        t.insert(insert_at(t, s.last().key@, 0), s.last())
    }
}

/// Entries in order of their file names.
pub open spec fn entries_sorted<P>(s: Seq<ScanEntry<P>>) -> bool {
    forall|i: int, j: int| 0 <= i < j < s.len() ==> key_le(#[trigger] s[i].key@, #[trigger] s[j].key@)
}

proof fn lemma_insert_at<P>(s: Seq<ScanEntry<P>>, k: Seq<u8>, i: int)
    requires
        0 <= i <= s.len(),
    ensures
        i <= insert_at(s, k, i) <= s.len(),
        forall|j: int| i <= j < insert_at(s, k, i) ==> key_le(#[trigger] s[j].key@, k),
        insert_at(s, k, i) < s.len() ==> !key_le(s[insert_at(s, k, i)].key@, k),
    decreases s.len() - i,
{
    if i < s.len() && key_le(s[i].key@, k) {
        lemma_insert_at(s, k, i + 1);
    }
}

/// The walk's order of a directory's entries is sorted by file name.
pub proof fn law_sorted_entries_ordered<P>(s: Seq<ScanEntry<P>>)
    ensures
        entries_sorted(sort_entries(s)),
    decreases s.len(),
{
    if s.len() > 0 {
        let t = sort_entries(s.drop_last());
        law_sorted_entries_ordered(s.drop_last());
        let e = s.last();
        let k = e.key@;
        let p = insert_at(t, k, 0);
        lemma_insert_at(t, k, 0);
        let r = t.insert(p, e);
        assert(r == sort_entries(s));
        assert forall|i: int, j: int| 0 <= i < j < r.len() implies key_le(#[trigger] r[i].key@, #[trigger] r[j].key@) by {
            if j < p {
                assert(r[i] == t[i] && r[j] == t[j]);
            } else if j == p {
                assert(r[i] == t[i] && r[j] == e);
            } else if i < p {
                assert(r[i] == t[i] && r[j] == t[j - 1]);
                assert(key_le(t[i].key@, t[j - 1].key@));
            } else if i == p {
                assert(r[i] == e && r[j] == t[j - 1]);
                lemma_key_le_total(t[p].key@, k);
                if p < j - 1 {
                    assert(key_le(t[p].key@, t[j - 1].key@));
                    lemma_key_le_trans(k, t[p].key@, t[j - 1].key@);
                }
            } else {
                assert(r[i] == t[i - 1] && r[j] == t[j - 1]);
            }
        }
    }
}

/// Sorting keeps the entries: the same ones, each as often.
pub proof fn law_sorted_entries_same<P>(s: Seq<ScanEntry<P>>)
    ensures
        sort_entries(s).to_multiset() == s.to_multiset(),
        sort_entries(s).len() == s.len(),
    decreases s.len(),
{
    broadcast use vstd::seq_lib::group_to_multiset_ensures;

    if s.len() > 0 {
        let t = sort_entries(s.drop_last());
        law_sorted_entries_same(s.drop_last());
        lemma_insert_at(t, s.last().key@, 0);
        vstd::seq_lib::to_multiset_insert(t, insert_at(t, s.last().key@, 0), s.last());
        assert(s.drop_last().push(s.last()) =~= s);
        vstd::seq_lib::to_multiset_build(s.drop_last(), s.last());
    }
}

fn key_le_exec(a: &Vec<u8>, b: &Vec<u8>) -> (r: bool)
    ensures
        r == key_le(a@, b@),
{
    let mut i: usize = 0;
    assert(a@.subrange(0, a@.len() as int) =~= a@);
    assert(b@.subrange(0, b@.len() as int) =~= b@);
    while i < a.len() && i < b.len() && a[i] == b[i]
        invariant
            i <= a@.len(),
            i <= b@.len(),
            key_le(a@, b@) == key_le(a@.subrange(i as int, a@.len() as int), b@.subrange(i as int, b@.len() as int)),
        decreases a@.len() - i,
    {
        let ghost x = a@.subrange(i as int, a@.len() as int);
        let ghost y = b@.subrange(i as int, b@.len() as int);
        assert(x.drop_first() =~= a@.subrange(i + 1, a@.len() as int));
        assert(y.drop_first() =~= b@.subrange(i + 1, b@.len() as int));
        i = i + 1;
    }
    let ghost x = a@.subrange(i as int, a@.len() as int);
    let ghost y = b@.subrange(i as int, b@.len() as int);
    if i == a.len() {
        true
    } else if i == b.len() {
        false
    } else {
        assert(x[0] == a@[i as int] && y[0] == b@[i as int]);
        a[i] < b[i]
    }
}

fn insert_position<P>(s: &Vec<ScanEntry<P>>, k: &Vec<u8>) -> (r: usize)
    ensures
        r == insert_at(s@, k@, 0),
{
    let mut i: usize = 0;
    while i < s.len() && key_le_exec(&s[i].key, k)
        invariant
            i <= s@.len(),
            insert_at(s@, k@, 0) == insert_at(s@, k@, i as int),
        decreases s@.len() - i,
    {
        i = i + 1;
    }
    i
}

/// What the walk needs next.
pub enum ScanAction<P> {
    /// Read this directory (at this depth) and hand its entries, in any
    /// order, to `entered`.
    ReadDir(P, usize),
    /// The walk is over.
    Done,
}

/// The walk's state: what was found, and for each directory being walked
/// its entries still to visit (the next one last) and its depth.
pub struct RuntimeScan<P> {
    singbox: Option<P>,
    config: Option<P>,
    frames: Vec<(Vec<ScanEntry<P>>, usize)>,
}

/// A directory being walked: entries still to visit (next one last), depth.
pub type Frame<P> = (Seq<ScanEntry<P>>, usize);

/// The walk's state in the abstract.
pub struct ScanView<P> {
    pub singbox: Option<P>,
    pub config: Option<P>,
    pub frames: Seq<Frame<P>>,
}

pub open spec fn entry_is_singbox<P>(e: ScanEntry<P>) -> bool {
    &&& e.kind == EntryKind::File
    &&& e.name matches Some(n) && singbox_name(n@)
}

pub open spec fn entry_is_config<P>(e: ScanEntry<P>) -> bool {
    &&& e.kind == EntryKind::File
    &&& e.name matches Some(n) && config_name(n@)
}

/// How many entries are still to visit.
pub open spec fn pending<P>(frames: Seq<Frame<P>>) -> nat
    decreases frames.len(),
{
    if frames.len() == 0 {
        0
    } else {
        pending(frames.drop_last()) + frames.last().0.len()
    }
}

/// One move of the walk from a state: visit entries until a directory must be
/// read or the walk ends. A file takes the empty slot it matches; a
/// directory one level too deep is passed over without reading.
pub open spec fn advance<P>(s: ScanView<P>) -> (ScanView<P>, ScanAction<P>)
    decreases pending(s.frames), s.frames.len(),
{
    if (s.singbox is Some && s.config is Some) || s.frames.len() == 0 {
        (ScanView { frames: Seq::empty(), ..s }, ScanAction::Done)
    } else {
        let top = s.frames.last();
        if top.0.len() == 0 {
            advance(ScanView { frames: s.frames.drop_last(), ..s })
        } else {
            let e = top.0.last();
            let rest = s.frames.update(s.frames.len() - 1, (top.0.drop_last(), top.1));
            proof {
                assert(rest.drop_last() =~= s.frames.drop_last());
            }
            match e.kind {
                EntryKind::File => advance(
                    ScanView {
                        config: if s.config is None && entry_is_config(e) {
                            Some(e.path)
                        } else {
                            s.config
                        },
                        singbox: if s.singbox is None && entry_is_singbox(e) {
                            Some(e.path)
                        } else {
                            s.singbox
                        },
                        frames: rest,
                    },
                ),
                EntryKind::Dir => if top.1 + 1 <= MAX_SCAN_DEPTH {
                    (ScanView { frames: rest, ..s }, ScanAction::ReadDir(e.path, (top.1 + 1) as usize))
                } else {
                    advance(ScanView { frames: rest, ..s })
                },
                EntryKind::Other => advance(ScanView { frames: rest, ..s }),
            }
        }
    }
}


/// The state after the directory just read is entered: its entries, in the
/// order given, become the next to visit.
pub open spec fn enter<P>(s: ScanView<P>, depth: usize, entries: Seq<ScanEntry<P>>) -> ScanView<P> {
    ScanView { frames: s.frames.push((entries.reverse(), depth)), ..s }
}

pub open spec fn frames_view<P>(frames: Seq<(Vec<ScanEntry<P>>, usize)>) -> Seq<Frame<P>> {
    Seq::new(frames.len(), |i: int| (frames[i].0@, frames[i].1))
}

impl<P> RuntimeScan<P> {
    pub closed spec fn view(&self) -> ScanView<P> {
        ScanView {
            singbox: self.singbox,
            config: self.config,
            frames: frames_view(self.frames@),
        }
    }

    /// A walk from `base`, which is read first, at depth 0.
    pub fn begin(base: P) -> (r: (RuntimeScan<P>, ScanAction<P>))
        ensures
            r.0.view() == (ScanView::<P> { singbox: None, config: None, frames: Seq::empty() }),
            r.1 == ScanAction::ReadDir(base, 0),
    {
        let scan = RuntimeScan { singbox: None, config: None, frames: Vec::new() };
        assert(scan.view().frames =~= Seq::<Frame<P>>::empty());
        (scan, ScanAction::ReadDir(base, 0))
    }

    /// Takes the entries of the directory that the last `ReadDir` asked for,
    /// at its depth, sorts them by file name, and moves on.
    pub fn entered(&mut self, depth: usize, entries: Vec<ScanEntry<P>>) -> (a: ScanAction<P>)
        ensures
            (final(self).view(), a) == advance(enter(old(self).view(), depth, sort_entries(entries@))),
    {
        let mut src = entries;
        let mut rev: Vec<ScanEntry<P>> = Vec::new();
        let ghost all = src@;
        while src.len() > 0
            invariant
                src@ == all.subrange(0, src@.len() as int),
                rev@ == all.subrange(src@.len() as int, all.len() as int).reverse(),
                src@.len() <= all.len(),
            decreases src@.len(),
        {
            let e = src.pop().unwrap();
            rev.push(e);
            assert(src@ =~= all.subrange(0, src@.len() as int));
            assert(rev@ =~= all.subrange(src@.len() as int, all.len() as int).reverse());
        }
        assert(rev@ =~= all.reverse());
        let mut sorted: Vec<ScanEntry<P>> = Vec::new();
        assert(all.subrange(0, 0) =~= Seq::<ScanEntry<P>>::empty());
        while rev.len() > 0
            invariant
                rev@.len() <= all.len(),
                rev@ == all.subrange(all.len() - rev@.len(), all.len() as int).reverse(),
                sorted@ == sort_entries(all.subrange(0, all.len() - rev@.len())),
            decreases rev@.len(),
        {
            let ghost n = all.len() - rev@.len();
            let e = rev.pop().unwrap();
            assert(e == all[n]);
            assert(rev@ =~= all.subrange(all.len() - rev@.len(), all.len() as int).reverse());
            let p = insert_position(&sorted, &e.key);
            proof {
                lemma_insert_at(sorted@, e.key@, 0);
            }
            sorted.insert(p, e);
            assert(all.subrange(0, n + 1).drop_last() =~= all.subrange(0, n));
        }
        assert(all.subrange(0, all.len() as int) =~= all);
        let ghost order = sorted@;
        let mut next: Vec<ScanEntry<P>> = Vec::new();
        while sorted.len() > 0
            invariant
                sorted@ == order.subrange(0, sorted@.len() as int),
                next@ == order.subrange(sorted@.len() as int, order.len() as int).reverse(),
                sorted@.len() <= order.len(),
            decreases sorted@.len(),
        {
            let e = sorted.pop().unwrap();
            next.push(e);
            assert(sorted@ =~= order.subrange(0, sorted@.len() as int));
            assert(next@ =~= order.subrange(sorted@.len() as int, order.len() as int).reverse());
        }
        assert(next@ =~= order.reverse());
        let ghost old_view = self.view();
        self.frames.push((next, depth));
        assert(self.view().frames =~= old_view.frames.push((order.reverse(), depth)));
        self.advance()
    }

    /// Visits entries until a directory must be read or the walk ends.
    fn advance(&mut self) -> (a: ScanAction<P>)
        ensures
            (final(self).view(), a) == advance(old(self).view()),
    {
        let ghost target = advance(self.view());
        loop
            invariant
                advance(self.view()) == target,
                target == advance(old(self).view()),
            decreases pending(self.view().frames), self.frames@.len(),
        {
            if (self.singbox.is_some() && self.config.is_some()) || self.frames.len() == 0 {
                self.frames = Vec::new();
                assert(self.view().frames =~= Seq::<Frame<P>>::empty());
                return ScanAction::Done;
            }
            let ghost s = self.view();
            let n = self.frames.len();
            let (mut top, d) = self.frames.pop().unwrap();
            assert(top@ == s.frames.last().0 && d == s.frames.last().1);
            if top.len() == 0 {
                assert(self.view().frames =~= s.frames.drop_last());
                continue;
            }
            let e = top.pop().unwrap();
            assert(e == s.frames.last().0.last());
            self.frames.push((top, d));
            let ghost rest = s.frames.update(s.frames.len() - 1, (s.frames.last().0.drop_last(), d));
            assert(self.view().frames =~= rest);
            assert(rest.drop_last() =~= s.frames.drop_last());
            match e.kind {
                EntryKind::File => {
                    let is_cfg = match &e.name {
                        Some(nm) => is_config_file(nm.as_str()),
                        None => false,
                    };
                    let is_sb = match &e.name {
                        Some(nm) => is_singbox_binary(nm.as_str()),
                        None => false,
                    };
                    let take_cfg = self.config.is_none() && is_cfg;
                    let take_sb = self.singbox.is_none() && is_sb;
                    if take_cfg && take_sb {
                        proof {
                            assert(false) by {
                                let nm = e.name->0@;
                                assert(lower_ascii(nm) == "config.json"@);
                                reveal_strlit("config.json");
                                reveal_strlit("sing-box.exe");
                                reveal_strlit("sing-box");
                                reveal_strlit("singbox.exe");
                                reveal_strlit("singbox");
                                assert(lower_ascii(nm).len() == 11);
                                assert(lower_ascii(nm)[0] == 'c');
                            }
                        }
                    }
                    if take_cfg {
                        self.config = Some(e.path);
                    } else if take_sb {
                        self.singbox = Some(e.path);
                    }
                },
                EntryKind::Dir => {
                    if d < MAX_SCAN_DEPTH {
                        return ScanAction::ReadDir(e.path, d + 1);
                    }
                },
                EntryKind::Other => {},
            }
        }
    }

    /// What the walk found: the sing-box executable and the configuration.
    pub fn finish(self) -> (r: (Option<P>, Option<P>))
        ensures
            r == (self.view().singbox, self.view().config),
    {
        (self.singbox, self.config)
    }
}

/// What a finished walk reports.
pub struct DetectedRuntimeFiles {
    pub base_dir: String,
    pub singbox_path: Option<String>,
    pub config_path: Option<String>,
    pub found: bool,
}

/// The report of a walk: `found` when both files were found.
pub fn detected_runtime_files(
    base_dir: String,
    singbox_path: Option<String>,
    config_path: Option<String>,
) -> (r: DetectedRuntimeFiles)
    ensures
        r.base_dir == base_dir,
        r.singbox_path == singbox_path,
        r.config_path == config_path,
        r.found == (singbox_path is Some && config_path is Some),
{
    let found = singbox_path.is_some() && config_path.is_some();
    DetectedRuntimeFiles { base_dir, singbox_path, config_path, found }
}

/// The error for a directory that could not be read.
pub fn read_dir_failure(dir: &str, error: &str) -> (r: String)
    ensures
        r@ == "Failed to read directory "@ + dir@ + ": "@ + error@,
{
    let mut r = concat_text("Failed to read directory ", dir);
    r.append(": ");
    r.append(error);
    r
}


/// Once a file is found it stays found: the walk never replaces what it has.
pub proof fn law_scan_keeps_found<P>(s: ScanView<P>)
    ensures
        s.singbox is Some ==> advance(s).0.singbox == s.singbox,
        s.config is Some ==> advance(s).0.config == s.config,
    decreases pending(s.frames), s.frames.len(),
{
    if (s.singbox is Some && s.config is Some) || s.frames.len() == 0 {
    } else {
        let top = s.frames.last();
        if top.0.len() == 0 {
            law_scan_keeps_found(ScanView { frames: s.frames.drop_last(), ..s });
        } else {
            let e = top.0.last();
            let rest = s.frames.update(s.frames.len() - 1, (top.0.drop_last(), top.1));
            assert(rest.drop_last() =~= s.frames.drop_last());
            match e.kind {
                EntryKind::File => law_scan_keeps_found(
                    ScanView {
                        config: if s.config is None && entry_is_config(e) {
                            Some(e.path)
                        } else {
                            s.config
                        },
                        singbox: if s.singbox is None && entry_is_singbox(e) {
                            Some(e.path)
                        } else {
                            s.singbox
                        },
                        frames: rest,
                    },
                ),
                EntryKind::Dir => if top.1 + 1 <= MAX_SCAN_DEPTH {
                } else {
                    law_scan_keeps_found(ScanView { frames: rest, ..s });
                },
                EntryKind::Other => law_scan_keeps_found(ScanView { frames: rest, ..s }),
            }
        }
    }
}

/// The walk reads no directory deeper than `MAX_SCAN_DEPTH`, reads one only
/// one level below a directory it walks, and when it ends it holds nothing
/// more to visit.
pub proof fn law_scan_depth_bound<P>(s: ScanView<P>)
    ensures
        advance(s).1 matches ScanAction::ReadDir(_, d) ==> d <= MAX_SCAN_DEPTH && exists|i: int|
            0 <= i < s.frames.len() && d == s.frames[i].1 + 1,
        advance(s).1 is Done ==> advance(s).0.frames.len() == 0,
    decreases pending(s.frames), s.frames.len(),
{
    if (s.singbox is Some && s.config is Some) || s.frames.len() == 0 {
    } else {
        let top = s.frames.last();
        if top.0.len() == 0 {
            let t = ScanView { frames: s.frames.drop_last(), ..s };
            law_scan_depth_bound(t);
            if let ScanAction::ReadDir(_, d) = advance(t).1 {
                let i = choose|i: int| 0 <= i < t.frames.len() && d == t.frames[i].1 + 1;
                assert(s.frames[i] == t.frames[i]);
            }
        } else {
            let e = top.0.last();
            let rest = s.frames.update(s.frames.len() - 1, (top.0.drop_last(), top.1));
            assert(rest.drop_last() =~= s.frames.drop_last());
            let t = match e.kind {
                EntryKind::File => ScanView {
                    config: if s.config is None && entry_is_config(e) {
                        Some(e.path)
                    } else {
                        s.config
                    },
                    singbox: if s.singbox is None && entry_is_singbox(e) {
                        Some(e.path)
                    } else {
                        s.singbox
                    },
                    frames: rest,
                },
                _ => ScanView { frames: rest, ..s },
            };
            if e.kind is Dir && top.1 + 1 <= MAX_SCAN_DEPTH {
                assert(s.frames[s.frames.len() - 1].1 == top.1);
            } else {
                law_scan_depth_bound(t);
                if let ScanAction::ReadDir(_, d) = advance(t).1 {
                    let i = choose|i: int| 0 <= i < t.frames.len() && d == t.frames[i].1 + 1;
                    assert(s.frames[i].1 == t.frames[i].1);
                }
            }
        }
    }
}

/// Once both files are found the walk ends and reads nothing more.
pub proof fn law_scan_stops_when_found<P>(s: ScanView<P>)
    requires
        s.singbox is Some,
        s.config is Some,
    ensures
        advance(s).1 is Done,
        advance(s).0.singbox == s.singbox,
        advance(s).0.config == s.config,
{
}


/// Whether an entry is among those still to visit.
pub open spec fn offered<P>(frames: Seq<Frame<P>>, e: ScanEntry<P>) -> bool {
    exists|i: int, j: int| 0 <= i < frames.len() && 0 <= j < frames[i].0.len() && #[trigger] frames[i].0[j] == e
}

/// What the walk finds is what it had, or the path of an entry still to
/// visit whose file name matches.
pub proof fn law_scan_finds_offered_entries<P>(s: ScanView<P>)
    ensures
        advance(s).0.config matches Some(p) ==> s.config == Some(p) || exists|e: ScanEntry<P>|
            offered(s.frames, e) && e.path == p && entry_is_config(e),
        advance(s).0.singbox matches Some(p) ==> s.singbox == Some(p) || exists|e: ScanEntry<P>|
            offered(s.frames, e) && e.path == p && entry_is_singbox(e),
    decreases pending(s.frames), s.frames.len(),
{
    if (s.singbox is Some && s.config is Some) || s.frames.len() == 0 {
    } else {
        let n = s.frames.len() - 1;
        let top = s.frames.last();
        if top.0.len() == 0 {
            let t = ScanView { frames: s.frames.drop_last(), ..s };
            law_scan_finds_offered_entries(t);
            assert forall|e: ScanEntry<P>| offered(t.frames, e) implies offered(s.frames, e) by {
                let (i, j) = choose|i: int, j: int|
                    0 <= i < t.frames.len() && 0 <= j < t.frames[i].0.len() && #[trigger] t.frames[i].0[j] == e;
                assert(s.frames[i] == t.frames[i]);
            }
        } else {
            let e0 = top.0.last();
            let rest = s.frames.update(n, (top.0.drop_last(), top.1));
            assert(rest.drop_last() =~= s.frames.drop_last());
            assert(s.frames[n].0[top.0.len() - 1] == e0);
            assert(offered(s.frames, e0));
            assert forall|e: ScanEntry<P>| offered(rest, e) implies offered(s.frames, e) by {
                let (i, j) = choose|i: int, j: int|
                    0 <= i < rest.len() && 0 <= j < rest[i].0.len() && #[trigger] rest[i].0[j] == e;
                if i < n {
                    assert(s.frames[i] == rest[i]);
                } else {
                    assert(rest[i].0[j] == s.frames[n].0[j]);
                }
            }
            let t = match e0.kind {
                EntryKind::File => ScanView {
                    config: if s.config is None && entry_is_config(e0) {
                        Some(e0.path)
                    } else {
                        s.config
                    },
                    singbox: if s.singbox is None && entry_is_singbox(e0) {
                        Some(e0.path)
                    } else {
                        s.singbox
                    },
                    frames: rest,
                },
                _ => ScanView { frames: rest, ..s },
            };
            if !(e0.kind is Dir && top.1 + 1 <= MAX_SCAN_DEPTH) {
                law_scan_finds_offered_entries(t);
            }
        }
    }
}

/// The directories being walked stand at depths 0, 1, 2, ... in order, no
/// deeper than the walk reads.
pub open spec fn depths_in_order<P>(frames: Seq<Frame<P>>) -> bool {
    &&& frames.len() <= MAX_SCAN_DEPTH + 1
    &&& forall|i: int| 0 <= i < frames.len() ==> #[trigger] frames[i].1 == i
}

/// How many entries each directory being walked still holds, shallowest
/// first.
pub open spec fn frame_sizes<P>(frames: Seq<Frame<P>>) -> Seq<nat> {
    frames.map_values(|f: Frame<P>| f.0.len())
}

/// `a` comes before `b` in the lexicographic order: at the first place where
/// they differ, `a` holds less.
pub open spec fn lex_less(a: Seq<nat>, b: Seq<nat>) -> bool {
    exists|k: int| 0 <= k < a.len() && k < b.len() && a[k] < b[k] && #[trigger] a.subrange(0, k) == b.subrange(0, k)
}

proof fn lemma_read_takes_an_entry<P>(u: ScanView<P>)
    requires
        depths_in_order(u.frames),
    ensures
        match advance(u).1 {
            ScanAction::ReadDir(_, d) => {
                let f = advance(u).0.frames;
                &&& 1 <= d <= MAX_SCAN_DEPTH
                &&& d <= u.frames.len()
                &&& f.len() == d
                &&& forall|i: int| 0 <= i < d - 1 ==> #[trigger] f[i] == u.frames[i]
                &&& f[d - 1].1 == u.frames[d - 1].1
                &&& f[d - 1].0.len() < u.frames[d - 1].0.len()
            },
            ScanAction::Done => true,
        },
    decreases pending(u.frames), u.frames.len(),
{
    if (u.singbox is Some && u.config is Some) || u.frames.len() == 0 {
    } else {
        let n = u.frames.len() - 1;
        let top = u.frames.last();
        if top.0.len() == 0 {
            let t = ScanView { frames: u.frames.drop_last(), ..u };
            assert forall|i: int| 0 <= i < t.frames.len() implies #[trigger] t.frames[i].1 == i by {
                assert(t.frames[i] == u.frames[i]);
            }
            lemma_read_takes_an_entry(t);
            if let ScanAction::ReadDir(_, d) = advance(t).1 {
                assert forall|i: int| 0 <= i < d - 1 implies #[trigger] advance(u).0.frames[i] == u.frames[i] by {
                    assert(advance(u).0.frames[i] == t.frames[i]);
                }
                assert(t.frames[d - 1] == u.frames[d - 1]);
            }
        } else {
            let e0 = top.0.last();
            let rest = u.frames.update(n, (top.0.drop_last(), top.1));
            assert(rest.drop_last() =~= u.frames.drop_last());
            let t = match e0.kind {
                EntryKind::File => ScanView {
                    config: if u.config is None && entry_is_config(e0) {
                        Some(e0.path)
                    } else {
                        u.config
                    },
                    singbox: if u.singbox is None && entry_is_singbox(e0) {
                        Some(e0.path)
                    } else {
                        u.singbox
                    },
                    frames: rest,
                },
                _ => ScanView { frames: rest, ..u },
            };
            assert(u.frames[n].1 == n);
            if e0.kind is Dir && top.1 + 1 <= MAX_SCAN_DEPTH {
                assert forall|i: int| 0 <= i < n implies #[trigger] rest[i] == u.frames[i] by {}
            } else {
                assert forall|i: int| 0 <= i < t.frames.len() implies #[trigger] t.frames[i].1 == i by {
                    assert(t.frames[i].1 == u.frames[i].1);
                }
                lemma_read_takes_an_entry(t);
                if let ScanAction::ReadDir(_, d) = advance(t).1 {
                    assert forall|i: int| 0 <= i < d - 1 implies #[trigger] advance(u).0.frames[i] == u.frames[i] by {
                        assert(advance(u).0.frames[i] == t.frames[i]);
                        assert(t.frames[i] == u.frames[i]);
                    }
                }
            }
        }
    }
}

/// The walk ends, whatever the directories hold (links that lead back
/// included): each read of a directory, once its entries are handed back,
/// leaves the directories being walked at depths 0, 1, 2, ... and lowers
/// their remaining sizes, shallowest first, in the lexicographic order, an
/// order on at most `MAX_SCAN_DEPTH + 1` counts that admits no endless
/// descent.
pub proof fn law_scan_walk_ends<P>(u: ScanView<P>, entries: Seq<ScanEntry<P>>)
    requires
        depths_in_order(u.frames),
        advance(u).1 is ReadDir,
    ensures
        depths_in_order(enter(advance(u).0, advance(u).1->ReadDir_1, entries).frames),
        lex_less(
            frame_sizes(enter(advance(u).0, advance(u).1->ReadDir_1, entries).frames),
            frame_sizes(u.frames),
        ),
{
    lemma_read_takes_an_entry(u);
    let d = advance(u).1->ReadDir_1;
    let f = advance(u).0.frames;
    let g = enter(advance(u).0, d, entries).frames;
    assert(g == f.push((entries.reverse(), d)));
    assert forall|i: int| 0 <= i < g.len() implies #[trigger] g[i].1 == i by {
        if i < d - 1 {
            assert(g[i] == u.frames[i]);
        }
    }
    let a = frame_sizes(g);
    let b = frame_sizes(u.frames);
    let k = d - 1;
    assert(a.subrange(0, k) =~= b.subrange(0, k)) by {
        assert forall|i: int| 0 <= i < k implies a.subrange(0, k)[i] == b.subrange(0, k)[i] by {
            assert(g[i] == u.frames[i]);
        }
    }
    assert(a[k] < b[k]);
}



/// How many entries the directory at depth `k` still holds; 0 when none is
/// walked at that depth.
pub open spec fn size_at<P>(frames: Seq<Frame<P>>, k: int) -> nat {
    if 0 <= k < frames.len() {
        frames[k].0.len()
    } else {
        0
    }
}

/// A lexicographic descent of the remaining sizes is a descent of the
/// sizes at depths 0 to `MAX_SCAN_DEPTH`, in that order.
pub proof fn lemma_sizes_descend<P>(a: Seq<Frame<P>>, b: Seq<Frame<P>>)
    requires
        depths_in_order(a),
        depths_in_order(b),
        lex_less(frame_sizes(a), frame_sizes(b)),
    ensures
        decreases_to!(size_at(b, 0), size_at(b, 1), size_at(b, 2), size_at(b, 3), size_at(b, 4),
            size_at(b, 5), size_at(b, 6), size_at(b, 7), size_at(b, 8) => size_at(a, 0), size_at(a, 1),
            size_at(a, 2), size_at(a, 3), size_at(a, 4), size_at(a, 5), size_at(a, 6), size_at(a, 7),
            size_at(a, 8)),
{
    let k = choose|k: int|
        0 <= k < frame_sizes(a).len() && k < frame_sizes(b).len() && frame_sizes(a)[k] < frame_sizes(b)[k]
            && #[trigger] frame_sizes(a).subrange(0, k) == frame_sizes(b).subrange(0, k);
    assert forall|i: int| 0 <= i < k implies size_at(a, i) == size_at(b, i) by {
        assert(frame_sizes(a).subrange(0, k)[i] == frame_sizes(b).subrange(0, k)[i]);
    }
    assert(size_at(a, k) < size_at(b, k));
}

/// The whole walk from a state about to visit entries, when `listing` gives
/// the entries of each directory read, at its depth: where it ends. That
/// this is defined for every listing is the walk's termination.
pub open spec fn walk_from<P>(listing: spec_fn(P, usize) -> Seq<ScanEntry<P>>, u: ScanView<P>) -> ScanView<P>
    decreases size_at(u.frames, 0), size_at(u.frames, 1), size_at(u.frames, 2), size_at(u.frames, 3),
        size_at(u.frames, 4), size_at(u.frames, 5), size_at(u.frames, 6), size_at(u.frames, 7),
        size_at(u.frames, 8),
        when depths_in_order(u.frames)
{
    match advance(u) {
        (s, ScanAction::ReadDir(p, d)) => {
            let next = enter(s, d, sort_entries(listing(p, d)));
            proof {
                law_scan_walk_ends(u, sort_entries(listing(p, d)));
                lemma_sizes_descend(next.frames, u.frames);
            }
            walk_from(listing, next)
        },
        (s, ScanAction::Done) => s,
    }
}

proof fn lemma_walk_ends_from<P>(listing: spec_fn(P, usize) -> Seq<ScanEntry<P>>, u: ScanView<P>)
    requires
        depths_in_order(u.frames),
    ensures
        walk_from(listing, u).frames.len() == 0,
    decreases size_at(u.frames, 0), size_at(u.frames, 1), size_at(u.frames, 2), size_at(u.frames, 3),
        size_at(u.frames, 4), size_at(u.frames, 5), size_at(u.frames, 6), size_at(u.frames, 7),
        size_at(u.frames, 8),
{
    law_scan_depth_bound(u);
    if let (s, ScanAction::ReadDir(p, d)) = advance(u) {
        let next = enter(s, d, sort_entries(listing(p, d)));
        law_scan_walk_ends(u, sort_entries(listing(p, d)));
        lemma_sizes_descend(next.frames, u.frames);
        lemma_walk_ends_from(listing, next);
    }
}

/// The state a walk is in once the base directory, read at depth 0, is
/// entered.
pub open spec fn walk_start<P>(listing: spec_fn(P, usize) -> Seq<ScanEntry<P>>, base: P) -> ScanView<P> {
    enter(ScanView { singbox: None, config: None, frames: Seq::empty() }, 0, sort_entries(listing(base, 0)))
}

/// Every walk ends, whatever each directory holds (links that lead back
/// included): from the base directory's entries it reaches the point where
/// nothing is left to visit.
pub proof fn law_whole_walk_ends<P>(listing: spec_fn(P, usize) -> Seq<ScanEntry<P>>, base: P)
    ensures
        depths_in_order(walk_start(listing, base).frames),
        walk_from(listing, walk_start(listing, base)).frames.len() == 0,
{
    lemma_walk_ends_from(listing, walk_start(listing, base));
}

/// Whether an entry is what the walk looks for: `config.json` when `cfg`,
/// else the sing-box executable.
pub open spec fn wanted<P>(cfg: bool, e: ScanEntry<P>) -> bool {
    if cfg {
        entry_is_config(e)
    } else {
        entry_is_singbox(e)
    }
}

/// What the walk holds for `config.json` when `cfg`, else for the executable.
pub open spec fn slot<P>(cfg: bool, s: ScanView<P>) -> Option<P> {
    if cfg {
        s.config
    } else {
        s.singbox
    }
}

/// An entry the walk can reach from the directory `p` read at depth `d`,
/// when `listing` gives the entries of each directory: one of its entries,
/// or, below a subdirectory the walk may still read, an entry reachable from
/// there.
pub open spec fn reachable<P>(listing: spec_fn(P, usize) -> Seq<ScanEntry<P>>, p: P, d: usize, e: ScanEntry<P>) -> bool
    decreases MAX_SCAN_DEPTH - d,
{
    ||| listing(p, d).contains(e)
    ||| d < MAX_SCAN_DEPTH && exists|x: ScanEntry<P>|
        #[trigger] listing(p, d).contains(x) && x.kind == EntryKind::Dir && reachable(listing, x.path, (d + 1) as usize, e)
}

/// A directory being walked still leads to `e`: `e` is among its entries
/// left, or reachable below one of its subdirectories left.
pub open spec fn frame_covers<P>(listing: spec_fn(P, usize) -> Seq<ScanEntry<P>>, f: Frame<P>, e: ScanEntry<P>) -> bool {
    ||| f.0.contains(e)
    ||| f.1 < MAX_SCAN_DEPTH && exists|x: ScanEntry<P>|
        #[trigger] f.0.contains(x) && x.kind == EntryKind::Dir && reachable(listing, x.path, (f.1 + 1) as usize, e)
}

/// Every entry reachable from the base directory that the walk looks for is
/// still ahead of it.
pub open spec fn all_ahead<P>(listing: spec_fn(P, usize) -> Seq<ScanEntry<P>>, base: P, cfg: bool, frames: Seq<Frame<P>>) -> bool {
    forall|e: ScanEntry<P>| #![trigger reachable(listing, base, 0usize, e)]
        reachable(listing, base, 0usize, e) && wanted(cfg, e) ==> exists|i: int|
            0 <= i < frames.len() && #[trigger] frame_covers(listing, frames[i], e)
}

proof fn lemma_sorted_keeps<P>(s: Seq<ScanEntry<P>>, e: ScanEntry<P>)
    requires
        s.contains(e),
    ensures
        sort_entries(s).reverse().contains(e),
{
    broadcast use vstd::seq_lib::group_to_multiset_ensures;

    law_sorted_entries_same(s);
    assert(sort_entries(s).to_multiset().count(e) > 0);
    let r = sort_entries(s);
    let j = choose|j: int| 0 <= j < r.len() && r[j] == e;
    assert(r.reverse()[r.len() - 1 - j] == e);
}

proof fn lemma_drop_last_keeps<P>(s: Seq<ScanEntry<P>>, e: ScanEntry<P>)
    requires
        s.contains(e),
        s.len() > 0,
        e != s.last(),
    ensures
        s.drop_last().contains(e),
{
    let j = choose|j: int| 0 <= j < s.len() && s[j] == e;
    assert(s.drop_last()[j] == e);
}

proof fn lemma_slot_kept<P>(cfg: bool, s: ScanView<P>)
    ensures
        slot(cfg, s) is Some ==> slot(cfg, advance(s).0) == slot(cfg, s),
{
    law_scan_keeps_found(s);
}

proof fn lemma_all_ahead_step<P>(listing: spec_fn(P, usize) -> Seq<ScanEntry<P>>, base: P, cfg: bool, u: ScanView<P>)
    requires
        slot(cfg, u) is None,
        slot(cfg, advance(u).0) is None,
        all_ahead(listing, base, cfg, u.frames),
    ensures
        match advance(u).1 {
            ScanAction::Done => forall|e: ScanEntry<P>| reachable(listing, base, 0usize, e) ==> !wanted(cfg, e),
            ScanAction::ReadDir(p, d) => all_ahead(
                listing,
                base,
                cfg,
                enter(advance(u).0, d, sort_entries(listing(p, d))).frames,
            ),
        },
    decreases pending(u.frames), u.frames.len(),
{
    if u.frames.len() == 0 {
        assert forall|e: ScanEntry<P>| reachable(listing, base, 0usize, e) implies !wanted(cfg, e) by {}
    } else if u.singbox is Some && u.config is Some {
    } else {
        let n = u.frames.len() - 1;
        let top = u.frames.last();
        if top.0.len() == 0 {
            let t = ScanView { frames: u.frames.drop_last(), ..u };
            assert forall|e: ScanEntry<P>| #![trigger reachable(listing, base, 0usize, e)]
                reachable(listing, base, 0usize, e) && wanted(cfg, e) implies exists|i: int|
                    0 <= i < t.frames.len() && #[trigger] frame_covers(listing, t.frames[i], e) by {
                let i = choose|i: int| 0 <= i < u.frames.len() && #[trigger] frame_covers(listing, u.frames[i], e);
                if i == n {
                    assert(!top.0.contains(e));
                    assert(false);
                }
                assert(t.frames[i] == u.frames[i]);
            }
            lemma_all_ahead_step(listing, base, cfg, t);
        } else {
            let e0 = top.0.last();
            let rest = u.frames.update(n, (top.0.drop_last(), top.1));
            assert(rest.drop_last() =~= u.frames.drop_last());
            let t = match e0.kind {
                EntryKind::File => ScanView {
                    config: if u.config is None && entry_is_config(e0) {
                        Some(e0.path)
                    } else {
                        u.config
                    },
                    singbox: if u.singbox is None && entry_is_singbox(e0) {
                        Some(e0.path)
                    } else {
                        u.singbox
                    },
                    frames: rest,
                },
                _ => ScanView { frames: rest, ..u },
            };
            let reads = e0.kind is Dir && top.1 + 1 <= MAX_SCAN_DEPTH;
            if !reads {
                lemma_slot_kept(cfg, t);
                assert(slot(cfg, t) is None);
            }
            // What the top frame led to, it still leads to, or the entry just
            // taken from it does.
            assert forall|e: ScanEntry<P>| #[trigger] frame_covers(listing, top, e) implies frame_covers(listing, rest[n], e)
                || e == e0 || (e0.kind is Dir && top.1 < MAX_SCAN_DEPTH && reachable(listing, e0.path, (top.1 + 1) as usize, e)) by {
                if top.0.contains(e) && e != e0 {
                    lemma_drop_last_keeps(top.0, e);
                } else if !top.0.contains(e) {
                    let x = choose|x: ScanEntry<P>|
                        #[trigger] top.0.contains(x) && x.kind == EntryKind::Dir && reachable(listing, x.path, (top.1 + 1) as usize, e);
                    if x != e0 {
                        lemma_drop_last_keeps(top.0, x);
                        assert(rest[n].0.contains(x));
                    }
                }
            }
            if reads {
                let d = (top.1 + 1) as usize;
                let listed = listing(e0.path, d);
                let g = rest.push((sort_entries(listed).reverse(), d));
                assert(advance(u).0.frames == rest);
                assert forall|e: ScanEntry<P>| #![trigger reachable(listing, base, 0usize, e)]
                    reachable(listing, base, 0usize, e) && wanted(cfg, e) implies exists|i: int|
                        0 <= i < g.len() && #[trigger] frame_covers(listing, g[i], e) by {
                    let i = choose|i: int| 0 <= i < u.frames.len() && #[trigger] frame_covers(listing, u.frames[i], e);
                    if i < n {
                        assert(g[i] == u.frames[i]);
                    } else if frame_covers(listing, rest[n], e) {
                        assert(g[n] == rest[n]);
                    } else {
                        assert(e != e0);
                        assert(reachable(listing, e0.path, d, e));
                        if listed.contains(e) {
                            lemma_sorted_keeps(listed, e);
                            assert(frame_covers(listing, g[n + 1], e));
                        } else {
                            let y = choose|y: ScanEntry<P>|
                                #[trigger] listed.contains(y) && y.kind == EntryKind::Dir && reachable(listing, y.path, (d + 1) as usize, e);
                            lemma_sorted_keeps(listed, y);
                            assert(g[n + 1].0.contains(y));
                            assert(frame_covers(listing, g[n + 1], e));
                        }
                    }
                }
            } else {
                assert forall|e: ScanEntry<P>| #![trigger reachable(listing, base, 0usize, e)]
                    reachable(listing, base, 0usize, e) && wanted(cfg, e) implies exists|i: int|
                        0 <= i < t.frames.len() && #[trigger] frame_covers(listing, t.frames[i], e) by {
                    let i = choose|i: int| 0 <= i < u.frames.len() && #[trigger] frame_covers(listing, u.frames[i], e);
                    if i < n {
                        assert(t.frames[i] == u.frames[i]);
                    } else {
                        assert(t.frames[n] == rest[n]);
                        if e == e0 {
                            assert(slot(cfg, t) is Some);
                        }
                    }
                }
                lemma_all_ahead_step(listing, base, cfg, t);
            }
        }
    }
}


proof fn lemma_walk_keeps_slot<P>(listing: spec_fn(P, usize) -> Seq<ScanEntry<P>>, cfg: bool, u: ScanView<P>)
    requires
        depths_in_order(u.frames),
    ensures
        slot(cfg, advance(u).0) is Some ==> slot(cfg, walk_from(listing, u)) == slot(cfg, advance(u).0),
    decreases size_at(u.frames, 0), size_at(u.frames, 1), size_at(u.frames, 2), size_at(u.frames, 3),
        size_at(u.frames, 4), size_at(u.frames, 5), size_at(u.frames, 6), size_at(u.frames, 7),
        size_at(u.frames, 8),
{
    if let (s, ScanAction::ReadDir(p, d)) = advance(u) {
        let next = enter(s, d, sort_entries(listing(p, d)));
        law_scan_walk_ends(u, sort_entries(listing(p, d)));
        lemma_sizes_descend(next.frames, u.frames);
        lemma_slot_kept(cfg, next);
        lemma_walk_keeps_slot(listing, cfg, next);
    }
}

proof fn lemma_walk_sees<P>(listing: spec_fn(P, usize) -> Seq<ScanEntry<P>>, base: P, cfg: bool, u: ScanView<P>)
    requires
        depths_in_order(u.frames),
        slot(cfg, u) is None,
        all_ahead(listing, base, cfg, u.frames),
    ensures
        slot(cfg, walk_from(listing, u)) is None ==> forall|e: ScanEntry<P>|
            reachable(listing, base, 0usize, e) ==> !wanted(cfg, e),
    decreases size_at(u.frames, 0), size_at(u.frames, 1), size_at(u.frames, 2), size_at(u.frames, 3),
        size_at(u.frames, 4), size_at(u.frames, 5), size_at(u.frames, 6), size_at(u.frames, 7),
        size_at(u.frames, 8),
{
    lemma_walk_keeps_slot(listing, cfg, u);
    if slot(cfg, advance(u).0) is None {
        lemma_all_ahead_step(listing, base, cfg, u);
        if let (s, ScanAction::ReadDir(p, d)) = advance(u) {
            let next = enter(s, d, sort_entries(listing(p, d)));
            law_scan_walk_ends(u, sort_entries(listing(p, d)));
            lemma_sizes_descend(next.frames, u.frames);
            lemma_walk_sees(listing, base, cfg, next);
        }
    }
}

/// The walk misses nothing: when it ends without `config.json` (`cfg`), or
/// without the sing-box executable, no file it can reach from the base
/// directory, within its depth, is one.
pub proof fn law_walk_misses_nothing<P>(listing: spec_fn(P, usize) -> Seq<ScanEntry<P>>, base: P, cfg: bool)
    ensures
        slot(cfg, walk_from(listing, walk_start(listing, base))) is None ==> forall|e: ScanEntry<P>|
            reachable(listing, base, 0usize, e) ==> !wanted(cfg, e),
{
    let u = walk_start(listing, base);
    let top = u.frames[0];
    assert(top.0 == sort_entries(listing(base, 0)).reverse());
    assert forall|e: ScanEntry<P>| #![trigger reachable(listing, base, 0usize, e)]
        reachable(listing, base, 0usize, e) && wanted(cfg, e) implies exists|i: int|
            0 <= i < u.frames.len() && #[trigger] frame_covers(listing, u.frames[i], e) by {
        if listing(base, 0).contains(e) {
            lemma_sorted_keeps(listing(base, 0), e);
        } else {
            let x = choose|x: ScanEntry<P>|
                #[trigger] listing(base, 0).contains(x) && x.kind == EntryKind::Dir && reachable(listing, x.path, 1usize, e);
            lemma_sorted_keeps(listing(base, 0), x);
        }
        assert(frame_covers(listing, u.frames[0], e));
    }
    lemma_walk_sees(listing, base, cfg, u);
}

} // verus!
