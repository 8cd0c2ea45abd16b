//! Which cameras there are and what they can do, read from the listings of
//! `libcamera-vid --list-cameras` and `v4l2-ctl`.
//!
//! The result is a tree of four levels (camera or device group, capture source,
//! pixel format, frame sizes), kept as tables in the order in which its entries
//! were made: an entry names its parent by position. Rebuilding the tree entry
//! by entry, where a later entry with the same name under the same parent
//! replaces the earlier one, gives what the camera app reports.
use vstd::prelude::*;
use crate::commands::{opt_view, resolution_chars, spec_resolution, views};
use crate::text::{
    has_prefix, lemma_split_nonempty, lines, lines_chars, piece, skip_bytes, skip_bytes_chars,
    split, split_chars, starts_with, to_chars, from_chars, trim, trim_chars,
};

verus! {

// ---------------------------------------------------------------------------
// Tables
// ---------------------------------------------------------------------------

/// An entry of the tree: its name, and the position of its parent in the
/// table of the level above.
pub struct Entry {
    pub parent: usize,
    pub name: String,
}

/// A frame size, and the position of its pixel format in the format table.
#[derive(Clone, Copy)]
pub struct SizeEntry {
    pub format: usize,
    pub width: i64,
    pub height: i64,
}

/// The cameras found, as tables (see the module documentation).
pub struct ProbeTables {
    /// Top-level names: the cameras, or the device groups of V4L2.
    pub groups: Vec<String>,
    /// Capture sources under the groups.
    pub sources: Vec<Entry>,
    /// Pixel formats under the sources.
    pub formats: Vec<Entry>,
    /// Frame sizes under the formats.
    pub sizes: Vec<SizeEntry>,
}

/// The mathematical content of `ProbeTables`.
pub struct TablesV {
    pub groups: Seq<Seq<char>>,
    pub sources: Seq<(int, Seq<char>)>,
    pub formats: Seq<(int, Seq<char>)>,
    pub sizes: Seq<(int, i64, i64)>,
}

/// The view of an entry.
pub open spec fn entry_view(e: Entry) -> (int, Seq<char>) {
    (e.parent as int, e.name@)
}

/// The view of a size.
pub open spec fn size_view(e: SizeEntry) -> (int, i64, i64) {
    (e.format as int, e.width, e.height)
}

impl View for ProbeTables {
    type V = TablesV;

    open spec fn view(&self) -> TablesV {
        TablesV {
            groups: self.groups@.map_values(|s: String| s@),
            sources: self.sources@.map_values(|e: Entry| entry_view(e)),
            formats: self.formats@.map_values(|e: Entry| entry_view(e)),
            sizes: self.sizes@.map_values(|e: SizeEntry| size_view(e)),
        }
    }
}

/// Every entry names an existing parent: a position in the table above.
pub open spec fn tables_wf(t: TablesV) -> bool {
    &&& forall|i: int| 0 <= i < t.sources.len() ==> 0 <= #[trigger] t.sources[i].0 < t.groups.len()
    &&& forall|i: int| 0 <= i < t.formats.len() ==> 0 <= #[trigger] t.formats[i].0 < t.sources.len()
    &&& forall|i: int| 0 <= i < t.sizes.len() ==> 0 <= #[trigger] t.sizes[i].0 < t.formats.len()
}

/// Empty tables.
pub open spec fn empty_tables() -> TablesV {
    TablesV {
        groups: Seq::empty(),
        sources: Seq::empty(),
        formats: Seq::empty(),
        sizes: Seq::empty(),
    }
}

impl ProbeTables {
    /// Empty tables.
    pub fn new() -> (t: ProbeTables)
        ensures
            t@ == empty_tables(),
    {
        let t = ProbeTables {
            groups: Vec::new(),
            sources: Vec::new(),
            formats: Vec::new(),
            sizes: Vec::new(),
        };
        proof {
            assert(t@.groups =~= Seq::<Seq<char>>::empty());
            assert(t@.sources =~= Seq::<(int, Seq<char>)>::empty());
            assert(t@.formats =~= Seq::<(int, Seq<char>)>::empty());
            assert(t@.sizes =~= Seq::<(int, i64, i64)>::empty());
        }
        t
    }

    fn add_group(&mut self, name: String) -> (i: usize)
        ensures
            i == old(self)@.groups.len(),
            final(self)@ == (TablesV { groups: old(self)@.groups.push(name@), ..old(self)@ }),
    {
        let i = self.groups.len();
        let ghost n = name@;
        self.groups.push(name);
        proof {
            assert(self@.groups =~= old(self)@.groups.push(n));
            assert(self@.sources =~= old(self)@.sources);
            assert(self@.formats =~= old(self)@.formats);
            assert(self@.sizes =~= old(self)@.sizes);
        }
        i
    }

    fn add_source(&mut self, parent: usize, name: String) -> (i: usize)
        ensures
            i == old(self)@.sources.len(),
            final(self)@ == (TablesV {
                sources: old(self)@.sources.push((parent as int, name@)),
                ..old(self)@
            }),
    {
        let i = self.sources.len();
        let ghost n = name@;
        self.sources.push(Entry { parent, name });
        proof {
            assert(self@.groups =~= old(self)@.groups);
            assert(self@.sources =~= old(self)@.sources.push((parent as int, n)));
            assert(self@.formats =~= old(self)@.formats);
            assert(self@.sizes =~= old(self)@.sizes);
        }
        i
    }

    fn add_format(&mut self, parent: usize, name: String) -> (i: usize)
        ensures
            i == old(self)@.formats.len(),
            final(self)@ == (TablesV {
                formats: old(self)@.formats.push((parent as int, name@)),
                ..old(self)@
            }),
    {
        let i = self.formats.len();
        let ghost n = name@;
        self.formats.push(Entry { parent, name });
        proof {
            assert(self@.groups =~= old(self)@.groups);
            assert(self@.sources =~= old(self)@.sources);
            assert(self@.formats =~= old(self)@.formats.push((parent as int, n)));
            assert(self@.sizes =~= old(self)@.sizes);
        }
        i
    }

    fn add_size(&mut self, format: usize, width: i64, height: i64)
        ensures
            final(self)@ == (TablesV {
                sizes: old(self)@.sizes.push((format as int, width, height)),
                ..old(self)@
            }),
    {
        self.sizes.push(SizeEntry { format, width, height });
        proof {
            assert(self@.groups =~= old(self)@.groups);
            assert(self@.sources =~= old(self)@.sources);
            assert(self@.formats =~= old(self)@.formats);
            assert(self@.sizes =~= old(self)@.sizes.push((format as int, width, height)));
        }
    }
}

/// The low 16 bits of a character's code (the `as u16` of the listing reader).
pub open spec fn low16(c: char) -> int {
    ((c as u32) % 65536) as int
}

fn low16_of(c: char) -> (r: u32)
    ensures
        r == low16(c),
{
    (c as u32) % 65536
}

// ---------------------------------------------------------------------------
// libcamera listing
// ---------------------------------------------------------------------------

/// Where the reader of a libcamera listing stands: whether the line of dashes
/// under the title has been passed, what has been found, the source of the
/// camera being read, and the format that sizes go to (`None`: nowhere).
pub struct LcState {
    pub started: bool,
    pub t: TablesV,
    pub cam: Option<int>,
    pub target: Option<int>,
}

/// A new camera: a group named `name` with the single source `libcamera-apps`.
pub open spec fn lc_add_camera(st: LcState, name: Seq<char>) -> LcState {
    LcState {
        t: TablesV {
            groups: st.t.groups.push(name),
            sources: st.t.sources.push((st.t.groups.len() as int, "libcamera-apps"@)),
            ..st.t
        },
        cam: Some(st.t.sources.len() as int),
        ..st
    }
}

/// A new pixel format of the camera being read; when no camera is being read
/// the format (and its sizes) go nowhere.
pub open spec fn lc_add_format(st: LcState, name: Seq<char>) -> LcState {
    match st.cam {
        Some(c) => LcState {
            t: TablesV { formats: st.t.formats.push((c, name)), ..st.t },
            target: Some(st.t.formats.len() as int),
            ..st
        },
        None => LcState { target: None, ..st },
    }
}

/// A frame size of the current format.
pub open spec fn lc_add_size(st: LcState, w: i64, h: i64) -> LcState {
    match st.target {
        Some(f) => LcState { t: TablesV { sizes: st.t.sizes.push((f, w, h)), ..st.t }, ..st },
        None => st,
    }
}

/// The text that holds the frame size on a mode line: after the quoted format
/// name (the format is recorded) or, on a continuation line, the trimmed line.
pub open spec fn lc_mode_text(st: LcState, line: Seq<char>) -> Option<(LcState, Seq<char>)> {
    if low16(line[11]) == 39 {
        match skip_bytes(line, 12) {
            None => None,
            Some(r) => {
                let parts = split(r, '\'');
                let st2 = lc_add_format(st, parts[0]);
                if parts.len() < 2 {
                    None
                } else {
                    match skip_bytes(parts[1], 3) {
                        None => None,
                        Some(r2) => Some((st2, r2)),
                    }
                }
            },
        }
    } else {
        Some((st, trim(line)))
    }
}

/// One line of a libcamera listing; `None` where reading it panics.
pub open spec fn lc_step(st: LcState, line: Seq<char>) -> Option<LcState> {
    if !st.started {
        Some(LcState { started: has_prefix(line, "-"@), ..st })
    } else if line.len() == 0 {
        None
    } else if low16(line[0]) == 32 {
        if line.len() < 12 {
            None
        } else {
            match lc_mode_text(st, line) {
                None => None,
                Some((st2, text)) => match spec_resolution(split(text, ' ')[0]) {
                    None => None,
                    Some((w, h)) => Some(lc_add_size(st2, w, h)),
                },
            }
        }
    } else {
        match piece(line, ':', 1) {
            None => None,
            Some(rest) => Some(lc_add_camera(st, "Raspberry Pi - "@ + trim(rest))),
        }
    }
}

/// Reading the lines `ls` in order from `st`.
pub open spec fn lc_run(st: LcState, ls: Seq<Seq<char>>) -> Option<LcState>
    decreases ls.len(),
{
    if ls.len() == 0 {
        Some(st)
    } else {
        match lc_run(st, ls.drop_last()) {
            None => None,
            Some(s) => lc_step(s, ls.last()),
        }
    }
}

/// The reader refers only to entries that exist.
pub open spec fn lc_wf(st: LcState) -> bool {
    &&& tables_wf(st.t)
    &&& st.cam matches Some(c) ==> 0 <= c < st.t.sources.len()
    &&& st.target matches Some(f) ==> 0 <= f < st.t.formats.len()
}

/// Formats go to the camera listed last (nowhere before the first camera),
/// and sizes to the format listed last (nowhere before the first format).
pub open spec fn lc_latest(st: LcState) -> bool {
    &&& st.cam == if st.t.sources.len() == 0 {
        None::<int>
    } else {
        Some(st.t.sources.len() - 1)
    }
    &&& st.target matches Some(f) ==> f == st.t.formats.len() - 1
}

/// `a` extends `b`: every table of `b` is a prefix of the same table of `a`.
pub open spec fn tables_extend(a: TablesV, b: TablesV) -> bool {
    &&& a.groups.len() >= b.groups.len() && a.groups.take(b.groups.len() as int) == b.groups
    &&& a.sources.len() >= b.sources.len() && a.sources.take(b.sources.len() as int) == b.sources
    &&& a.formats.len() >= b.formats.len() && a.formats.take(b.formats.len() as int) == b.formats
    &&& a.sizes.len() >= b.sizes.len() && a.sizes.take(b.sizes.len() as int) == b.sizes
}

proof fn lemma_tables_extend_refl(t: TablesV)
    ensures
        tables_extend(t, t),
{
    assert(t.groups.take(t.groups.len() as int) =~= t.groups);
    assert(t.sources.take(t.sources.len() as int) =~= t.sources);
    assert(t.formats.take(t.formats.len() as int) =~= t.formats);
    assert(t.sizes.take(t.sizes.len() as int) =~= t.sizes);
}

/// Law: reading a line of a libcamera listing keeps what was found and files
/// a new pixel format under the camera listed last, and a new frame size
/// under the format listed last; so each camera's formats are those listed
/// after it, and each format's sizes those listed after it.
pub proof fn lemma_lc_step_files_under_latest(st: LcState, line: Seq<char>)
    requires
        lc_latest(st),
    ensures
        lc_step(st, line) matches Some(st2) ==> {
            &&& lc_latest(st2)
            &&& tables_extend(st2.t, st.t)
            &&& forall|j: int|
                st.t.formats.len() <= j < st2.t.formats.len() ==> #[trigger] st2.t.formats[j].0
                    == st2.t.sources.len() - 1
            &&& forall|j: int|
                st.t.sizes.len() <= j < st2.t.sizes.len() ==> #[trigger] st2.t.sizes[j].0
                    == st2.t.formats.len() - 1
        },
{
    lemma_tables_extend_refl(st.t);
    if !st.started {
    } else if line.len() == 0 {
    } else if low16(line[0]) == 32 {
        if line.len() >= 12 {
            match lc_mode_text(st, line) {
                None => {},
                Some((st2, text)) => {
                    if low16(line[11]) == 39 {
                        match skip_bytes(line, 12) {
                            None => {},
                            Some(r) => {
                                let parts = split(r, '\'');
                                let s3 = lc_add_format(st, parts[0]);
                                assert(s3 == st2);
                                if st.cam is Some {
                                    assert(s3.t.formats.take(st.t.formats.len() as int) =~= st.t.formats);
                                }
                                lemma_tables_extend_refl(s3.t);
                            },
                        }
                    }
                    match spec_resolution(split(text, ' ')[0]) {
                        None => {},
                        Some((w, h)) => {
                            let s4 = lc_add_size(st2, w, h);
                            if st2.target is Some {
                                assert(s4.t.sizes.take(st.t.sizes.len() as int) =~= st.t.sizes);
                            }
                        },
                    }
                },
            }
        }
    } else {
        match piece(line, ':', 1) {
            None => {},
            Some(rest) => {
                let s2 = lc_add_camera(st, "Raspberry Pi - "@ + trim(rest));
                assert(s2.t.groups.take(st.t.groups.len() as int) =~= st.t.groups);
                assert(s2.t.sources.take(st.t.sources.len() as int) =~= st.t.sources);
            },
        }
    }
}

/// The state before the first line.
pub open spec fn lc_init() -> LcState {
    LcState { started: false, t: empty_tables(), cam: None, target: None }
}

/// The cameras of a libcamera listing; `None` where reading it panics.
pub open spec fn spec_libcamera_cameras(out: Seq<char>) -> Option<TablesV> {
    match lc_run(lc_init(), lines(out)) {
        Some(s) => Some(s.t),
        None => None,
    }
}

struct LcExec {
    started: bool,
    t: ProbeTables,
    cam: Option<usize>,
    target: Option<usize>,
}

/// An optional position as an integer.
pub open spec fn opt_int(o: Option<usize>) -> Option<int> {
    match o {
        Some(x) => Some(x as int),
        None => None,
    }
}

impl LcExec {
    spec fn view_state(&self) -> LcState {
        LcState { started: self.started, t: self.t@, cam: opt_int(self.cam), target: opt_int(self.target) }
    }
}

fn lc_line(st: &mut LcExec, line: &[char]) -> (ok: bool)
    requires
        lc_wf(old(st).view_state()),
    ensures
        match lc_step(old(st).view_state(), line@) {
            None => !ok,
            Some(s) => ok && final(st).view_state() == s,
        },
        ok ==> lc_wf(final(st).view_state()),
{
    if !st.started {
        st.started = starts_with(line, to_chars("-").as_slice());
        return true;
    }
    if line.len() == 0 {
        return false;
    }
    if low16_of(line[0]) == 32 {
        if line.len() < 12 {
            return false;
        }
        let ghost st0 = st.view_state();
        let text: Vec<char> = if low16_of(line[11]) == 39 {
            let r = match skip_bytes_chars(line, 12) {
                None => return false,
                Some(r) => r,
            };
            let parts = split_chars(r.as_slice(), '\'');
            proof {
                lemma_split_nonempty(r@, '\'');
            }
            let name = from_chars(parts[0].as_slice());
            match st.cam {
                Some(c) => {
                    let f = st.t.add_format(c, name);
                    st.target = Some(f);
                },
                None => {
                    st.target = None;
                },
            }
            if parts.len() < 2 {
                return false;
            }
            match skip_bytes_chars(parts[1].as_slice(), 3) {
                None => return false,
                Some(t) => t,
            }
        } else {
            trim_chars(line)
        };
        proof {
            assert(lc_mode_text(st0, line@) == Some((st.view_state(), text@)));
        }
        let words = split_chars(text.as_slice(), ' ');
        proof {
            lemma_split_nonempty(text@, ' ');
        }
        match resolution_chars(words[0].as_slice()) {
            None => false,
            Some((w, h)) => {
                match st.target {
                    Some(f) => st.t.add_size(f, w, h),
                    None => {},
                }
                true
            },
        }
    } else {
        let parts = split_chars(line, ':');
        if parts.len() < 2 {
            return false;
        }
        let mut name = to_chars("Raspberry Pi - ");
        let rest = trim_chars(parts[1].as_slice());
        let mut i: usize = 0;
        let ghost prefix = name@;
        while i < rest.len()
            invariant
                i <= rest@.len(),
                name@ == prefix + rest@.take(i as int),
            decreases rest.len() - i,
        {
            name.push(rest[i]);
            proof {
                assert(rest@.take(i as int).push(rest@[i as int]) =~= rest@.take(i + 1));
            }
            i = i + 1;
        }
        proof {
            assert(rest@.take(rest@.len() as int) =~= rest@);
        }
        let g = st.t.add_group(from_chars(name.as_slice()));
        let s = st.t.add_source(g, String::from_str("libcamera-apps"));
        st.cam = Some(s);
        true
    }
}

/// The cameras of the output of `libcamera-vid --list-cameras`: each camera
/// line gives a camera named `Raspberry Pi - ` and its description, with the
/// source `libcamera-apps`; mode lines give its pixel formats and frame sizes.
/// `None` where reading the listing panics.
pub fn libcamera_cameras(out: &str) -> (r: Option<ProbeTables>)
    ensures
        match spec_libcamera_cameras(out@) {
            Some(t) => r matches Some(x) && x@ == t,
            None => r is None,
        },
        r matches Some(x) ==> tables_wf(x@),
{
    let ls = lines_chars(to_chars(out).as_slice());
    let mut st = LcExec { started: false, t: ProbeTables::new(), cam: None, target: None };
    let mut i: usize = 0;
    proof {
        assert(lines(out@).take(0) =~= Seq::<Seq<char>>::empty());
    }
    while i < ls.len()
        invariant
            i <= ls@.len() == lines(out@).len(),
            forall|k: int| 0 <= k < ls@.len() ==> #[trigger] ls@[k]@ == lines(out@)[k],
            lc_run(lc_init(), lines(out@).take(i as int)) == Some(st.view_state()),
            lc_wf(st.view_state()),
        decreases ls.len() - i,
    {
        proof {
            assert(lines(out@).take(i + 1).drop_last() =~= lines(out@).take(i as int));
        }
        if !lc_line(&mut st, ls[i].as_slice()) {
            proof {
                assert(lines(out@).take(i + 1).last() == ls@[i as int]@);
                lemma_lc_run_stuck(lc_init(), lines(out@), i + 1);
            }
            return None;
        }
        i = i + 1;
    }
    proof {
        assert(lines(out@).take(ls@.len() as int) =~= lines(out@));
    }
    Some(st.t)
}

/// Once reading stops, it stays stopped.
proof fn lemma_lc_run_stuck(st: LcState, ls: Seq<Seq<char>>, k: int)
    requires
        0 <= k <= ls.len(),
        lc_run(st, ls.take(k)) is None,
    ensures
        lc_run(st, ls) is None,
    decreases ls.len() - k,
{
    if k < ls.len() {
        assert(ls.take(k + 1).drop_last() =~= ls.take(k));
        lemma_lc_run_stuck(st, ls, k + 1);
    } else {
        assert(ls.take(k) =~= ls);
    }
}


// ---------------------------------------------------------------------------
// V4L2 formats of one device
// ---------------------------------------------------------------------------

/// The frame sizes offered for a camera that reports a stepwise size range.
pub open spec fn size_checks() -> Seq<(i64, i64)> {
    seq![(1920, 1080), (1280, 720), (800, 600), (640, 480), (480, 360), (320, 240), (240, 180)]
}

fn size_check(i: usize) -> (r: (i64, i64))
    requires
        i < 7,
    ensures
        r == size_checks()[i as int],
{
    if i == 0 {
        (1920, 1080)
    } else if i == 1 {
        (1280, 720)
    } else if i == 2 {
        (800, 600)
    } else if i == 3 {
        (640, 480)
    } else if i == 4 {
        (480, 360)
    } else if i == 5 {
        (320, 240)
    } else {
        (240, 180)
    }
}

/// Whether a size lies in the range from `(minx, miny)` to `(maxx, maxy)`.
pub open spec fn fits(c: (i64, i64), minx: i64, miny: i64, maxx: i64, maxy: i64) -> bool {
    c.0 >= minx && c.1 >= miny && c.0 <= maxx && c.1 <= maxy
}

/// The sizes of `cs` that lie in the range, in order.
pub open spec fn fitting(cs: Seq<(i64, i64)>, minx: i64, miny: i64, maxx: i64, maxy: i64) -> Seq<(i64, i64)>
    decreases cs.len(),
{
    if cs.len() == 0 {
        Seq::empty()
    } else {
        let p = fitting(cs.drop_last(), minx, miny, maxx, maxy);
        if fits(cs.last(), minx, miny, maxx, maxy) {
            p.push(cs.last())
        } else {
            p
        }
    }
}

/// Law: the sizes offered for a stepwise range are exactly the standard sizes
/// that lie in the range: each offered size is a standard size in the range,
/// and each standard size in the range is offered.
pub proof fn lemma_fitting_exact(cs: Seq<(i64, i64)>, minx: i64, miny: i64, maxx: i64, maxy: i64)
    ensures
        forall|i: int|
            0 <= i < fitting(cs, minx, miny, maxx, maxy).len() ==> fits(
                #[trigger] fitting(cs, minx, miny, maxx, maxy)[i],
                minx,
                miny,
                maxx,
                maxy,
            ) && cs.contains(fitting(cs, minx, miny, maxx, maxy)[i]),
        forall|c: (i64, i64)|
            #[trigger] cs.contains(c) && fits(c, minx, miny, maxx, maxy) ==> fitting(
                cs,
                minx,
                miny,
                maxx,
                maxy,
            ).contains(c),
    decreases cs.len(),
{
    if cs.len() > 0 {
        let p = cs.drop_last();
        lemma_fitting_exact(p, minx, miny, maxx, maxy);
        let f = fitting(cs, minx, miny, maxx, maxy);
        let fp = fitting(p, minx, miny, maxx, maxy);
        assert forall|i: int| 0 <= i < f.len() implies fits(#[trigger] f[i], minx, miny, maxx, maxy) && cs.contains(f[i]) by {
            if i < fp.len() {
                assert(f[i] == fp[i]);
                assert(fits(fp[i], minx, miny, maxx, maxy) && p.contains(fp[i]));
                let j = choose|j: int| 0 <= j < p.len() && p[j] == fp[i];
                assert(cs[j] == f[i]);
            } else {
                assert(f[i] == cs.last());
                assert(cs[cs.len() - 1] == f[i]);
            }
        }
        assert forall|c: (i64, i64)| #[trigger] cs.contains(c) && fits(c, minx, miny, maxx, maxy) implies f.contains(c) by {
            let j = choose|j: int| 0 <= j < cs.len() && cs[j] == c;
            if j < cs.len() - 1 {
                assert(p[j] == c);
                assert(p.contains(c));
                assert(fp.contains(c));
                let k = choose|k: int| 0 <= k < fp.len() && fp[k] == c;
                assert(f[k] == c);
            } else {
                assert(f[f.len() - 1] == c);
            }
        }
    }
}

/// Where the reader of one device's format listing stands: the formats found,
/// their sizes (by format position), the format that sizes go to, and whether
/// any size was read.
pub struct FmtState {
    pub formats: Seq<Seq<char>>,
    pub sizes: Seq<(int, i64, i64)>,
    pub target: Option<int>,
    pub found: bool,
}

/// One size read.
pub open spec fn fmt_add_size(st: FmtState, c: (i64, i64)) -> FmtState {
    match st.target {
        Some(f) => FmtState { sizes: st.sizes.push((f, c.0, c.1)), found: true, ..st },
        None => FmtState { found: true, ..st },
    }
}

/// The sizes `cs` read, in order.
pub open spec fn fmt_add_sizes(st: FmtState, cs: Seq<(i64, i64)>) -> FmtState
    decreases cs.len(),
{
    if cs.len() == 0 {
        st
    } else {
        fmt_add_size(fmt_add_sizes(st, cs.drop_last()), cs.last())
    }
}

/// A `[n]: 'NAME' ...` header starts a new format.
pub open spec fn fmt_header(st: FmtState, l: Seq<char>) -> Option<FmtState> {
    if has_prefix(l, "["@) {
        match piece(l, '\'', 1) {
            None => None,
            Some(name) => Some(
                FmtState {
                    formats: st.formats.push(name),
                    target: Some(st.formats.len() as int),
                    ..st
                },
            ),
        }
    } else {
        Some(st)
    }
}

/// The sizes of a `Size: ...` line (after `Size: `).
pub open spec fn fmt_sizes(st: FmtState, l2: Seq<char>) -> Option<FmtState> {
    if has_prefix(l2, "Stepwise "@) {
        match skip_bytes(l2, 9) {
            None => None,
            Some(l3) => {
                let v = split(l3, ' ');
                if v.len() < 3 {
                    None
                } else {
                    match (spec_resolution(v[0]), spec_resolution(v[2])) {
                        (Some((a, b)), Some((c, d))) => Some(
                            fmt_add_sizes(st, fitting(size_checks(), a, b, c, d)),
                        ),
                        _ => None,
                    }
                }
            },
        }
    } else if has_prefix(l2, "Discrete "@) {
        match skip_bytes(l2, 9) {
            None => None,
            Some(l3) => match spec_resolution(l3) {
                None => None,
                Some((x, y)) => Some(fmt_add_size(st, (x, y))),
            },
        }
    } else {
        Some(st)
    }
}

/// One line of a `v4l2-ctl --list-formats-ext` listing; `None` where reading
/// it panics.
pub open spec fn fmt_step(st: FmtState, raw: Seq<char>) -> Option<FmtState> {
    let l = trim(raw);
    match fmt_header(st, l) {
        None => None,
        Some(st1) => if has_prefix(l, "Size: "@) {
            match skip_bytes(l, 6) {
                None => None,
                Some(l2) => fmt_sizes(st1, l2),
            }
        } else {
            Some(st1)
        },
    }
}

/// Reading the lines `ls` in order from `st`.
pub open spec fn fmt_run(st: FmtState, ls: Seq<Seq<char>>) -> Option<FmtState>
    decreases ls.len(),
{
    if ls.len() == 0 {
        Some(st)
    } else {
        match fmt_run(st, ls.drop_last()) {
            None => None,
            Some(s) => fmt_step(s, ls.last()),
        }
    }
}

/// Sizes go to the format listed last, and to none before any format is.
pub open spec fn targets_latest(st: FmtState) -> bool {
    st.target == if st.formats.len() == 0 {
        None::<int>
    } else {
        Some(st.formats.len() - 1)
    }
}

/// Reading sizes keeps the formats and the target, keeps the sizes read
/// before, and files each new size under the target.
proof fn lemma_add_sizes_under_target(st: FmtState, cs: Seq<(i64, i64)>)
    ensures
        fmt_add_sizes(st, cs).formats == st.formats,
        fmt_add_sizes(st, cs).target == st.target,
        fmt_add_sizes(st, cs).sizes.len() >= st.sizes.len(),
        fmt_add_sizes(st, cs).sizes.take(st.sizes.len() as int) == st.sizes,
        st.target is None ==> fmt_add_sizes(st, cs).sizes == st.sizes,
        forall|j: int|
            st.sizes.len() <= j < fmt_add_sizes(st, cs).sizes.len() ==> st.target == Some(
                #[trigger] fmt_add_sizes(st, cs).sizes[j].0,
            ),
    decreases cs.len(),
{
    if cs.len() == 0 {
        assert(st.sizes.take(st.sizes.len() as int) =~= st.sizes);
    } else {
        lemma_add_sizes_under_target(st, cs.drop_last());
        let a = fmt_add_sizes(st, cs.drop_last());
        let b = fmt_add_sizes(st, cs);
        assert(b == fmt_add_size(a, cs.last()));
        if a.target is Some {
            assert(b.sizes.take(st.sizes.len() as int) =~= a.sizes.take(st.sizes.len() as int));
        }
    }
}

/// Law: reading a line of a format listing files every frame size it gives
/// under the format whose header came last before it, and under no format
/// where none came yet: the formats and sizes read before are kept, sizes go
/// to the latest format, and a header makes its format the latest.
pub proof fn lemma_fmt_step_files_under_latest(st: FmtState, raw: Seq<char>)
    requires
        targets_latest(st),
    ensures
        fmt_step(st, raw) matches Some(st2) ==> {
            &&& targets_latest(st2)
            &&& st2.formats.len() >= st.formats.len()
            &&& st2.formats.take(st.formats.len() as int) == st.formats
            &&& st2.sizes.len() >= st.sizes.len()
            &&& st2.sizes.take(st.sizes.len() as int) == st.sizes
            &&& forall|j: int|
                st.sizes.len() <= j < st2.sizes.len() ==> #[trigger] st2.sizes[j].0 == st2.formats.len() - 1
        },
{
    let l = trim(raw);
    assert(st.formats.take(st.formats.len() as int) =~= st.formats);
    assert(st.sizes.take(st.sizes.len() as int) =~= st.sizes);
    match fmt_header(st, l) {
        None => {},
        Some(st1) => {
            assert(st1.formats.take(st.formats.len() as int) =~= st.formats);
            assert(st1.sizes == st.sizes);
            assert(targets_latest(st1));
            if has_prefix(l, "Size: "@) {
                match skip_bytes(l, 6) {
                    None => {},
                    Some(l2) => {
                        if has_prefix(l2, "Stepwise "@) {
                            match skip_bytes(l2, 9) {
                                None => {},
                                Some(l3) => {
                                    let v = split(l3, ' ');
                                    if v.len() >= 3 {
                                        match (spec_resolution(v[0]), spec_resolution(v[2])) {
                                            (Some((a, b)), Some((c, d))) => {
                                                lemma_add_sizes_under_target(st1, fitting(size_checks(), a, b, c, d));
                                            },
                                            _ => {},
                                        }
                                    }
                                },
                            }
                        } else if has_prefix(l2, "Discrete "@) {
                            match skip_bytes(l2, 9) {
                                None => {},
                                Some(l3) => match spec_resolution(l3) {
                                    None => {},
                                    Some((x, y)) => {
                                        let st2 = fmt_add_size(st1, (x, y));
                                        if st1.target is Some {
                                            assert(st2.sizes.take(st.sizes.len() as int) =~= st.sizes);
                                        }
                                    },
                                },
                            }
                        }
                    },
                }
            }
        },
    }
}

/// Every size and the current format refer to a format that was read.
pub open spec fn fmt_wf(st: FmtState) -> bool {
    &&& forall|i: int| 0 <= i < st.sizes.len() ==> 0 <= #[trigger] st.sizes[i].0 < st.formats.len()
    &&& st.target matches Some(t) ==> 0 <= t < st.formats.len()
}

/// The state before the first line.
pub open spec fn fmt_init() -> FmtState {
    FmtState { formats: Seq::empty(), sizes: Seq::empty(), target: None, found: false }
}

/// The formats of one device's listing; `None` where reading it panics.
pub open spec fn spec_device_formats(out: Seq<char>) -> Option<FmtState> {
    fmt_run(fmt_init(), lines(out))
}

/// The formats of one V4L2 device.
pub struct DeviceFormats {
    /// The format names, in order.
    pub formats: Vec<String>,
    /// Frame sizes, each with the position of its format.
    pub sizes: Vec<SizeEntry>,
    /// The format that further sizes would go to.
    pub target: Option<usize>,
    /// Whether any frame size was read.
    pub found: bool,
}

impl View for DeviceFormats {
    type V = FmtState;

    open spec fn view(&self) -> FmtState {
        FmtState {
            formats: self.formats@.map_values(|s: String| s@),
            sizes: self.sizes@.map_values(|e: SizeEntry| size_view(e)),
            target: opt_int(self.target),
            found: self.found,
        }
    }
}

impl DeviceFormats {
    fn add_size(&mut self, c: (i64, i64))
        requires
            fmt_wf(old(self)@),
        ensures
            final(self)@ == fmt_add_size(old(self)@, c),
            fmt_wf(final(self)@),
    {
        match self.target {
            Some(f) => {
                self.sizes.push(SizeEntry { format: f, width: c.0, height: c.1 });
                proof {
                    assert(self@.sizes =~= old(self)@.sizes.push((f as int, c.0, c.1)));
                    assert(self@.formats =~= old(self)@.formats);
                }
            },
            None => {
                proof {
                    assert(self@.sizes =~= old(self)@.sizes);
                    assert(self@.formats =~= old(self)@.formats);
                }
            },
        }
        self.found = true;
    }

    fn add_format(&mut self, name: String)
        requires
            fmt_wf(old(self)@),
        ensures
            fmt_wf(final(self)@),
            final(self)@ == (FmtState {
                formats: old(self)@.formats.push(name@),
                target: Some(old(self)@.formats.len() as int),
                ..old(self)@
            }),
    {
        let f = self.formats.len();
        let ghost n = name@;
        self.formats.push(name);
        self.target = Some(f);
        proof {
            assert(self@.sizes =~= old(self)@.sizes);
            assert(self@.formats =~= old(self)@.formats.push(n));
        }
    }
}

fn fmt_sizes_exec(st: &mut DeviceFormats, l2: &[char]) -> (ok: bool)
    requires
        fmt_wf(old(st)@),
    ensures
        fmt_wf(final(st)@),
        match fmt_sizes(old(st)@, l2@) {
            None => !ok,
            Some(s) => ok && final(st)@ == s,
        },
{
    if starts_with(l2, to_chars("Stepwise ").as_slice()) {
        let l3 = match skip_bytes_chars(l2, 9) {
            None => return false,
            Some(l3) => l3,
        };
        let v = split_chars(l3.as_slice(), ' ');
        if v.len() < 3 {
            return false;
        }
        let lo = resolution_chars(v[0].as_slice());
        let hi = resolution_chars(v[2].as_slice());
        match (lo, hi) {
            (Some((a, b)), Some((c, d))) => {
                let ghost st0 = st@;
                let mut i: usize = 0;
                proof {
                    assert(size_checks().take(0) =~= Seq::<(i64, i64)>::empty());
                }
                while i < 7
                    invariant
                        i <= 7,
                        st@ == fmt_add_sizes(st0, fitting(size_checks().take(i as int), a, b, c, d)),
                        fmt_wf(st@),
                    decreases 7 - i,
                {
                    let k = size_check(i);
                    proof {
                        assert(size_checks().take(i + 1).drop_last() =~= size_checks().take(i as int));
                    }
                    if k.0 >= a && k.1 >= b && k.0 <= c && k.1 <= d {
                        let ghost prev = fitting(size_checks().take(i as int), a, b, c, d);
                        st.add_size(k);
                        proof {
                            assert(prev.push(k).drop_last() =~= prev);
                        }
                    }
                    i = i + 1;
                }
                proof {
                    assert(size_checks().take(7) =~= size_checks());
                }
                true
            },
            _ => false,
        }
    } else if starts_with(l2, to_chars("Discrete ").as_slice()) {
        let l3 = match skip_bytes_chars(l2, 9) {
            None => return false,
            Some(l3) => l3,
        };
        match resolution_chars(l3.as_slice()) {
            None => false,
            Some((x, y)) => {
                st.add_size((x, y));
                true
            },
        }
    } else {
        true
    }
}

fn fmt_line(st: &mut DeviceFormats, raw: &[char]) -> (ok: bool)
    requires
        fmt_wf(old(st)@),
    ensures
        fmt_wf(final(st)@),
        match fmt_step(old(st)@, raw@) {
            None => !ok,
            Some(s) => ok && final(st)@ == s,
        },
{
    let l = trim_chars(raw);
    if starts_with(l.as_slice(), to_chars("[").as_slice()) {
        let parts = split_chars(l.as_slice(), '\'');
        if parts.len() < 2 {
            return false;
        }
        st.add_format(from_chars(parts[1].as_slice()));
    }
    if starts_with(l.as_slice(), to_chars("Size: ").as_slice()) {
        match skip_bytes_chars(l.as_slice(), 6) {
            None => false,
            Some(l2) => fmt_sizes_exec(st, l2.as_slice()),
        }
    } else {
        true
    }
}

/// Once reading stops, it stays stopped.
proof fn lemma_fmt_run_stuck(st: FmtState, ls: Seq<Seq<char>>, k: int)
    requires
        0 <= k <= ls.len(),
        fmt_run(st, ls.take(k)) is None,
    ensures
        fmt_run(st, ls) is None,
    decreases ls.len() - k,
{
    if k < ls.len() {
        assert(ls.take(k + 1).drop_last() =~= ls.take(k));
        lemma_fmt_run_stuck(st, ls, k + 1);
    } else {
        assert(ls.take(k) =~= ls);
    }
}

/// The pixel formats and frame sizes of the output of
/// `v4l2-ctl --device=... --list-formats-ext`: `[n]: 'NAME' ...` lines start
/// formats; `Size: Discrete WxH` gives a size; `Size: Stepwise MINxMIN - MAXxMAX
/// ...` gives each of the standard sizes that lies in the range. `None` where
/// reading the listing panics.
pub fn device_formats(out: &str) -> (r: Option<DeviceFormats>)
    ensures
        match spec_device_formats(out@) {
            Some(s) => r matches Some(x) && x@ == s,
            None => r is None,
        },
        r matches Some(x) ==> fmt_wf(x@),
{
    let ls = lines_chars(to_chars(out).as_slice());
    let mut st = DeviceFormats { formats: Vec::new(), sizes: Vec::new(), target: None, found: false };
    proof {
        assert(st@.formats =~= Seq::<Seq<char>>::empty());
        assert(st@.sizes =~= Seq::<(int, i64, i64)>::empty());
        assert(lines(out@).take(0) =~= Seq::<Seq<char>>::empty());
    }
    let mut i: usize = 0;
    while i < ls.len()
        invariant
            i <= ls@.len() == lines(out@).len(),
            forall|k: int| 0 <= k < ls@.len() ==> #[trigger] ls@[k]@ == lines(out@)[k],
            fmt_run(fmt_init(), lines(out@).take(i as int)) == Some(st@),
            fmt_wf(st@),
        decreases ls.len() - i,
    {
        proof {
            assert(lines(out@).take(i + 1).drop_last() =~= lines(out@).take(i as int));
        }
        if !fmt_line(&mut st, ls[i].as_slice()) {
            proof {
                assert(lines(out@).take(i + 1).last() == ls@[i as int]@);
                lemma_fmt_run_stuck(fmt_init(), lines(out@), i + 1);
            }
            return None;
        }
        i = i + 1;
    }
    proof {
        assert(lines(out@).take(ls@.len() as int) =~= lines(out@));
    }
    Some(st)
}


// ---------------------------------------------------------------------------
// V4L2 device list
// ---------------------------------------------------------------------------

/// The device paths of a `v4l2-ctl --list-devices` listing: the trimmed
/// lines that start with a tab, in order.
pub open spec fn device_paths(ls: Seq<Seq<char>>) -> Seq<Seq<char>>
    decreases ls.len(),
{
    if ls.len() == 0 {
        Seq::empty()
    } else {
        let p = device_paths(ls.drop_last());
        let l = ls.last();
        if l.len() > 0 && low16(l[0]) == 9 {
            p.push(trim(l))
        } else {
            p
        }
    }
}

/// The command that lists the formats of the device `dev`.
pub open spec fn spec_formats_query(dev: Seq<char>) -> Seq<Seq<char>> {
    seq!["v4l2-ctl"@, "--device="@ + dev, "--list-formats-ext"@]
}

/// The format queries that a device listing calls for, one per device, in order.
pub open spec fn spec_format_queries(list_out: Seq<char>) -> Seq<Seq<Seq<char>>> {
    device_paths(lines(list_out)).map_values(|d: Seq<char>| spec_formats_query(d))
}

/// Where the reader of a device listing stands: what has been found, the
/// group that devices go to (`None`: nowhere) and how many devices were read.
pub struct V4State {
    pub t: TablesV,
    pub group: Option<int>,
    pub k: int,
}

/// The device `dev` with the formats `f`, added under the group `g`.
pub open spec fn v4_attach(t: TablesV, g: int, dev: Seq<char>, f: FmtState) -> TablesV {
    let s = t.sources.len() as int;
    let base = t.formats.len() as int;
    TablesV {
        groups: t.groups,
        sources: t.sources.push((g, dev)),
        formats: t.formats + f.formats.map_values(|n: Seq<char>| (s, n)),
        sizes: t.sizes + f.sizes.map_values(|e: (int, i64, i64)| (e.0 + base, e.1, e.2)),
    }
}

/// Law: attaching a device files its formats and frame sizes under it alone.
/// The tables before are kept as they were; the device becomes the last
/// source, under the group `g`; each of its formats becomes a format of that
/// source, in order; and each of its frame sizes is filed, in order, under
/// the format of that source that it was listed under, with its width and
/// height. So the sizes under a device's source are exactly that device's
/// sizes, and no size of one device lands under another device.
pub proof fn lemma_attach_files_sizes_under_device(t: TablesV, g: int, dev: Seq<char>, f: FmtState)
    requires
        tables_wf(t),
        fmt_wf(f),
        0 <= g < t.groups.len(),
    ensures
        ({
            let t2 = v4_attach(t, g, dev, f);
            let s = t.sources.len() as int;
            let n = t.formats.len() as int;
            let m = t.sizes.len() as int;
            &&& tables_wf(t2)
            &&& t2.groups == t.groups
            &&& t2.sources.len() == s + 1 && t2.sources.take(s) == t.sources && t2.sources[s] == (g, dev)
            &&& t2.formats.len() == n + f.formats.len() && t2.formats.take(n) == t.formats
            &&& forall|j: int| 0 <= j < f.formats.len() ==> #[trigger] t2.formats[n + j] == (s, f.formats[j])
            &&& t2.sizes.len() == m + f.sizes.len() && t2.sizes.take(m) == t.sizes
            &&& forall|j: int|
                0 <= j < f.sizes.len() ==> {
                    let e = #[trigger] t2.sizes[m + j];
                    &&& e.0 == n + f.sizes[j].0
                    &&& t2.formats[e.0] == (s, f.formats[f.sizes[j].0])
                    &&& e.1 == f.sizes[j].1 && e.2 == f.sizes[j].2
                }
            &&& forall|i: int| 0 <= i < m ==> #[trigger] t2.formats[t2.sizes[i].0].0 < s
        }),
{
    let t2 = v4_attach(t, g, dev, f);
    let s = t.sources.len() as int;
    let n = t.formats.len() as int;
    let m = t.sizes.len() as int;
    assert(t2.sources.take(s) =~= t.sources);
    assert(t2.formats.take(n) =~= t.formats);
    assert(t2.sizes.take(m) =~= t.sizes);
    assert forall|j: int| 0 <= j < f.sizes.len() implies {
        let e = #[trigger] t2.sizes[m + j];
        &&& e.0 == n + f.sizes[j].0
        &&& t2.formats[e.0] == (s, f.formats[f.sizes[j].0])
        &&& e.1 == f.sizes[j].1 && e.2 == f.sizes[j].2
    } by {
        assert(0 <= f.sizes[j].0 < f.formats.len());
        assert(t2.formats[n + f.sizes[j].0] == (s, f.formats[f.sizes[j].0]));
    }
    assert forall|i: int| 0 <= i < m implies #[trigger] t2.formats[t2.sizes[i].0].0 < s by {
        assert(t2.sizes[i] == t.sizes[i]);
        assert(0 <= t.sizes[i].0 < n);
        assert(t2.formats[t.sizes[i].0] == t.formats[t.sizes[i].0]);
    }
    assert forall|i: int| 0 <= i < t2.sizes.len() implies 0 <= #[trigger] t2.sizes[i].0 < t2.formats.len() by {
        if i >= m {
            assert(0 <= f.sizes[i - m].0 < f.formats.len());
        }
    }
    assert forall|i: int| 0 <= i < t2.formats.len() implies 0 <= #[trigger] t2.formats[i].0 < t2.sources.len() by {
    }
}

/// One line of a device listing, given the outputs `outs` of the format
/// queries (`None` where a query gave no output); `None` where reading panics.
pub open spec fn v4_step(st: V4State, line: Seq<char>, outs: Seq<Option<Seq<char>>>) -> Option<V4State> {
    if line.len() == 0 {
        Some(st)
    } else if low16(line[0]) == 9 {
        let st1 = V4State { k: st.k + 1, ..st };
        match outs[st.k] {
            None => Some(st1),
            Some(out) => match spec_device_formats(out) {
                None => None,
                Some(f) => if f.found {
                    match st.group {
                        Some(g) => Some(V4State { t: v4_attach(st.t, g, trim(line), f), ..st1 }),
                        None => Some(st1),
                    }
                } else {
                    Some(st1)
                },
            },
        }
    } else {
        Some(
            V4State {
                t: TablesV { groups: st.t.groups.push(line), ..st.t },
                group: Some(st.t.groups.len() as int),
                ..st
            },
        )
    }
}

/// Devices go to the group listed last, and nowhere before the first group.
pub open spec fn v4_latest(st: V4State) -> bool {
    st.group == if st.t.groups.len() == 0 {
        None::<int>
    } else {
        Some(st.t.groups.len() - 1)
    }
}

/// Law: reading a line of a device listing keeps what was found, files a
/// device (with its formats and sizes, see
/// `lemma_attach_files_sizes_under_device`) under the group listed last, and
/// counts every device line, so the next device is matched with the next
/// format query's output.
pub proof fn lemma_v4_step_files_under_latest(st: V4State, line: Seq<char>, outs: Seq<Option<Seq<char>>>)
    requires
        v4_latest(st),
    ensures
        v4_step(st, line, outs) matches Some(st2) ==> {
            &&& v4_latest(st2)
            &&& tables_extend(st2.t, st.t)
            &&& st2.k == st.k + (if line.len() > 0 && low16(line[0]) == 9 { 1int } else { 0 })
            &&& forall|j: int|
                st.t.sources.len() <= j < st2.t.sources.len() ==> #[trigger] st2.t.sources[j].0
                    == st2.t.groups.len() - 1
        },
{
    lemma_tables_extend_refl(st.t);
    if line.len() > 0 && low16(line[0]) == 9 {
        match outs[st.k] {
            None => {},
            Some(out) => match spec_device_formats(out) {
                None => {},
                Some(f) => if f.found {
                    match st.group {
                        Some(g) => {
                            let t2 = v4_attach(st.t, g, trim(line), f);
                            assert(t2.sources.take(st.t.sources.len() as int) =~= st.t.sources);
                            assert(t2.formats.take(st.t.formats.len() as int) =~= st.t.formats);
                            assert(t2.sizes.take(st.t.sizes.len() as int) =~= st.t.sizes);
                            assert(t2.groups.take(st.t.groups.len() as int) =~= st.t.groups);
                        },
                        None => {},
                    }
                },
            },
        }
    } else if line.len() > 0 {
        let g2 = st.t.groups.push(line);
        assert(g2.take(st.t.groups.len() as int) =~= st.t.groups);
    }
}

/// The readers of the listings start with nothing to file under.
pub proof fn lemma_readers_start_latest()
    ensures
        lc_latest(lc_init()),
        targets_latest(fmt_init()),
        v4_latest(V4State { t: empty_tables(), group: None, k: 0 }),
{
}

/// Reading the lines `ls` in order from `st`.
pub open spec fn v4_run(st: V4State, ls: Seq<Seq<char>>, outs: Seq<Option<Seq<char>>>) -> Option<V4State>
    decreases ls.len(),
{
    if ls.len() == 0 {
        Some(st)
    } else {
        match v4_run(st, ls.drop_last(), outs) {
            None => None,
            Some(s) => v4_step(s, ls.last(), outs),
        }
    }
}

/// The cameras of a device listing and the outputs of its format queries;
/// `None` where reading panics.
pub open spec fn spec_v4l2_cameras(list_out: Seq<char>, outs: Seq<Option<Seq<char>>>) -> Option<TablesV> {
    match v4_run(V4State { t: empty_tables(), group: None, k: 0 }, lines(list_out), outs) {
        Some(s) => Some(s.t),
        None => None,
    }
}

/// The texts of a list of optional strings.
pub open spec fn opt_views(v: Seq<Option<String>>) -> Seq<Option<Seq<char>>> {
    v.map_values(|o: Option<String>| opt_view(o))
}

/// The format query of one device.
pub fn formats_query(dev: &[char]) -> (r: Vec<String>)
    ensures
        views(r@) == spec_formats_query(dev@),
{
    let mut arg = String::from_str("--device=");
    arg.append(from_chars(dev).as_str());
    let mut r: Vec<String> = Vec::new();
    r.push(String::from_str("v4l2-ctl"));
    r.push(arg);
    r.push(String::from_str("--list-formats-ext"));
    proof {
        assert(views(r@) =~= spec_formats_query(dev@));
    }
    r
}

/// The format queries that the output of `v4l2-ctl --list-devices` calls for:
/// one `v4l2-ctl --device=PATH --list-formats-ext` per device, in order.
pub fn format_queries(list_out: &str) -> (r: Vec<Vec<String>>)
    ensures
        r@.len() == spec_format_queries(list_out@).len(),
        forall|i: int| 0 <= i < r@.len() ==> views(#[trigger] r@[i]@) == spec_format_queries(list_out@)[i],
{
    let ls = lines_chars(to_chars(list_out).as_slice());
    let ghost lsv = lines(list_out@);
    let mut r: Vec<Vec<String>> = Vec::new();
    let mut i: usize = 0;
    proof {
        assert(lsv.take(0) =~= Seq::<Seq<char>>::empty());
    }
    while i < ls.len()
        invariant
            i <= ls@.len() == lsv.len(),
            lsv == lines(list_out@),
            forall|k: int| 0 <= k < ls@.len() ==> #[trigger] ls@[k]@ == lsv[k],
            r@.len() == device_paths(lsv.take(i as int)).len(),
            forall|k: int| 0 <= k < r@.len() ==> views(#[trigger] r@[k]@) == spec_formats_query(device_paths(lsv.take(i as int))[k]),
        decreases ls.len() - i,
    {
        proof {
            assert(lsv.take(i + 1).drop_last() =~= lsv.take(i as int));
        }
        let line = &ls[i];
        if line.len() > 0 && low16_of(line[0]) == 9 {
            let dev = trim_chars(line.as_slice());
            r.push(formats_query(dev.as_slice()));
        }
        i = i + 1;
    }
    proof {
        assert(lsv.take(ls@.len() as int) =~= lsv);
    }
    r
}

fn attach(t: &mut ProbeTables, g: usize, dev: String, f: &DeviceFormats)
    requires
        fmt_wf(f@),
        tables_wf(old(t)@),
        g < old(t)@.groups.len(),
    ensures
        final(t)@ == v4_attach(old(t)@, g as int, dev@, f@),
        tables_wf(final(t)@),
{
    let ghost t0 = t@;
    let src = t.add_source(g, dev);
    let base = t.formats.len();
    let mut i: usize = 0;
    while i < f.formats.len()
        invariant
            i <= f.formats@.len(),
            base == t0.formats.len(),
            src == t0.sources.len(),
            t@.groups == t0.groups,
            t@.sources == v4_attach(t0, g as int, dev@, f@).sources,
            t@.sizes == t0.sizes,
            t@.formats == t0.formats + f@.formats.take(i as int).map_values(|n: Seq<char>| (src as int, n)),
            tables_wf(t@),
            src < t@.sources.len(),
        decreases f.formats.len() - i,
    {
        let name = f.formats[i].clone();
        t.add_format(src, name);
        proof {
            assert(f@.formats.take(i + 1).map_values(|n: Seq<char>| (src as int, n)) =~= f@.formats.take(
                i as int,
            ).map_values(|n: Seq<char>| (src as int, n)).push((src as int, f@.formats[i as int])));
        }
        i = i + 1;
    }
    proof {
        assert(f@.formats.take(f@.formats.len() as int) =~= f@.formats);
    }
    let total = t.formats.len();
    let mut j: usize = 0;
    while j < f.sizes.len()
        invariant
            j <= f.sizes@.len(),
            base == t0.formats.len(),
            total == t@.formats.len() == base + f@.formats.len(),
            fmt_wf(f@),
            t@.groups == t0.groups,
            t@.sources == v4_attach(t0, g as int, dev@, f@).sources,
            t@.formats == v4_attach(t0, g as int, dev@, f@).formats,
            t@.sizes == t0.sizes + f@.sizes.take(j as int).map_values(
                |e: (int, i64, i64)| (e.0 + base, e.1, e.2),
            ),
            tables_wf(t@),
        decreases f.sizes.len() - j,
    {
        let e = f.sizes[j];
        proof {
            assert(f@.sizes[j as int] == size_view(e));
            assert(0 <= f@.sizes[j as int].0 < f@.formats.len());
        }
        t.add_size(e.format + base, e.width, e.height);
        proof {
            assert(f@.sizes.take(j + 1).map_values(|e: (int, i64, i64)| (e.0 + base, e.1, e.2))
                =~= f@.sizes.take(j as int).map_values(|e: (int, i64, i64)| (e.0 + base, e.1, e.2)).push(
                (e.format + base, e.width, e.height),
            ));
        }
        j = j + 1;
    }
    proof {
        assert(f@.sizes.take(f@.sizes.len() as int) =~= f@.sizes);
        assert(t@ == v4_attach(t0, g as int, dev@, f@));
    }
}

proof fn lemma_v4_run_stuck(st: V4State, ls: Seq<Seq<char>>, outs: Seq<Option<Seq<char>>>, k: int)
    requires
        0 <= k <= ls.len(),
        v4_run(st, ls.take(k), outs) is None,
    ensures
        v4_run(st, ls, outs) is None,
    decreases ls.len() - k,
{
    if k < ls.len() {
        assert(ls.take(k + 1).drop_last() =~= ls.take(k));
        lemma_v4_run_stuck(st, ls, outs, k + 1);
    } else {
        assert(ls.take(k) =~= ls);
    }
}

/// The cameras of the output of `v4l2-ctl --list-devices`, given the outputs
/// of its format queries in order (`None` where a query gave no output): each
/// unindented line is a group; each device under it with at least one frame
/// size becomes a source with its formats and sizes. `None` where reading
/// panics.
pub fn v4l2_cameras(list_out: &str, outs: &Vec<Option<String>>) -> (r: Option<ProbeTables>)
    requires
        outs@.len() == spec_format_queries(list_out@).len(),
    ensures
        match spec_v4l2_cameras(list_out@, opt_views(outs@)) {
            Some(t) => r matches Some(x) && x@ == t,
            None => r is None,
        },
        r matches Some(x) ==> tables_wf(x@),
{
    let ls = lines_chars(to_chars(list_out).as_slice());
    let ghost lsv = lines(list_out@);
    let ghost ov = opt_views(outs@);
    let ghost init = V4State { t: empty_tables(), group: None, k: 0 };
    let mut t = ProbeTables::new();
    let mut group: Option<usize> = None;
    let mut k: usize = 0;
    let mut i: usize = 0;
    let n_outs = outs.len();
    proof {
        assert(lsv.take(0) =~= Seq::<Seq<char>>::empty());
    }
    while i < ls.len()
        invariant
            i <= ls@.len() == lsv.len(),
            n_outs == outs@.len(),
            init == (V4State { t: empty_tables(), group: None, k: 0 }),
            lsv == lines(list_out@),
            ov == opt_views(outs@),
            outs@.len() == device_paths(lsv).len(),
            forall|j: int| 0 <= j < ls@.len() ==> #[trigger] ls@[j]@ == lsv[j],
            k == device_paths(lsv.take(i as int)).len(),
            v4_run(init, lsv.take(i as int), ov) == Some(V4State { t: t@, group: opt_int(group), k: k as int }),
            tables_wf(t@),
            group matches Some(g) ==> g < t@.groups.len(),
        decreases ls.len() - i,
    {
        proof {
            assert(lsv.take(i + 1).drop_last() =~= lsv.take(i as int));
            assert(lsv.take(i + 1).last() == ls@[i as int]@);
            lemma_device_paths_prefix(lsv, i + 1);
        }
        let line = &ls[i];
        if line.len() == 0 {
        } else if low16_of(line[0]) == 9 {
            proof {
                assert(device_paths(lsv.take(i + 1)) == device_paths(lsv.take(i as int)).push(
                    trim(ls@[i as int]@),
                ));
                assert(k < outs@.len());
                assert(ov[k as int] == opt_view(outs@[k as int]));
            }
            match &outs[k] {
                None => {},
                Some(out) => {
                    match device_formats(out.as_str()) {
                        None => {
                            proof {
                                assert(v4_run(init, lsv.take(i + 1), ov) is None);
                                lemma_v4_run_stuck(init, lsv, ov, i + 1);
                            }
                            return None;
                        },
                        Some(f) => {
                            if f.found {
                                match group {
                                    Some(g) => {
                                        let dev = trim_chars(line.as_slice());
                                        attach(&mut t, g, from_chars(dev.as_slice()), &f);
                                    },
                                    None => {},
                                }
                            }
                        },
                    }
                },
            }
            k = k + 1;
        } else {
            let g = t.add_group(from_chars(line.as_slice()));
            group = Some(g);
        }
        i = i + 1;
    }
    proof {
        assert(lsv.take(ls@.len() as int) =~= lsv);
    }
    Some(t)
}

/// The devices of a prefix of a listing are at most those of the listing.
proof fn lemma_device_paths_prefix(ls: Seq<Seq<char>>, i: int)
    requires
        0 <= i <= ls.len(),
    ensures
        device_paths(ls.take(i)).len() <= device_paths(ls).len(),
    decreases ls.len() - i,
{
    if i < ls.len() {
        assert(ls.take(i + 1).drop_last() =~= ls.take(i));
        lemma_device_paths_prefix(ls, i + 1);
    } else {
        assert(ls.take(i) =~= ls);
    }
}

// ---------------------------------------------------------------------------
// Which camera stack
// ---------------------------------------------------------------------------

/// Whether `which libcamera-vid` found the program (its output is not empty).
pub fn libcamera_installed(which_out: &str) -> (b: bool)
    ensures
        b == (which_out@.len() > 0),
{
    to_chars(which_out).len() > 0
}

/// Whether `libcamera-vid --list-cameras` printed a camera listing.
pub fn is_camera_listing(out: &str) -> (b: bool)
    ensures
        b == has_prefix(out@, "Available cameras"@),
{
    starts_with(to_chars(out).as_slice(), to_chars("Available cameras").as_slice())
}


// ---------------------------------------------------------------------------
// The whole probe
// ---------------------------------------------------------------------------

/// How far the probe for cameras has come.
pub enum ProbeState {
    /// Nothing has been run.
    Start,
    /// `which libcamera-vid` was run.
    Which,
    /// `libcamera-vid --list-cameras` was run.
    ListCameras,
    /// `v4l2-ctl --list-devices` was run.
    ListDevices,
    /// The device listing `list` was read and the format queries of the first
    /// devices gave `outs`; the next query was run.
    Formats { list: String, outs: Vec<Option<String>> },
    /// The probe is over.
    Finished,
}

/// What the probe asks for next.
pub enum ProbeAction {
    /// Run this command and report whether it printed anything, and what.
    Run(Vec<String>),
    /// The cameras found.
    Done(ProbeTables),
    /// Give back the result of the last command as it is.
    ReturnRaw,
    /// An output could not be read: a listing line of a shape the camera app
    /// does not know (the app stops with a panic).
    Fail,
}

/// Whether a probe state can be stepped.
pub open spec fn probe_state_ok(st: ProbeState) -> bool {
    match st {
        ProbeState::Formats { list, outs } => outs@.len() < spec_format_queries(list@).len(),
        ProbeState::Finished => false,
        _ => true,
    }
}

/// The command `which libcamera-vid`.
pub open spec fn which_command() -> Seq<Seq<char>> {
    seq!["which"@, "libcamera-vid"@]
}

/// The command `libcamera-vid --list-cameras`.
pub open spec fn list_cameras_command() -> Seq<Seq<char>> {
    seq!["libcamera-vid"@, "--list-cameras"@]
}

/// The command `v4l2-ctl --list-devices`.
pub open spec fn list_devices_command() -> Seq<Seq<char>> {
    seq!["v4l2-ctl"@, "--list-devices"@]
}

/// The action runs the command `c`.
pub open spec fn runs(a: ProbeAction, c: Seq<Seq<char>>) -> bool {
    a matches ProbeAction::Run(v) && views(v@) == c
}

/// The action ends the probe with the tables `t`, or fails where `t` is `None`.
pub open spec fn finishes_with(a: ProbeAction, t: Option<TablesV>) -> bool {
    match t {
        Some(x) => a matches ProbeAction::Done(d) && d@ == x && tables_wf(d@),
        None => a is Fail,
    }
}

fn command(a: &str, b: &str) -> (r: Vec<String>)
    ensures
        views(r@) == seq![a@, b@],
{
    let mut r: Vec<String> = Vec::new();
    r.push(String::from_str(a));
    r.push(String::from_str(b));
    proof {
        assert(views(r@) =~= seq![a@, b@]);
    }
    r
}

fn finish(t: Option<ProbeTables>) -> (r: (ProbeState, ProbeAction))
    requires
        t matches Some(x) ==> tables_wf(x@),
    ensures
        r.0 is Finished,
        match t {
            Some(x) => r.1 matches ProbeAction::Done(d) && d@ == x@ && tables_wf(d@),
            None => r.1 is Fail,
        },
{
    match t {
        Some(x) => (ProbeState::Finished, ProbeAction::Done(x)),
        None => (ProbeState::Finished, ProbeAction::Fail),
    }
}

/// One step of the probe for cameras, given whether the command run last
/// printed anything and what (`out`; ignored at the start).
///
/// It asks `which libcamera-vid`; when that prints a path it lists the
/// libcamera cameras, and a listing that starts with `Available cameras` is
/// the answer. Otherwise it lists the V4L2 devices (with nothing printed, the
/// raw result of that call is the answer) and queries the formats of each
/// device in turn; the devices with frame sizes are the answer.
pub fn available_step(st: ProbeState, out: Option<String>) -> (r: (ProbeState, ProbeAction))
    requires
        probe_state_ok(st),
    ensures
        r.0 is Finished || probe_state_ok(r.0),
        match st {
            ProbeState::Start => r.0 is Which && runs(r.1, which_command()),
            ProbeState::Which => match out {
                None => r.0 is Finished && r.1 is Fail,
                Some(s) => if s@.len() > 0 {
                    r.0 is ListCameras && runs(r.1, list_cameras_command())
                } else {
                    r.0 is ListDevices && runs(r.1, list_devices_command())
                },
            },
            ProbeState::ListCameras => match out {
                Some(s) => if has_prefix(s@, "Available cameras"@) {
                    r.0 is Finished && finishes_with(r.1, spec_libcamera_cameras(s@))
                } else {
                    r.0 is ListDevices && runs(r.1, list_devices_command())
                },
                None => r.0 is ListDevices && runs(r.1, list_devices_command()),
            },
            ProbeState::ListDevices => match out {
                None => r.0 is Finished && r.1 is ReturnRaw,
                Some(s) => if spec_format_queries(s@).len() == 0 {
                    r.0 is Finished && finishes_with(r.1, spec_v4l2_cameras(s@, Seq::empty()))
                } else {
                    &&& r.0 matches ProbeState::Formats { list, outs } && list@ == s@ && outs@.len() == 0
                    &&& runs(r.1, spec_format_queries(s@)[0])
                },
            },
            ProbeState::Formats { list, outs } => {
                let q = spec_format_queries(list@);
                let outs2 = opt_views(outs@).push(opt_view(out));
                if out matches Some(o) && spec_device_formats(o@) is None {
                    r.0 is Finished && r.1 is Fail
                } else if outs2.len() == q.len() {
                    r.0 is Finished && finishes_with(r.1, spec_v4l2_cameras(list@, outs2))
                } else {
                    &&& r.0 matches ProbeState::Formats { list: l2, outs: o2 } && l2@ == list@
                        && opt_views(o2@) == outs2
                    &&& runs(r.1, q[outs2.len() as int])
                }
            },
            ProbeState::Finished => false,
        },
{
    match st {
        ProbeState::Start => (ProbeState::Which, ProbeAction::Run(command("which", "libcamera-vid"))),
        ProbeState::Which => match out {
            None => (ProbeState::Finished, ProbeAction::Fail),
            Some(s) => if libcamera_installed(s.as_str()) {
                (ProbeState::ListCameras, ProbeAction::Run(command("libcamera-vid", "--list-cameras")))
            } else {
                (ProbeState::ListDevices, ProbeAction::Run(command("v4l2-ctl", "--list-devices")))
            },
        },
        ProbeState::ListCameras => {
            match out {
                Some(s) => if is_camera_listing(s.as_str()) {
                    return finish(libcamera_cameras(s.as_str()));
                },
                None => {},
            }
            (ProbeState::ListDevices, ProbeAction::Run(command("v4l2-ctl", "--list-devices")))
        },
        ProbeState::ListDevices => match out {
            None => (ProbeState::Finished, ProbeAction::ReturnRaw),
            Some(s) => {
                let q = format_queries(s.as_str());
                if q.len() == 0 {
                    let outs: Vec<Option<String>> = Vec::new();
                    proof {
                        assert(opt_views(outs@) =~= Seq::<Option<Seq<char>>>::empty());
                    }
                    finish(v4l2_cameras(s.as_str(), &outs))
                } else {
                    let first = q[0].clone();
                    proof {
                        assert(views(first@) == views(q@[0]@));
                    }
                    let outs: Vec<Option<String>> = Vec::new();
                    (ProbeState::Formats { list: s, outs }, ProbeAction::Run(first))
                }
            },
        },
        ProbeState::Formats { list, outs } => {
            let ghost old_outs = opt_views(outs@);
            match &out {
                Some(o) => {
                    if device_formats(o.as_str()).is_none() {
                        return (ProbeState::Finished, ProbeAction::Fail);
                    }
                },
                None => {},
            }
            let mut outs = outs;
            let ghost o_view = opt_view(out);
            outs.push(out);
            proof {
                assert(opt_views(outs@) =~= old_outs.push(o_view));
            }
            let q = format_queries(list.as_str());
            if outs.len() == q.len() {
                finish(v4l2_cameras(list.as_str(), &outs))
            } else {
                let next = q[outs.len()].clone();
                proof {
                    assert(views(next@) == views(q@[outs@.len() as int]@));
                }
                (ProbeState::Formats { list, outs }, ProbeAction::Run(next))
            }
        },
        ProbeState::Finished => (ProbeState::Finished, ProbeAction::Fail),
    }
}

} // verus!
