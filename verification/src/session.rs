//! Recording sessions. The camera app's shared metadata records the current
//! session under the key `pid` and, under each session's id, whether that
//! session may go on capturing; the capture and segmenting loops run while
//! their session's flag is true. Starting a recording opens a new session and
//! ends the previous one; stopping ends the current one.
use vstd::prelude::*;
use crate::commands::opt_view;

verus! {

/// A value of the metadata, as far as sessions use it.
pub enum MetaVal {
    Flag(bool),
    Text(Seq<char>),
}

/// A change to the metadata.
pub enum MetaOp {
    /// Set a boolean entry.
    SetFlag { key: String, flag: bool },
    /// Set a text entry.
    SetText { key: String, text: String },
    /// Remove an entry.
    Remove { key: String },
}

/// The mathematical content of a change.
pub enum MetaOpV {
    SetFlag(Seq<char>, bool),
    SetText(Seq<char>, Seq<char>),
    Remove(Seq<char>),
}

impl View for MetaOp {
    type V = MetaOpV;

    open spec fn view(&self) -> MetaOpV {
        match self {
            MetaOp::SetFlag { key, flag } => MetaOpV::SetFlag(key@, *flag),
            MetaOp::SetText { key, text } => MetaOpV::SetText(key@, text@),
            MetaOp::Remove { key } => MetaOpV::Remove(key@),
        }
    }
}

/// The contents of a list of changes.
pub open spec fn ops_view(v: Seq<MetaOp>) -> Seq<MetaOpV> {
    v.map_values(|o: MetaOp| o@)
}

/// The metadata after one change.
pub open spec fn apply(m: Map<Seq<char>, MetaVal>, op: MetaOpV) -> Map<Seq<char>, MetaVal> {
    match op {
        MetaOpV::SetFlag(k, b) => m.insert(k, MetaVal::Flag(b)),
        MetaOpV::SetText(k, t) => m.insert(k, MetaVal::Text(t)),
        MetaOpV::Remove(k) => m.remove(k),
    }
}

/// The metadata after a list of changes, made in order.
pub open spec fn apply_all(m: Map<Seq<char>, MetaVal>, ops: Seq<MetaOpV>) -> Map<Seq<char>, MetaVal>
    decreases ops.len(),
{
    if ops.len() == 0 {
        m
    } else {
        apply(apply_all(m, ops.drop_last()), ops.last())
    }
}

/// The key under which the current session is recorded.
pub open spec fn pid_key() -> Seq<char> {
    "pid"@
}

/// The current session, where one is recorded.
pub open spec fn current_session(m: Map<Seq<char>, MetaVal>) -> Option<Seq<char>> {
    if m.contains_key(pid_key()) {
        match m[pid_key()] {
            MetaVal::Text(p) => Some(p),
            MetaVal::Flag(_) => None,
        }
    } else {
        None
    }
}

/// Whether the session `id` may go on capturing.
pub open spec fn active(m: Map<Seq<char>, MetaVal>, id: Seq<char>) -> bool {
    m.contains_key(id) && m[id] == MetaVal::Flag(true)
}

/// Only the current session, if any, may capture.
pub open spec fn only_current_active(m: Map<Seq<char>, MetaVal>) -> bool {
    forall|k: Seq<char>| #[trigger] active(m, k) ==> current_session(m) == Some(k)
}

/// The changes that start the session `pid` while `current` is recorded.
pub open spec fn spec_start_ops(current: Option<Seq<char>>, pid: Seq<char>) -> Seq<MetaOpV> {
    let end_old = match current {
        Some(old) => seq![MetaOpV::SetFlag(old, false)],
        None => Seq::empty(),
    };
    end_old + seq![MetaOpV::SetText(pid_key(), pid), MetaOpV::SetFlag(pid, true)]
}

/// The changes that stop recording while `current` is recorded.
pub open spec fn spec_stop_ops(current: Option<Seq<char>>) -> Seq<MetaOpV> {
    match current {
        Some(p) => seq![MetaOpV::SetFlag(p, false)],
        None => Seq::empty(),
    }
}

/// The changes made when the capture loop of session `tpid` ends.
pub open spec fn spec_end_ops(tpid: Seq<char>) -> Seq<MetaOpV> {
    seq![MetaOpV::Remove(pid_key()), MetaOpV::Remove(tpid)]
}

/// Whether `id` can be a session id (it is not the key `pid`).
pub open spec fn session_id(id: Seq<char>) -> bool {
    id != pid_key()
}

/// Whether `id` has the form of the ids that flowlang's `unique_session_id`
/// makes: at least nine characters, each a lowercase ASCII letter or a digit.
pub open spec fn id_form(id: Seq<char>) -> bool {
    &&& id.len() >= 9
    &&& forall|i: int| 0 <= i < id.len() ==> ('0' <= #[trigger] id[i] <= '9' || 'a' <= id[i] <= 'z')
}

// ---------------------------------------------------------------------------
// Laws
// ---------------------------------------------------------------------------

/// The session bookkeeping is sound: only the current session may capture,
/// and the recorded current session is a session id.
pub open spec fn sessions_ok(m: Map<Seq<char>, MetaVal>) -> bool {
    &&& only_current_active(m)
    &&& current_session(m) matches Some(p) ==> session_id(p)
}

/// Making one more change after a list of changes.
pub proof fn lemma_apply_all_push(m: Map<Seq<char>, MetaVal>, ops: Seq<MetaOpV>, op: MetaOpV)
    ensures
        apply_all(m, ops.push(op)) == apply(apply_all(m, ops), op),
{
    assert(ops.push(op).drop_last() =~= ops);
}

/// Law: starting a recording from sound bookkeeping gives sound bookkeeping in
/// which the new session is the current one and may capture (so it alone
/// may), and no entry other than `pid`, the new session and the previous
/// session is touched.
pub proof fn lemma_start_makes_only_new_active(m: Map<Seq<char>, MetaVal>, pid: Seq<char>)
    requires
        sessions_ok(m),
        session_id(pid),
    ensures
        ({
            let m2 = apply_all(m, spec_start_ops(current_session(m), pid));
            &&& current_session(m2) == Some(pid)
            &&& active(m2, pid)
            &&& sessions_ok(m2)
            &&& forall|k: Seq<char>|
                k != pid_key() && k != pid && Some(k) != current_session(m) ==> (#[trigger] m2.contains_key(k)
                    == m.contains_key(k) && (m.contains_key(k) ==> m2[k] == m[k]))
        }),
{
    let ops = spec_start_ops(current_session(m), pid);
    let m2 = apply_all(m, ops);
    let e = Seq::<MetaOpV>::empty();
    let set_pid = MetaOpV::SetText(pid_key(), pid);
    let flag_pid = MetaOpV::SetFlag(pid, true);
    match current_session(m) {
        Some(old) => {
            let stop_old = MetaOpV::SetFlag(old, false);
            assert(ops =~= e.push(stop_old).push(set_pid).push(flag_pid));
            lemma_apply_all_push(m, e, stop_old);
            lemma_apply_all_push(m, e.push(stop_old), set_pid);
            lemma_apply_all_push(m, e.push(stop_old).push(set_pid), flag_pid);
            assert(m2 == m.insert(old, MetaVal::Flag(false)).insert(pid_key(), MetaVal::Text(pid)).insert(
                pid,
                MetaVal::Flag(true),
            ));
            assert forall|k: Seq<char>| #[trigger] active(m2, k) implies current_session(m2) == Some(k) by {
                if k != pid {
                    assert(k != pid_key());
                    if k == old {
                        assert(m2[k] == MetaVal::Flag(false));
                    } else {
                        assert(active(m, k));
                    }
                }
            }
        },
        None => {
            assert(ops =~= e.push(set_pid).push(flag_pid));
            lemma_apply_all_push(m, e, set_pid);
            lemma_apply_all_push(m, e.push(set_pid), flag_pid);
            assert(m2 == m.insert(pid_key(), MetaVal::Text(pid)).insert(pid, MetaVal::Flag(true)));
            assert forall|k: Seq<char>| #[trigger] active(m2, k) implies current_session(m2) == Some(k) by {
                if k != pid {
                    assert(k != pid_key());
                    assert(active(m, k));
                }
            }
        },
    }
}

/// Law: after stopping, no session may capture, so every capture and
/// segmenting loop ends; the current session stays recorded.
pub proof fn lemma_stop_ends_all(m: Map<Seq<char>, MetaVal>)
    requires
        sessions_ok(m),
    ensures
        ({
            let m2 = apply_all(m, spec_stop_ops(current_session(m)));
            &&& forall|k: Seq<char>| !#[trigger] active(m2, k)
            &&& current_session(m2) == current_session(m)
            &&& sessions_ok(m2)
        }),
{
    let ops = spec_stop_ops(current_session(m));
    let m2 = apply_all(m, ops);
    let e = Seq::<MetaOpV>::empty();
    match current_session(m) {
        Some(p) => {
            assert(ops =~= e.push(MetaOpV::SetFlag(p, false)));
            lemma_apply_all_push(m, e, MetaOpV::SetFlag(p, false));
            assert(m2 == m.insert(p, MetaVal::Flag(false)));
            assert forall|k: Seq<char>| !#[trigger] active(m2, k) by {
                if active(m2, k) && k != p {
                    assert(active(m, k));
                }
            }
        },
        None => {
            assert(ops =~= e);
            assert(m2 == m);
        },
    }
}

/// Law: when the capture loop of the current session ends, no session is
/// recorded and none may capture.
pub proof fn lemma_end_of_current_clears(m: Map<Seq<char>, MetaVal>, tpid: Seq<char>)
    requires
        sessions_ok(m),
        current_session(m) == Some(tpid),
    ensures
        ({
            let m2 = apply_all(m, spec_end_ops(tpid));
            &&& current_session(m2) is None
            &&& forall|k: Seq<char>| !#[trigger] active(m2, k)
            &&& sessions_ok(m2)
        }),
{
    let ops = spec_end_ops(tpid);
    let e = Seq::<MetaOpV>::empty();
    assert(ops =~= e.push(MetaOpV::Remove(pid_key())).push(MetaOpV::Remove(tpid)));
    lemma_apply_all_push(m, e, MetaOpV::Remove(pid_key()));
    lemma_apply_all_push(m, e.push(MetaOpV::Remove(pid_key())), MetaOpV::Remove(tpid));
    let m2 = apply_all(m, ops);
    assert(m2 == m.remove(pid_key()).remove(tpid));
    assert forall|k: Seq<char>| !#[trigger] active(m2, k) by {
        if active(m2, k) {
            assert(active(m, k));
        }
    }
}

// ---------------------------------------------------------------------------
// Executable operations
// ---------------------------------------------------------------------------

fn push_op(v: &mut Vec<MetaOp>, op: MetaOp)
    ensures
        ops_view(final(v)@) == ops_view(old(v)@).push(op@),
{
    let ghost o = op@;
    v.push(op);
    proof {
        assert(ops_view(final(v)@) =~= ops_view(old(v)@).push(o));
    }
}

/// The changes that start the session `pid` while `current` is recorded: the
/// previous session is told to stop, then `pid` is recorded as current and
/// allowed to capture.
pub fn start_ops(current: Option<String>, pid: &str) -> (r: Vec<MetaOp>)
    ensures
        ops_view(r@) == spec_start_ops(
            opt_view(current),
            pid@,
        ),
{
    let ghost cur = opt_view(current);
    let mut r: Vec<MetaOp> = Vec::new();
    match current {
        Some(old) => push_op(&mut r, MetaOp::SetFlag { key: old, flag: false }),
        None => {},
    }
    push_op(&mut r, MetaOp::SetText { key: String::from_str("pid"), text: String::from_str(pid) });
    push_op(&mut r, MetaOp::SetFlag { key: String::from_str(pid), flag: true });
    proof {
        assert(ops_view(r@) =~= spec_start_ops(cur, pid@));
    }
    r
}

/// A recording that was started: its session id, and the changes to the
/// metadata that start it.
pub struct RecordingStart {
    pub pid: String,
    pub ops: Vec<MetaOp>,
}

/// Starts the recording session `pid` while `current` is recorded as the
/// current session: the session and the changes that make it current (see
/// `start_ops`). The id itself comes from flowlang's `unique_session_id`,
/// which the app calls; an id of that form can never be the key `pid`.
pub fn start_recording(current: Option<String>, pid: &str) -> (r: RecordingStart)
    ensures
        r.pid@ == pid@,
        ops_view(r.ops@) == spec_start_ops(
            opt_view(current),
            pid@,
        ),
        id_form(pid@) ==> session_id(r.pid@),
{
    proof {
        reveal_strlit("pid");
        assert(id_form(pid@) ==> pid@.len() != pid_key().len());
    }
    let ops = start_ops(current, pid);
    RecordingStart { pid: String::from_str(pid), ops }
}

/// The changes that stop recording while `current` is recorded: the current
/// session is told to stop.
pub fn stop_recording(current: Option<String>) -> (r: Vec<MetaOp>)
    ensures
        ops_view(r@) == spec_stop_ops(
            opt_view(current),
        ),
{
    let mut r: Vec<MetaOp> = Vec::new();
    match current {
        Some(p) => {
            push_op(&mut r, MetaOp::SetFlag { key: p, flag: false });
            proof {
                assert(ops_view(r@) =~= seq![MetaOpV::SetFlag(ops_view(r@)[0]->SetFlag_0, false)]);
            }
        },
        None => {
            proof {
                assert(ops_view(r@) =~= Seq::<MetaOpV>::empty());
            }
        },
    }
    r
}

/// The changes made when the capture loop of the session `tpid` ends: the
/// current-session entry and the session's flag are removed.
pub fn capture_end_ops(tpid: &str) -> (r: Vec<MetaOp>)
    ensures
        ops_view(r@) == spec_end_ops(tpid@),
{
    let mut r: Vec<MetaOp> = Vec::new();
    push_op(&mut r, MetaOp::Remove { key: String::from_str("pid") });
    push_op(&mut r, MetaOp::Remove { key: String::from_str(tpid) });
    proof {
        assert(ops_view(r@) =~= spec_end_ops(tpid@));
    }
    r
}

} // verus!
