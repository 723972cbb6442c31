//! What the editor keeps between documents: the list of recent files and
//! the guard that asks before unsaved changes are dropped.
use vstd::prelude::*;
use crate::chars::str_eq;

verus! {

/// How many recent files are kept.
pub const RECENT_MAX: usize = 8;

/// `s` without the entries equal to `p`, in order.
pub open spec fn without(s: Seq<Seq<char>>, p: Seq<char>) -> Seq<Seq<char>>
    decreases s.len(),
{
    if s.len() == 0 {
        s
    } else {
        let r = without(s.drop_last(), p);
        if s.last() == p {
            r
        } else {
            r.push(s.last())
        }
    }
}

/// The first `n` entries of `s`, or all of them.
pub open spec fn cap(s: Seq<Seq<char>>, n: int) -> Seq<Seq<char>> {
    if s.len() > n {
        s.take(n)
    } else {
        s
    }
}

/// The recent list after `p` was opened or saved: `p` first, the others in
/// their order without `p`, at most `RECENT_MAX`.
pub open spec fn remembered(recent: Seq<Seq<char>>, p: Seq<char>) -> Seq<Seq<char>> {
    cap(seq![p] + without(recent, p), RECENT_MAX as int)
}

pub open spec fn paths_view(v: Seq<String>) -> Seq<Seq<char>> {
    v.map_values(|s: String| s@)
}

/// Puts `path` at the head of the recent list, without repeats and with at
/// most `RECENT_MAX` entries.
pub fn remember(recent: &mut Vec<String>, path: String)
    ensures
        paths_view(final(recent)@) == remembered(paths_view(old(recent)@), path@),
{
    let ghost old_v = paths_view(recent@);
    let ghost p = path@;
    let mut out: Vec<String> = Vec::new();
    let mut i: usize = 0;
    out.push(path.clone());
    proof {
        assert(old_v.take(0) =~= Seq::<Seq<char>>::empty());
        assert(paths_view(out@) =~= seq![p]);
        assert(seq![p] + without(old_v.take(0), p) =~= seq![p]);
    }
    while i < recent.len()
        invariant
            old_v == paths_view(recent@),
            p == path@,
            i <= recent@.len(),
            paths_view(out@) == cap(seq![p] + without(old_v.take(i as int), p), RECENT_MAX as int),
        decreases recent@.len() - i,
    {
        let ghost full = seq![p] + without(old_v.take(i as int), p);
        let ghost e = old_v[i as int];
        assert(old_v.take(i + 1).drop_last() =~= old_v.take(i as int));
        assert(old_v.take(i + 1).last() == e);
        assert(recent@[i as int]@ == e);
        let same = str_eq(recent[i].as_str(), path.as_str());
        if !same {
            assert(e != p);
            let ghost full2 = full.push(e);
            assert(seq![p] + without(old_v.take(i + 1), p) =~= full2);
            if out.len() < RECENT_MAX {
                assert(paths_view(out@).len() == out@.len());
                assert(full.len() < RECENT_MAX);
                assert(paths_view(out@) == full);
                out.push(recent[i].clone());
                assert(paths_view(out@) =~= full2);
                assert(paths_view(out@) =~= cap(full2, RECENT_MAX as int));
            } else {
                assert(cap(full2, RECENT_MAX as int) =~= cap(full, RECENT_MAX as int));
            }
        } else {
            assert(e == p);
            assert(seq![p] + without(old_v.take(i + 1), p) =~= full);
        }
        i += 1;
    }
    proof {
        assert(old_v.take(recent@.len() as int) =~= old_v);
    }
    *recent = out;
}

/// What the user answered when asked about unsaved changes.
#[derive(Clone, Copy, PartialEq, Eq, Debug, Structural)]
pub enum Reply {
    Save,
    Discard,
    Cancel,
}

/// Whether a question about unsaved changes is on screen.
#[derive(Clone, Copy, PartialEq, Eq, Debug, Structural)]
pub enum Guard {
    Idle,
    Asking,
}

/// What happens to the guard: a request to drop the drawing (new, open,
/// exit), the user's reply, or how the save that the reply asked for went.
#[derive(Clone, Copy, PartialEq, Eq, Debug, Structural)]
pub enum Event {
    Request { unsaved: bool },
    Answer(Reply),
    Saved { ok: bool },
}

/// What the program does next.
#[derive(Clone, Copy, PartialEq, Eq, Debug, Structural)]
pub enum Action {
    /// Carry out the pending request.
    Perform,
    /// Show the question.
    Ask,
    /// Save, and report back with `Saved`.
    Save,
    /// Forget the pending request.
    Drop,
    /// Nothing.
    Wait,
}

/// The guard's rule: a request with unsaved changes asks first; "save"
/// goes on only once the save succeeded (a failed or cancelled save keeps
/// the question and the document); "don't save" goes on; "cancel" forgets
/// the request.
pub open spec fn guard_spec(state: Guard, ev: Event) -> (Guard, Action) {
    match (state, ev) {
        (Guard::Idle, Event::Request { unsaved }) => if unsaved {
            (Guard::Asking, Action::Ask)
        } else {
            (Guard::Idle, Action::Perform)
        },
        (Guard::Asking, Event::Answer(Reply::Save)) => (Guard::Asking, Action::Save),
        (Guard::Asking, Event::Answer(Reply::Discard)) => (Guard::Idle, Action::Perform),
        (Guard::Asking, Event::Answer(Reply::Cancel)) => (Guard::Idle, Action::Drop),
        (Guard::Asking, Event::Saved { ok }) => if ok {
            (Guard::Idle, Action::Perform)
        } else {
            (Guard::Asking, Action::Wait)
        },
        (Guard::Asking, Event::Request { unsaved }) => (Guard::Asking, Action::Wait),
        (Guard::Idle, _) => (Guard::Idle, Action::Wait),
    }
}

/// One step of the unsaved-changes guard.
pub fn guard_step(state: Guard, ev: Event) -> (r: (Guard, Action))
    ensures
        r == guard_spec(state, ev),
{
    match (state, ev) {
        (Guard::Idle, Event::Request { unsaved }) => if unsaved {
            (Guard::Asking, Action::Ask)
        } else {
            (Guard::Idle, Action::Perform)
        },
        (Guard::Asking, Event::Answer(Reply::Save)) => (Guard::Asking, Action::Save),
        (Guard::Asking, Event::Answer(Reply::Discard)) => (Guard::Idle, Action::Perform),
        (Guard::Asking, Event::Answer(Reply::Cancel)) => (Guard::Idle, Action::Drop),
        (Guard::Asking, Event::Saved { ok }) => if ok {
            (Guard::Idle, Action::Perform)
        } else {
            (Guard::Asking, Action::Wait)
        },
        (Guard::Asking, Event::Request { .. }) => (Guard::Asking, Action::Wait),
        (Guard::Idle, _) => (Guard::Idle, Action::Wait),
    }
}

/// Unsaved changes are never dropped without the user's say: from the
/// question, the request is carried out only after "don't save" or a save
/// that succeeded.
pub proof fn law_no_silent_loss(ev: Event)
    ensures
        guard_spec(Guard::Asking, ev).1 == Action::Perform ==> (ev == Event::Answer(Reply::Discard) || ev == Event::Saved { ok: true }),
        guard_spec(Guard::Idle, Event::Request { unsaved: true }).1 == Action::Ask,
{
}

} // verus!
