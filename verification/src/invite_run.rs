use vstd::prelude::*;

use crate::room_id::{is_room_id, parse_room_id};
use crate::room_list::string_views;

verus! {

/// What the caller is asked to do next while inviting a sender into the
/// target rooms.
#[derive(Debug, PartialEq, Eq)]
pub enum RunAction {
    /// Report that this target is not a valid room ID, for the reason that
    /// ruma gives; the target is skipped.
    ReportInvalidTarget(String, ruma::IdParseError),
    /// Look the room up among the rooms this device knows; answer whether it
    /// is known.
    LookUpRoom(String),
    /// Join the room by its ID; answer whether the join succeeded.
    JoinRoom(String),
    /// Run one sync after the join.
    SyncAfterJoin,
    /// Export the room's keys to the diagnostic file.
    ExportDiagnostics(String),
    /// Invite the sender into the room.
    InviteSender(String),
    /// Every target has been handled.
    Finished,
}

/// The abstract form of a [`RunAction`].
pub enum Step {
    ReportInvalidTarget(Seq<char>),
    LookUpRoom(Seq<char>),
    JoinRoom(Seq<char>),
    SyncAfterJoin,
    ExportDiagnostics(Seq<char>),
    InviteSender(Seq<char>),
    Finished,
}

impl View for RunAction {
    type V = Step;

    open spec fn view(&self) -> Step {
        match self {
            RunAction::ReportInvalidTarget(s, _) => Step::ReportInvalidTarget(s@),
            RunAction::LookUpRoom(s) => Step::LookUpRoom(s@),
            RunAction::JoinRoom(s) => Step::JoinRoom(s@),
            RunAction::SyncAfterJoin => Step::SyncAfterJoin,
            RunAction::ExportDiagnostics(s) => Step::ExportDiagnostics(s@),
            RunAction::InviteSender(s) => Step::InviteSender(s@),
            RunAction::Finished => Step::Finished,
        }
    }
}

/// Where the run stands.
#[derive(Debug, Clone, Copy, PartialEq, Eq, Structural)]
pub enum RunStage {
    /// About to start on the target at the current index.
    NextTarget,
    /// Waiting for the answer to a room lookup.
    AwaitLookup,
    /// Waiting for the answer to a join.
    AwaitJoin,
    /// Waiting for the sync after a join.
    AwaitSync,
    /// Waiting for the diagnostic export.
    AwaitExport,
    /// Waiting for the invite.
    AwaitInvite,
    /// Every target has been handled.
    Done,
}

/// The abstract state of an [`InviteRun`].
pub struct RunState {
    pub targets: Seq<Seq<char>>,
    pub index: int,
    pub stage: RunStage,
}

/// Whether `s` is a state a run can be in: the index stays within the
/// targets, and while an answer is awaited the current target is a valid
/// room ID.
pub open spec fn run_state_ok(s: RunState) -> bool {
    &&& 0 <= s.index <= s.targets.len()
    &&& s.stage == RunStage::Done ==> s.index == s.targets.len()
    &&& (s.stage != RunStage::NextTarget && s.stage != RunStage::Done) ==> {
        &&& s.index < s.targets.len()
        &&& is_room_id(s.targets[s.index])
    }
}

/// Starting on the target at `index`: stop when there is none left, skip it
/// when it is not a room ID, and otherwise look the room up.
pub open spec fn begin_target(targets: Seq<Seq<char>>, index: int) -> (RunState, Step) {
    if index >= targets.len() {
        (RunState { targets, index: targets.len() as int, stage: RunStage::Done }, Step::Finished)
    } else if !is_room_id(targets[index]) {
        (
            RunState { targets, index: index + 1, stage: RunStage::NextTarget },
            Step::ReportInvalidTarget(targets[index]),
        )
    } else {
        (
            RunState { targets, index, stage: RunStage::AwaitLookup },
            Step::LookUpRoom(targets[index]),
        )
    }
}

/// One step of the run, given the answer `ok` to the last action (whether
/// the room was known, or whether the join succeeded; ignored otherwise).
/// A known room, or one joined (and then synced), gets the diagnostic export
/// and then the invite; a room that cannot be joined is skipped.
pub open spec fn run_step(s: RunState, ok: bool) -> (RunState, Step) {
    let t = s.targets[s.index];
    match s.stage {
        RunStage::NextTarget => begin_target(s.targets, s.index),
        RunStage::AwaitLookup => if ok {
            (RunState { stage: RunStage::AwaitExport, ..s }, Step::ExportDiagnostics(t))
        } else {
            (RunState { stage: RunStage::AwaitJoin, ..s }, Step::JoinRoom(t))
        },
        RunStage::AwaitJoin => if ok {
            (RunState { stage: RunStage::AwaitSync, ..s }, Step::SyncAfterJoin)
        } else {
            begin_target(s.targets, s.index + 1)
        },
        RunStage::AwaitSync => (RunState { stage: RunStage::AwaitExport, ..s }, Step::ExportDiagnostics(t)),
        RunStage::AwaitExport => (RunState { stage: RunStage::AwaitInvite, ..s }, Step::InviteSender(t)),
        RunStage::AwaitInvite => begin_target(s.targets, s.index + 1),
        RunStage::Done => (s, Step::Finished),
    }
}

/// Steps a run can still take at most: seven per target left, fewer within
/// the current target, and one to report the end.
pub open spec fn steps_left(s: RunState) -> int {
    let rank = match s.stage {
        RunStage::NextTarget => 6int,
        RunStage::AwaitLookup => 5int,
        RunStage::AwaitJoin => 4int,
        RunStage::AwaitSync => 3int,
        RunStage::AwaitExport => 2int,
        RunStage::AwaitInvite => 1int,
        RunStage::Done => 0int,
    };
    if s.stage == RunStage::NextTarget {
        (s.targets.len() - s.index) * 7 + 1
    } else if s.stage == RunStage::Done {
        0
    } else {
        (s.targets.len() - s.index - 1) * 7 + rank
    }
}

/// Every step of an unfinished run keeps the run's state sound and brings it
/// closer to the end; a finished run stays finished. So a run over `n`
/// targets finishes within `7 * n + 1` steps.
pub proof fn law_run_makes_progress(s: RunState, ok: bool)
    requires
        run_state_ok(s),
    ensures
        run_state_ok(run_step(s, ok).0),
        run_step(s, ok).0.targets == s.targets,
        0 <= steps_left(run_step(s, ok).0),
        s.stage != RunStage::Done ==> steps_left(run_step(s, ok).0) < steps_left(s),
        s.stage == RunStage::Done ==> run_step(s, ok) == (s, Step::Finished),
        steps_left(s) <= 7 * s.targets.len() + 1,
{
}

/// The targets are handled one after another, in their order: a step never
/// goes back, and it passes over a target only by naming it, either as the
/// room it acts on or as an invalid target it reports. The run reports
/// `Finished` only once every target has been handled.
pub proof fn law_targets_in_order(s: RunState, ok: bool)
    requires
        run_state_ok(s),
    ensures
        s.index <= run_step(s, ok).0.index <= s.index + 2,
        run_step(s, ok).1 matches Step::ReportInvalidTarget(t) ==> {
            &&& run_step(s, ok).0.index >= 1
            &&& t == s.targets[run_step(s, ok).0.index - 1]
        },
        run_step(s, ok).0.index == s.index + 2 ==> run_step(s, ok).1 is ReportInvalidTarget,
        (run_step(s, ok).1 is LookUpRoom || run_step(s, ok).1 is JoinRoom || run_step(s, ok).1 is ExportDiagnostics
            || run_step(s, ok).1 is InviteSender) ==> run_step(s, ok).0.index < s.targets.len(),
        run_step(s, ok).1 matches Step::LookUpRoom(t) ==> t == s.targets[run_step(s, ok).0.index],
        run_step(s, ok).1 matches Step::JoinRoom(t) ==> t == s.targets[run_step(s, ok).0.index],
        run_step(s, ok).1 is Finished ==> {
            &&& run_step(s, ok).0.index == s.targets.len()
            &&& run_step(s, ok).0.stage == RunStage::Done
        },
{
}

/// The sender is invited only into a valid room ID, the current target, and
/// only right after that room's diagnostic export; the export comes only for
/// a room this device knew or has just joined and synced; a join is asked
/// only for a valid room the device did not know.
pub proof fn law_invite_only_into_obtained_rooms(s: RunState, ok: bool)
    requires
        run_state_ok(s),
    ensures
        run_step(s, ok).1 matches Step::InviteSender(t) ==> {
            &&& s.stage == RunStage::AwaitExport
            &&& t == s.targets[s.index]
            &&& is_room_id(t)
        },
        run_step(s, ok).1 matches Step::ExportDiagnostics(t) ==> {
            &&& (s.stage == RunStage::AwaitLookup && ok) || s.stage == RunStage::AwaitSync
            &&& t == s.targets[s.index]
        },
        run_step(s, ok).1 is SyncAfterJoin ==> s.stage == RunStage::AwaitJoin && ok,
        run_step(s, ok).1 matches Step::JoinRoom(t) ==> {
            &&& s.stage == RunStage::AwaitLookup && !ok
            &&& is_room_id(t)
        },
        run_step(s, ok).1 matches Step::LookUpRoom(t) ==> is_room_id(t),
        run_step(s, ok).1 matches Step::ReportInvalidTarget(t) ==> !is_room_id(t),
{
}

/// Starting on a valid target, the run looks the room up; a room the device
/// knows is then exported and invited into, and a room it does not know is
/// joined and, if the join succeeds, synced, exported and invited into. The
/// answers to the other actions make no difference.
pub proof fn law_obtained_room_is_invited(targets: Seq<Seq<char>>, i: int, a: bool, b: bool, c: bool, d: bool)
    requires
        0 <= i < targets.len(),
        is_room_id(targets[i]),
    ensures
        ({
            let t = targets[i];
            let s0 = RunState { targets, index: i, stage: RunStage::NextTarget };
            let (s1, step1) = run_step(s0, a);
            let (known, step2) = run_step(s1, true);
            let (_, step3) = run_step(known, b);
            let (unknown, join) = run_step(s1, false);
            let (joined, sync) = run_step(unknown, true);
            let (synced, export) = run_step(joined, c);
            let (_, invite) = run_step(synced, d);
            &&& step1 == Step::LookUpRoom(t)
            &&& step2 == Step::ExportDiagnostics(t)
            &&& step3 == Step::InviteSender(t)
            &&& join == Step::JoinRoom(t)
            &&& sync == Step::SyncAfterJoin
            &&& export == Step::ExportDiagnostics(t)
            &&& invite == Step::InviteSender(t)
        }),
{
}

/// Every action leaves the run waiting for that action's answer, on the
/// target the action names: a lookup awaits whether the room is known, a
/// join whether it succeeded, and so on; `Finished` leaves it done.
pub proof fn law_each_action_awaits_its_answer(s: RunState, ok: bool)
    requires
        run_state_ok(s),
    ensures
        ({
            let (next, step) = run_step(s, ok);
            &&& step is LookUpRoom ==> next.stage == RunStage::AwaitLookup && step->LookUpRoom_0
                == next.targets[next.index]
            &&& step is JoinRoom ==> next.stage == RunStage::AwaitJoin && step->JoinRoom_0
                == next.targets[next.index]
            &&& step is SyncAfterJoin ==> next.stage == RunStage::AwaitSync
            &&& step is ExportDiagnostics ==> next.stage == RunStage::AwaitExport
                && step->ExportDiagnostics_0 == next.targets[next.index]
            &&& step is InviteSender ==> next.stage == RunStage::AwaitInvite && step->InviteSender_0
                == next.targets[next.index]
            &&& step is ReportInvalidTarget ==> next.stage == RunStage::NextTarget
            &&& step is Finished ==> next.stage == RunStage::Done
        }),
{
}

/// What each answer leads to. A lookup answered "known" leads to the export
/// and one answered "unknown" to the join, of the same room; a successful
/// join leads to the sync, and the sync to the export; the export leads to
/// the invite.
pub proof fn law_answers_lead_on(s: RunState, ok: bool)
    requires
        run_state_ok(s),
    ensures
        ({
            let (next, step) = run_step(s, ok);
            let t = s.targets[s.index];
            &&& s.stage == RunStage::AwaitLookup && ok ==> step == Step::ExportDiagnostics(t)
                && next.index == s.index
            &&& s.stage == RunStage::AwaitLookup && !ok ==> step == Step::JoinRoom(t) && next.index
                == s.index
            &&& s.stage == RunStage::AwaitJoin && ok ==> step == Step::SyncAfterJoin && next.index
                == s.index
            &&& s.stage == RunStage::AwaitSync ==> step == Step::ExportDiagnostics(t) && next.index
                == s.index
            &&& s.stage == RunStage::AwaitExport ==> step == Step::InviteSender(t) && next.index
                == s.index
        }),
{
}

/// After an invite, after a failed join, and when about to start, the run
/// turns to the next target in line: it finishes when there is none, looks
/// the room up when it is a valid room ID, and reports it otherwise.
pub proof fn law_moves_to_next_target(s: RunState, ok: bool)
    requires
        run_state_ok(s),
        s.stage == RunStage::AwaitInvite || (s.stage == RunStage::AwaitJoin && !ok) || s.stage
            == RunStage::NextTarget,
    ensures
        ({
            let (next, step) = run_step(s, ok);
            let i = if s.stage == RunStage::NextTarget { s.index } else { s.index + 1 };
            &&& i >= s.targets.len() ==> step == Step::Finished && next.stage == RunStage::Done
                && next.index == s.targets.len()
            &&& i < s.targets.len() && is_room_id(s.targets[i]) ==> step == Step::LookUpRoom(
                s.targets[i],
            ) && next.stage == RunStage::AwaitLookup && next.index == i
            &&& i < s.targets.len() && !is_room_id(s.targets[i]) ==> step
                == Step::ReportInvalidTarget(s.targets[i]) && next.stage == RunStage::NextTarget
                && next.index == i + 1
        }),
{
}

/// The targets (by index) that a run from `s` invites into, in order, when
/// its actions are answered with `answers`.
pub open spec fn invited_targets(s: RunState, answers: Seq<bool>) -> Seq<int>
    decreases answers.len(),
{
    if answers.len() == 0 {
        Seq::empty()
    } else {
        let (next, step) = run_step(s, answers[0]);
        let rest = invited_targets(next, answers.drop_first());
        if step is InviteSender {
            seq![s.index] + rest
        } else {
            rest
        }
    }
}

/// The rooms that a run from `s` invites into, in order, when its actions
/// are answered with `answers`.
pub open spec fn invited_rooms(s: RunState, answers: Seq<bool>) -> Seq<Seq<char>>
    decreases answers.len(),
{
    if answers.len() == 0 {
        Seq::empty()
    } else {
        let (next, step) = run_step(s, answers[0]);
        let rest = invited_rooms(next, answers.drop_first());
        match step {
            Step::InviteSender(room) => seq![room] + rest,
            _ => rest,
        }
    }
}

/// The lowest target index a run from `s` can still invite into.
pub open spec fn next_invitable(s: RunState) -> int {
    if s.stage == RunStage::AwaitInvite || s.stage == RunStage::Done {
        s.index + 1
    } else {
        s.index
    }
}

proof fn lemma_invited_targets_rise(s: RunState, answers: Seq<bool>)
    requires
        run_state_ok(s),
    ensures
        ({
            let v = invited_targets(s, answers);
            &&& forall|k: int| 0 <= k < v.len() ==> next_invitable(s) <= #[trigger] v[k] < s.targets.len()
            &&& forall|i: int, j: int| 0 <= i < j < v.len() ==> v[i] < v[j]
            &&& invited_rooms(s, answers).len() == v.len()
            &&& forall|k: int| 0 <= k < v.len() ==> #[trigger] invited_rooms(s, answers)[k] == s.targets[v[k]]
        }),
    decreases answers.len(),
{
    if answers.len() > 0 {
        let (next, step) = run_step(s, answers[0]);
        law_run_makes_progress(s, answers[0]);
        law_targets_in_order(s, answers[0]);
        law_invite_only_into_obtained_rooms(s, answers[0]);
        lemma_invited_targets_rise(next, answers.drop_first());
        let rest = invited_targets(next, answers.drop_first());
        let v = invited_targets(s, answers);
        if step is InviteSender {
            assert(next.stage == RunStage::AwaitInvite && next.index == s.index);
            assert forall|k: int| 0 <= k < v.len() implies next_invitable(s) <= #[trigger] v[k] < s.targets.len() by {
                if k > 0 {
                    assert(v[k] == rest[k - 1]);
                }
            }
            assert forall|i: int, j: int| 0 <= i < j < v.len() implies v[i] < v[j] by {
                assert(v[j] == rest[j - 1]);
                if i > 0 {
                    assert(v[i] == rest[i - 1]);
                }
            }
            let rooms = invited_rooms(s, answers);
            let rest_rooms = invited_rooms(next, answers.drop_first());
            assert forall|k: int| 0 <= k < v.len() implies #[trigger] rooms[k] == s.targets[v[k]] by {
                if k > 0 {
                    assert(v[k] == rest[k - 1]);
                    assert(rooms[k] == rest_rooms[k - 1]);
                }
            }
        } else {
            assert(next_invitable(next) >= next_invitable(s));
        }
    }
}

/// Over a whole run, whatever the answers, the sender is invited into the
/// targets in their order and into each target at most once, each invite
/// naming its target's room; when the targets are distinct rooms, into each
/// room at most once.
pub proof fn law_run_invites_each_target_at_most_once(s: RunState, answers: Seq<bool>)
    requires
        run_state_ok(s),
    ensures
        ({
            let v = invited_targets(s, answers);
            let rooms = invited_rooms(s, answers);
            &&& forall|k: int| 0 <= k < v.len() ==> s.index <= #[trigger] v[k] < s.targets.len()
            &&& forall|i: int, j: int| 0 <= i < j < v.len() ==> v[i] < v[j]
            &&& rooms.len() == v.len()
            &&& forall|k: int| 0 <= k < v.len() ==> #[trigger] rooms[k] == s.targets[v[k]]
            &&& (forall|i: int, j: int| 0 <= i < j < s.targets.len() ==> s.targets[i] != s.targets[j])
                ==> forall|i: int, j: int| 0 <= i < j < rooms.len() ==> rooms[i] != rooms[j]
        }),
{
    lemma_invited_targets_rise(s, answers);
    let v = invited_targets(s, answers);
    let rooms = invited_rooms(s, answers);
    if forall|i: int, j: int| 0 <= i < j < s.targets.len() ==> s.targets[i] != s.targets[j] {
        assert forall|i: int, j: int| 0 <= i < j < rooms.len() implies rooms[i] != rooms[j] by {
            assert(rooms[i] == s.targets[v[i]]);
            assert(rooms[j] == s.targets[v[j]]);
            assert(v[i] < v[j]);
        }
    }
}

/// Invites one sender into each target room in turn: a room this device
/// does not know is joined first, every obtained room gets a diagnostic key
/// export and then the invite, and an invalid or unjoinable target is skipped.
pub struct InviteRun {
    targets: Vec<String>,
    at: Position,
}

/// The current target and stage, changed together.
#[derive(Clone, Copy)]
struct Position {
    index: usize,
    stage: RunStage,
}

impl View for InviteRun {
    type V = RunState;

    closed spec fn view(&self) -> RunState {
        RunState { targets: string_views(self.targets@), index: self.at.index as int, stage: self.at.stage }
    }
}

impl InviteRun {
    #[verifier::type_invariant]
    spec fn inv(self) -> bool {
        run_state_ok(self@)
    }

    /// A run over these target rooms, about to start on the first.
    pub fn new(targets: Vec<String>) -> (r: Self)
        ensures
            r@ == (RunState { targets: string_views(targets@), index: 0, stage: RunStage::NextTarget }),
    {
        InviteRun { targets, at: Position { index: 0, stage: RunStage::NextTarget } }
    }

    /// Where the run stands.
    pub fn stage(&self) -> (st: RunStage)
        ensures
            st == self@.stage,
    {
        self.at.stage
    }

    fn begin(&mut self, index: usize) -> (a: RunAction)
        requires
            old(self).at.index <= index <= old(self).targets@.len(),
        ensures
            (final(self)@, a@) == begin_target(old(self)@.targets, index as int),
    {
        if index >= self.targets.len() {
            self.at = Position { index: self.targets.len(), stage: RunStage::Done };
            return RunAction::Finished;
        }
        let ghost views = string_views(self.targets@);
        proof {
            assert(views[index as int] == self.targets@[index as int]@);
        }
        match parse_room_id(self.targets[index].as_str()) {
            Err(reason) => {
                let bad = self.targets[index].clone();
                self.at = Position { index: index + 1, stage: RunStage::NextTarget };
                RunAction::ReportInvalidTarget(bad, reason)
            },
            Ok(id) => {
                self.at = Position { index, stage: RunStage::AwaitLookup };
                RunAction::LookUpRoom(id)
            },
        }
    }

    /// Takes one step, given the answer `ok` to the previous action: whether
    /// the room was known after `LookUpRoom`, whether the join succeeded after
    /// `JoinRoom`; the answer to any other action is ignored.
    pub fn advance(&mut self, ok: bool) -> (a: RunAction)
        ensures
            (final(self)@, a@) == run_step(old(self)@, ok),
    {
        proof {
            use_type_invariant(&*self);
        }
        let ghost views = string_views(self.targets@);
        assert(views.len() == self.targets@.len());
        assert(run_state_ok(self@));
        let stage = self.at.stage;
        let idx = self.at.index;
        let count = self.targets.len();
        assert(stage != RunStage::NextTarget && stage != RunStage::Done ==> idx < count);
        match stage {
            RunStage::NextTarget => {
                let i = self.at.index;
                self.begin(i)
            },
            RunStage::AwaitLookup => {
                proof { assert(views[self.at.index as int] == self.targets@[self.at.index as int]@); }
                let t = self.targets[self.at.index].clone();
                if ok {
                    self.at = Position { index: self.at.index, stage: RunStage::AwaitExport };
                    RunAction::ExportDiagnostics(t)
                } else {
                    self.at = Position { index: self.at.index, stage: RunStage::AwaitJoin };
                    RunAction::JoinRoom(t)
                }
            },
            RunStage::AwaitJoin => {
                if ok {
                    self.at = Position { index: self.at.index, stage: RunStage::AwaitSync };
                    RunAction::SyncAfterJoin
                } else {
                    let i = idx + 1;
                    self.begin(i)
                }
            },
            RunStage::AwaitSync => {
                proof { assert(views[self.at.index as int] == self.targets@[self.at.index as int]@); }
                let t = self.targets[self.at.index].clone();
                self.at = Position { index: self.at.index, stage: RunStage::AwaitExport };
                RunAction::ExportDiagnostics(t)
            },
            RunStage::AwaitExport => {
                proof { assert(views[self.at.index as int] == self.targets@[self.at.index as int]@); }
                let t = self.targets[self.at.index].clone();
                self.at = Position { index: self.at.index, stage: RunStage::AwaitInvite };
                RunAction::InviteSender(t)
            },
            RunStage::AwaitInvite => {
                let i = idx + 1;
                self.begin(i)
            },
            RunStage::Done => RunAction::Finished,
        }
    }
}

} // verus!
