use ruma::IdParseError;
use welcome_bot::{InviteRun, MessageBody, RunAction, RunStage, TriggerOutcome, WelcomeGate};

const SECOND: u128 = 1_000_000_000;

fn s(text: &str) -> String {
    text.to_string()
}

fn gate() -> WelcomeGate {
    WelcomeGate::new(vec![s("!lobby:x.org"), s("!hall:x.org")], s("!welcome"), 30)
}

fn text(body: &str) -> MessageBody {
    MessageBody::Text(s(body))
}

#[test]
fn gate_ignores_rooms_outside_allow_list() {
    let mut g = gate();
    assert_eq!(g.on_message("!other:x.org", &text("!welcome"), "@u:x.org", 0), TriggerOutcome::RoomNotAllowed);
    assert_eq!(g.on_message("!other:x.org", &MessageBody::Redacted, "@u:x.org", 0), TriggerOutcome::RoomNotAllowed);
    assert_eq!(g.last_welcome_of("@u:x.org"), None);
}

#[test]
fn gate_ignores_redacted_messages() {
    let mut g = gate();
    assert_eq!(g.on_message("!lobby:x.org", &MessageBody::Redacted, "@u:x.org", 0), TriggerOutcome::Redacted);
    assert_eq!(g.last_welcome_of("@u:x.org"), None);
}

#[test]
fn gate_ignores_other_text() {
    let mut g = gate();
    assert_eq!(g.on_message("!lobby:x.org", &text("hello"), "@u:x.org", 0), TriggerOutcome::NotTrigger);
    assert_eq!(g.on_message("!lobby:x.org", &text("!welcome please"), "@u:x.org", 0), TriggerOutcome::NotTrigger);
    assert_eq!(g.on_message("!lobby:x.org", &text("!Welcome"), "@u:x.org", 0), TriggerOutcome::NotTrigger);
    assert_eq!(g.last_welcome_of("@u:x.org"), None);
}

#[test]
fn gate_accepts_trimmed_trigger() {
    let mut g = gate();
    assert_eq!(g.on_message("!hall:x.org", &text("  !welcome\n"), "@u:x.org", 7), TriggerOutcome::Welcome);
    assert_eq!(g.last_welcome_of("@u:x.org"), Some(7));
}

#[test]
fn gate_debounces_repeat_within_window() {
    let mut g = gate();
    assert_eq!(g.on_message("!lobby:x.org", &text("!welcome"), "@u:x.org", 100), TriggerOutcome::Welcome);
    assert_eq!(g.on_message("!hall:x.org", &text("!welcome"), "@u:x.org", 100 + 30 * SECOND - 1), TriggerOutcome::Debounced);
    // the ignored trigger does not restart the window
    assert_eq!(g.last_welcome_of("@u:x.org"), Some(100));
    assert_eq!(g.on_message("!lobby:x.org", &text("!welcome"), "@u:x.org", 100 + 30 * SECOND), TriggerOutcome::Welcome);
    assert_eq!(g.last_welcome_of("@u:x.org"), Some(100 + 30 * SECOND));
}

#[test]
fn gate_debounce_is_per_sender() {
    let mut g = gate();
    assert_eq!(g.on_message("!lobby:x.org", &text("!welcome"), "@a:x.org", 0), TriggerOutcome::Welcome);
    assert_eq!(g.on_message("!lobby:x.org", &text("!welcome"), "@b:x.org", 1), TriggerOutcome::Welcome);
    assert_eq!(g.on_message("!lobby:x.org", &text("!welcome"), "@a:x.org", 2), TriggerOutcome::Debounced);
    assert_eq!(g.last_welcome_of("@a:x.org"), Some(0));
    assert_eq!(g.last_welcome_of("@b:x.org"), Some(1));
}

#[test]
fn gate_clock_reading_earlier_counts_as_no_time_elapsed() {
    let mut g = gate();
    assert_eq!(g.on_message("!lobby:x.org", &text("!welcome"), "@u:x.org", 50 * SECOND), TriggerOutcome::Welcome);
    assert_eq!(g.on_message("!lobby:x.org", &text("!welcome"), "@u:x.org", 0), TriggerOutcome::Debounced);
}

#[test]
fn gate_zero_window_never_debounces() {
    let mut g = WelcomeGate::new(vec![s("!r")], s("!hi"), 0);
    assert_eq!(g.on_message("!r", &text("!hi"), "@u", 5), TriggerOutcome::Welcome);
    assert_eq!(g.on_message("!r", &text("!hi"), "@u", 5), TriggerOutcome::Welcome);
}

#[test]
fn gate_huge_window() {
    let mut g = WelcomeGate::new(vec![s("!r")], s("!hi"), u64::MAX);
    assert_eq!(g.on_message("!r", &text("!hi"), "@u", 0), TriggerOutcome::Welcome);
    assert_eq!(g.on_message("!r", &text("!hi"), "@u", u128::MAX), TriggerOutcome::Welcome);
    assert_eq!(g.on_message("!r", &text("!hi"), "@u", u128::MAX), TriggerOutcome::Debounced);
}

/// Drives a run, answering each lookup and join from the given answers.
fn drive(targets: Vec<String>, answers: &[bool]) -> Vec<RunAction> {
    let mut run = InviteRun::new(targets);
    let mut out = Vec::new();
    let mut answers = answers.iter();
    let mut ok = false;
    loop {
        let action = run.advance(ok);
        let finished = action == RunAction::Finished;
        ok = match action {
            RunAction::LookUpRoom(_) | RunAction::JoinRoom(_) => *answers.next().unwrap(),
            _ => false,
        };
        out.push(action);
        if finished {
            break;
        }
    }
    out
}

#[test]
fn run_known_room_is_exported_then_invited() {
    let actions = drive(vec![s("!a:x.org")], &[true]);
    assert_eq!(
        actions,
        vec![
            RunAction::LookUpRoom(s("!a:x.org")),
            RunAction::ExportDiagnostics(s("!a:x.org")),
            RunAction::InviteSender(s("!a:x.org")),
            RunAction::Finished,
        ]
    );
}

#[test]
fn run_unknown_room_is_joined_and_synced() {
    let actions = drive(vec![s("!a:x.org")], &[false, true]);
    assert_eq!(
        actions,
        vec![
            RunAction::LookUpRoom(s("!a:x.org")),
            RunAction::JoinRoom(s("!a:x.org")),
            RunAction::SyncAfterJoin,
            RunAction::ExportDiagnostics(s("!a:x.org")),
            RunAction::InviteSender(s("!a:x.org")),
            RunAction::Finished,
        ]
    );
}

#[test]
fn run_skips_room_that_cannot_be_joined() {
    let actions = drive(vec![s("!a:x.org"), s("!b:x.org")], &[false, false, true]);
    assert_eq!(
        actions,
        vec![
            RunAction::LookUpRoom(s("!a:x.org")),
            RunAction::JoinRoom(s("!a:x.org")),
            RunAction::LookUpRoom(s("!b:x.org")),
            RunAction::ExportDiagnostics(s("!b:x.org")),
            RunAction::InviteSender(s("!b:x.org")),
            RunAction::Finished,
        ]
    );
}

#[test]
fn run_reports_invalid_targets_and_goes_on() {
    let actions = drive(vec![s("bad"), s("!a:x.org"), s("")], &[true]);
    assert_eq!(
        actions,
        vec![
            RunAction::ReportInvalidTarget(s("bad"), IdParseError::MissingLeadingSigil),
            RunAction::LookUpRoom(s("!a:x.org")),
            RunAction::ExportDiagnostics(s("!a:x.org")),
            RunAction::InviteSender(s("!a:x.org")),
            RunAction::ReportInvalidTarget(s(""), IdParseError::MissingLeadingSigil),
            RunAction::Finished,
        ]
    );
}

#[test]
fn run_without_targets_finishes_at_once() {
    let mut run = InviteRun::new(Vec::new());
    assert_eq!(run.stage(), RunStage::NextTarget);
    assert_eq!(run.advance(true), RunAction::Finished);
    assert_eq!(run.stage(), RunStage::Done);
    assert_eq!(run.advance(false), RunAction::Finished);
}

#[test]
fn run_invites_each_distinct_target_once_in_order() {
    let targets = vec![s("!a:x.org"), s("!b:x.org"), s("!c:x.org")];
    let actions = drive(targets, &[true, false, true, false, false]);
    let invites: Vec<RunAction> =
        actions.into_iter().filter(|a| matches!(a, RunAction::InviteSender(_))).collect();
    assert_eq!(
        invites,
        vec![RunAction::InviteSender(s("!a:x.org")), RunAction::InviteSender(s("!b:x.org"))]
    );
}
