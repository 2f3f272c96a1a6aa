use vstd::prelude::*;
use vstd::hash_map::StringHashMap;

use crate::room_list::{holds_room, string_views};
use crate::text::{trim_str, trimmed};

verus! {

/// The body of an incoming room message, as far as the trigger check needs it.
pub enum MessageBody {
    /// An ordinary message with this text body.
    Text(String),
    /// A redacted message: it has no body.
    Redacted,
}

impl View for MessageBody {
    type V = Option<Seq<char>>;

    open spec fn view(&self) -> Option<Seq<char>> {
        match self {
            MessageBody::Text(s) => Some(s@),
            MessageBody::Redacted => None,
        }
    }
}

/// What became of an incoming message.
#[derive(Debug, Clone, Copy, PartialEq, Eq, Structural)]
pub enum TriggerOutcome {
    /// It was sent in a room that is not on the trigger allow-list.
    RoomNotAllowed,
    /// It was redacted.
    Redacted,
    /// Its trimmed body is not the trigger phrase.
    NotTrigger,
    /// Its sender already triggered a welcome within the debounce window.
    Debounced,
    /// It triggers a welcome for its sender.
    Welcome,
}

/// The abstract state of a [`WelcomeGate`].
pub struct GateState {
    /// Rooms the trigger phrase is accepted from.
    pub rooms: Seq<Seq<char>>,
    /// The trigger phrase.
    pub trigger: Seq<char>,
    /// Length of the debounce window, in seconds.
    pub debounce_seconds: u64,
    /// For each sender, the time (nanoseconds on the bot's monotonic clock)
    /// of the last welcome it triggered.
    pub last_welcome: Map<Seq<char>, u128>,
}

/// Decides which messages trigger a welcome: the message must come from an
/// allow-listed room, be unredacted, have the trigger phrase as its trimmed
/// body, and its sender must not have triggered a welcome within the
/// debounce window.
pub struct WelcomeGate {
    trigger_rooms: Vec<String>,
    welcome_trigger: String,
    debounce_seconds: u64,
    last_welcome: StringHashMap<u128>,
}

impl View for WelcomeGate {
    type V = GateState;

    closed spec fn view(&self) -> GateState {
        GateState {
            rooms: string_views(self.trigger_rooms@),
            trigger: self.welcome_trigger@,
            debounce_seconds: self.debounce_seconds,
            last_welcome: self.last_welcome@,
        }
    }
}

/// Whether a welcome at `last` is still inside the debounce window at `now`:
/// the time elapsed since it (zero if the clock reads earlier) is shorter
/// than the window.
pub open spec fn within_window(last: u128, now: u128, debounce_seconds: u64) -> bool {
    (if now >= last { now - last } else { 0 }) < debounce_seconds * 1_000_000_000
}

/// The outcome, in state `g`, of a message from `room`, with `body`
/// (`None` when redacted), sent by `sender` at time `now`.
pub open spec fn gate_outcome(
    g: GateState,
    room: Seq<char>,
    body: Option<Seq<char>>,
    sender: Seq<char>,
    now: u128,
) -> TriggerOutcome {
    if !g.rooms.contains(room) {
        TriggerOutcome::RoomNotAllowed
    } else if body is None {
        TriggerOutcome::Redacted
    } else if trimmed(body->0) != g.trigger {
        TriggerOutcome::NotTrigger
    } else if g.last_welcome.contains_key(sender) && within_window(
        g.last_welcome[sender],
        now,
        g.debounce_seconds,
    ) {
        TriggerOutcome::Debounced
    } else {
        TriggerOutcome::Welcome
    }
}

/// The state after that message: a welcome records its time for the
/// sender; every other outcome leaves the state as it was.
pub open spec fn gate_after(
    g: GateState,
    room: Seq<char>,
    body: Option<Seq<char>>,
    sender: Seq<char>,
    now: u128,
) -> GateState {
    if gate_outcome(g, room, body, sender, now) == TriggerOutcome::Welcome {
        GateState { last_welcome: g.last_welcome.insert(sender, now), ..g }
    } else {
        g
    }
}

/// A message from a room outside the allow-list never triggers a welcome,
/// whatever it says.
pub proof fn law_welcome_only_from_trigger_rooms(
    g: GateState,
    room: Seq<char>,
    body: Option<Seq<char>>,
    sender: Seq<char>,
    now: u128,
)
    ensures
        !g.rooms.contains(room) ==> gate_outcome(g, room, body, sender, now)
            == TriggerOutcome::RoomNotAllowed,
        gate_outcome(g, room, body, sender, now) == TriggerOutcome::Welcome ==> {
            &&& g.rooms.contains(room)
            &&& body is Some
            &&& trimmed(body->0) == g.trigger
        },
{
}

/// After a sender triggers a welcome, the same sender's trigger phrase is
/// ignored, from any allow-listed room, until the debounce window has passed.
pub proof fn law_repeat_within_window_is_debounced(
    g: GateState,
    room: Seq<char>,
    body: Option<Seq<char>>,
    sender: Seq<char>,
    first: u128,
    later_room: Seq<char>,
    later_body: Option<Seq<char>>,
    later: u128,
)
    requires
        gate_outcome(g, room, body, sender, first) == TriggerOutcome::Welcome,
        first <= later,
        later - first < g.debounce_seconds * 1_000_000_000,
        g.rooms.contains(later_room),
        later_body is Some,
        trimmed(later_body->0) == g.trigger,
    ensures
        gate_outcome(gate_after(g, room, body, sender, first), later_room, later_body, sender, later)
            == TriggerOutcome::Debounced,
{
    let g1 = gate_after(g, room, body, sender, first);
    assert(g1.last_welcome.contains_key(sender));
    assert(g1.last_welcome[sender] == first);
}

/// A message that does not trigger a welcome leaves the state unchanged, and
/// a welcome changes only its sender's record.
pub proof fn law_only_welcomes_are_recorded(
    g: GateState,
    room: Seq<char>,
    body: Option<Seq<char>>,
    sender: Seq<char>,
    now: u128,
)
    ensures
        gate_outcome(g, room, body, sender, now) != TriggerOutcome::Welcome ==> gate_after(
            g,
            room,
            body,
            sender,
            now,
        ) == g,
        gate_outcome(g, room, body, sender, now) == TriggerOutcome::Welcome ==> gate_after(
            g,
            room,
            body,
            sender,
            now,
        ) == (GateState { last_welcome: g.last_welcome.insert(sender, now), ..g }),
{
}

/// Another sender's message never changes a sender's record, and never
/// changes the allow-list, the phrase or the window.
pub proof fn law_other_senders_keep_record(
    g: GateState,
    room: Seq<char>,
    body: Option<Seq<char>>,
    sender: Seq<char>,
    now: u128,
    other: Seq<char>,
)
    requires
        other != sender,
    ensures
        ({
            let g1 = gate_after(g, room, body, sender, now);
            &&& g1.rooms == g.rooms
            &&& g1.trigger == g.trigger
            &&& g1.debounce_seconds == g.debounce_seconds
            &&& g1.last_welcome.contains_key(other) == g.last_welcome.contains_key(other)
            &&& g.last_welcome.contains_key(other) ==> g1.last_welcome[other] == g.last_welcome[other]
        }),
{
}

/// The trigger phrase from an allow-listed room is welcomed when its sender
/// has no welcome inside the debounce window.
pub proof fn law_trigger_outside_window_is_welcomed(
    g: GateState,
    room: Seq<char>,
    body: Option<Seq<char>>,
    sender: Seq<char>,
    now: u128,
)
    requires
        g.rooms.contains(room),
        body is Some,
        trimmed(body->0) == g.trigger,
        !(g.last_welcome.contains_key(sender) && within_window(
            g.last_welcome[sender],
            now,
            g.debounce_seconds,
        )),
    ensures
        gate_outcome(g, room, body, sender, now) == TriggerOutcome::Welcome,
{
}

/// The trigger phrase from an allow-listed room is welcomed once the whole
/// debounce window has passed since its sender's last welcome (or when the
/// sender has none): `debounce_seconds` seconds, counted in nanoseconds.
pub proof fn law_welcome_once_window_has_passed(
    g: GateState,
    room: Seq<char>,
    body: Option<Seq<char>>,
    sender: Seq<char>,
    now: u128,
)
    requires
        g.rooms.contains(room),
        body is Some,
        trimmed(body->0) == g.trigger,
        g.last_welcome.contains_key(sender) ==> {
            &&& g.last_welcome[sender] <= now
            &&& now - g.last_welcome[sender] >= g.debounce_seconds as int * 1_000_000_000
        },
    ensures
        gate_outcome(g, room, body, sender, now) == TriggerOutcome::Welcome,
        gate_after(g, room, body, sender, now).last_welcome == g.last_welcome.insert(sender, now),
{
}

/// While the window lasts, a repeat is ignored: the trigger phrase from an
/// allow-listed room, from a sender welcomed at `last` with
/// `now - last` shorter than the window (or a clock reading earlier than
/// `last`, with a window of at least one second), is debounced and recorded
/// nowhere.
pub proof fn law_debounced_while_window_lasts(
    g: GateState,
    room: Seq<char>,
    body: Option<Seq<char>>,
    sender: Seq<char>,
    now: u128,
)
    requires
        g.rooms.contains(room),
        body is Some,
        trimmed(body->0) == g.trigger,
        g.last_welcome.contains_key(sender),
        (g.last_welcome[sender] <= now && now - g.last_welcome[sender] < g.debounce_seconds as int
            * 1_000_000_000) || (now < g.last_welcome[sender] && g.debounce_seconds > 0),
    ensures
        gate_outcome(g, room, body, sender, now) == TriggerOutcome::Debounced,
        gate_after(g, room, body, sender, now) == g,
{
}

/// From an allow-listed room, a redacted message is reported as redacted and
/// a message whose trimmed body is not the trigger phrase as no trigger;
/// neither changes anything.
pub proof fn law_non_trigger_messages(
    g: GateState,
    room: Seq<char>,
    body: Option<Seq<char>>,
    sender: Seq<char>,
    now: u128,
)
    requires
        g.rooms.contains(room),
    ensures
        body is None ==> gate_outcome(g, room, body, sender, now) == TriggerOutcome::Redacted,
        body is Some && trimmed(body->0) != g.trigger ==> gate_outcome(g, room, body, sender, now)
            == TriggerOutcome::NotTrigger,
        (body is None || trimmed(body->0) != g.trigger) ==> gate_after(g, room, body, sender, now) == g,
{
}

impl WelcomeGate {
    /// A gate for these trigger rooms, trigger phrase and debounce window,
    /// with no welcome recorded yet.
    pub fn new(trigger_rooms: Vec<String>, welcome_trigger: String, debounce_seconds: u64) -> (g: Self)
        ensures
            g@.rooms == string_views(trigger_rooms@),
            g@.trigger == welcome_trigger@,
            g@.debounce_seconds == debounce_seconds,
            g@.last_welcome == Map::<Seq<char>, u128>::empty(),
    {
        WelcomeGate { trigger_rooms, welcome_trigger, debounce_seconds, last_welcome: StringHashMap::new() }
    }

    /// When `sender` last triggered a welcome, if it ever did.
    pub fn last_welcome_of(&self, sender: &str) -> (t: Option<u128>)
        ensures
            match t {
                Some(v) => self@.last_welcome.contains_key(sender@) && v == self@.last_welcome[sender@],
                None => !self@.last_welcome.contains_key(sender@),
            },
    {
        match self.last_welcome.get(sender) {
            Some(v) => Some(*v),
            None => None,
        }
    }

    /// Handles a message from `room` with `body` sent by `sender` at `now`
    /// (nanoseconds on the bot's monotonic clock), and records the welcome
    /// when it triggers one.
    pub fn on_message(&mut self, room: &str, body: &MessageBody, sender: &str, now: u128) -> (out: TriggerOutcome)
        ensures
            out == gate_outcome(old(self)@, room@, body@, sender@, now),
            final(self)@ == gate_after(old(self)@, room@, body@, sender@, now),
            out == TriggerOutcome::Welcome ==> old(self)@.rooms.contains(room@),
    {
        let room_string = String::from_str(room);
        if !holds_room(&self.trigger_rooms, &room_string) {
            return TriggerOutcome::RoomNotAllowed;
        }
        let text = match body {
            MessageBody::Text(t) => t,
            MessageBody::Redacted => { return TriggerOutcome::Redacted; },
        };
        let candidate = String::from_str(trim_str(text.as_str()));
        if !(candidate == self.welcome_trigger) {
            return TriggerOutcome::NotTrigger;
        }
        match self.last_welcome.get(sender) {
            Some(last) => {
                let last: u128 = *last;
                let elapsed: u128 = if now >= last { now - last } else { 0 };
                let window: u128 = (self.debounce_seconds as u128) * 1_000_000_000u128;
                if elapsed < window {
                    return TriggerOutcome::Debounced;
                }
            },
            None => {},
        }
        self.last_welcome.insert(String::from_str(sender), now);
        TriggerOutcome::Welcome
    }
}

} // verus!
