//! Verified core of a Matrix welcome bot: configuration parsing, the
//! trigger gate with its per-sender debounce, and the per-room invite run.

mod config;
mod gate;
mod invite_run;
mod number;
mod room_id;
mod room_list;
mod startup;
mod text;

pub use config::{
    debounce_text, default_crypto_store_path, default_debounce_text, default_diagnostic_key_file,
    default_homeserver, default_key_export_file, default_session_file, default_welcome_trigger,
    is_missing, is_room_list_error, law_default_debounce_is_thirty_seconds,
    law_set_variables_are_used_as_given, room_list_error_is, value_or, Config, ConfigError, ConfigVars,
};
pub use gate::{
    gate_after, gate_outcome, law_debounced_while_window_lasts, law_non_trigger_messages,
    law_only_welcomes_are_recorded, law_welcome_once_window_has_passed, law_other_senders_keep_record,
    law_repeat_within_window_is_debounced, law_trigger_outside_window_is_welcomed,
    law_welcome_only_from_trigger_rooms, within_window, GateState, MessageBody, TriggerOutcome, WelcomeGate,
};
pub use invite_run::{
    begin_target, law_answers_lead_on, law_each_action_awaits_its_answer,
    law_invite_only_into_obtained_rooms, law_moves_to_next_target, law_obtained_room_is_invited,
    invited_rooms, invited_targets, law_run_invites_each_target_at_most_once, law_run_makes_progress,
    next_invitable,
    law_targets_in_order, run_state_ok, run_step, steps_left, InviteRun, RunAction, RunStage, RunState, Step,
};
pub use number::{decimal_u64, law_decimal_reading, digits_value, is_ascii_digit, without_plus};
pub use room_id::is_room_id;
pub use room_list::{
    add_room_piece, append_entries, in_first_mention_order, named_before, gather_rooms, join_commas, law_accepted_room_list,
    law_accepted_rooms_are_first_occurrences, law_accepted_rooms_keep_first_mention_order, law_blank_or_repeated_entries_change_nothing,
    law_joined_room_list_parses_back, law_split_commas_cuts_at_commas, law_refused_room_list, nonblank_trimmed, parse_room_list,
    without_repeats, room_list_result, split_commas, string_views,
    RoomListError,
};
pub use startup::{key_import_plan, session_plan, KeyImportPlan, SessionPlan};
pub use text::{is_white_space, law_trim_cuts_only_outer_white_space, trim_end, trim_start, trimmed};
