use vstd::prelude::*;

use crate::number::{decimal_u64, digits_value, parse_u64};
use crate::room_list::{parse_room_list, room_list_result, string_views, RoomListError};

verus! {

/// The raw settings, one per environment variable, each `None` where the
/// variable is not set.
pub struct ConfigVars {
    /// `MATRIX_HOMESERVER`
    pub homeserver: Option<String>,
    /// `MATRIX_USERNAME`
    pub username: Option<String>,
    /// `MATRIX_PASSWORD`
    pub password: Option<String>,
    /// `BOT_RECOVERY_KEY`
    pub recovery_key: Option<String>,
    /// `KEY_EXPORT_PASSPHRASE`
    pub passphrase: Option<String>,
    /// `SPACE_CHILD_ROOMS`
    pub target_rooms: Option<String>,
    /// `TRIGGER_ROOMS`
    pub trigger_rooms: Option<String>,
    /// `SESSION_FILE`
    pub session_file: Option<String>,
    /// `KEY_EXPORT_FILE`
    pub key_export_file: Option<String>,
    /// `CRYPTO_STORE_PATH`
    pub crypto_store_path: Option<String>,
    /// `DIAGNOSTIC_KEY_FILE`
    pub diagnostic_key_file: Option<String>,
    /// `WELCOME_TRIGGER`
    pub welcome_trigger: Option<String>,
    /// `WELCOME_DEBOUNCE_SECONDS`
    pub debounce_seconds: Option<String>,
}

/// The bot's settings.
pub struct Config {
    pub homeserver: String,
    pub username: String,
    pub password: String,
    pub recovery_key: String,
    pub passphrase: String,
    /// Rooms the sender is invited into.
    pub target_rooms: Vec<String>,
    /// Rooms the trigger phrase is accepted from.
    pub trigger_rooms: Vec<String>,
    pub session_file: String,
    pub key_export_file: String,
    pub crypto_store_path: String,
    pub diagnostic_key_file: String,
    pub welcome_trigger: String,
    pub debounce_seconds: u64,
}

/// Why the settings were refused.
#[derive(Debug, PartialEq, Eq)]
pub enum ConfigError {
    /// A required variable is not set.
    MissingVariable(String),
    /// A room list variable holds a bad list.
    BadRoomList { variable: String, error: RoomListError },
    /// `WELCOME_DEBOUNCE_SECONDS` is not a number of seconds, for the reason
    /// that `str::parse` gives.
    InvalidDebounce { text: String, reason: std::num::ParseIntError },
}

pub open spec fn default_homeserver() -> Seq<char> {
    "https://matrix.org"@
}

pub open spec fn default_session_file() -> Seq<char> {
    "./session.json"@
}

pub open spec fn default_key_export_file() -> Seq<char> {
    "./element-keys-shareable.txt"@
}

pub open spec fn default_crypto_store_path() -> Seq<char> {
    "./bot-store"@
}

pub open spec fn default_diagnostic_key_file() -> Seq<char> {
    "./diagnostic-keys.txt"@
}

pub open spec fn default_welcome_trigger() -> Seq<char> {
    "!welcome"@
}

pub open spec fn default_debounce_text() -> Seq<char> {
    "30"@
}

/// Without `WELCOME_DEBOUNCE_SECONDS`, the debounce window is 30 seconds.
pub proof fn law_default_debounce_is_thirty_seconds()
    ensures
        decimal_u64(default_debounce_text()) == Some(30u64),
{
    reveal_strlit("30");
    let d = default_debounce_text();
    assert(d.len() == 2 && d[0] == '3' && d[1] == '0');
    let d1 = d.drop_last();
    assert(d1.len() == 1 && d1.last() == '3');
    assert(d1.drop_last() =~= Seq::<char>::empty());
    assert(digits_value(d1.drop_last()) == 0);
    assert(('3' as int) - ('0' as int) == 3);
    assert(digits_value(d1) == 3);
    assert(digits_value(d) == 30);
}

/// A variable that is set is used exactly as given, whatever its default; an
/// unset one takes its default.
pub proof fn law_set_variables_are_used_as_given(s: String, default: Seq<char>)
    ensures
        value_or(Some(s), default) == s@,
        value_or(None, default) == default,
{
}

/// The value of a variable, or `default` where it is not set.
pub open spec fn value_or(v: Option<String>, default: Seq<char>) -> Seq<char> {
    match v {
        Some(s) => s@,
        None => default,
    }
}

/// Whether `e` is the refusal that `room_list_result` describes by `bad`.
pub open spec fn room_list_error_is(e: RoomListError, bad: Option<Seq<char>>) -> bool {
    match bad {
        Some(b) => e matches RoomListError::InvalidRoomId { entry, .. } && entry@ == b,
        None => e matches RoomListError::NoRooms,
    }
}

/// Whether `e` reports the room list variable `name` with the refusal `bad`.
pub open spec fn is_room_list_error(e: ConfigError, name: Seq<char>, bad: Option<Seq<char>>) -> bool {
    e matches ConfigError::BadRoomList { variable, error } && variable@ == name
        && room_list_error_is(error, bad)
}

/// Whether `e` reports the missing variable `name`.
pub open spec fn is_missing(e: ConfigError, name: Seq<char>) -> bool {
    e matches ConfigError::MissingVariable(v) && v@ == name
}

/// The text `WELCOME_DEBOUNCE_SECONDS` is read from.
pub open spec fn debounce_text(vars: ConfigVars) -> Seq<char> {
    value_or(vars.debounce_seconds, default_debounce_text())
}

fn value_or_default(v: Option<String>, default: &str) -> (r: String)
    ensures
        r@ == value_or(v, default@),
        v is Some ==> r@ == v->0@,
        v is None ==> r@ == default@,
{
    match v {
        Some(s) => s,
        None => String::from_str(default),
    }
}

fn room_list_var(name: &str, raw: Option<String>) -> (r: Result<Vec<String>, ConfigError>)
    ensures
        raw is None ==> (r matches Err(e) && is_missing(e, name@)),
        raw is Some ==> match room_list_result(raw->0@) {
            Ok(rooms) => r matches Ok(v) && string_views(v@) == rooms,
            Err(bad) => r matches Err(e) && is_room_list_error(e, name@, bad),
        },
{
    match raw {
        None => Err(ConfigError::MissingVariable(String::from_str(name))),
        Some(text) => match parse_room_list(text.as_str()) {
            Ok(rooms) => Ok(rooms),
            Err(error) => Err(ConfigError::BadRoomList { variable: String::from_str(name), error }),
        },
    }
}

impl Config {
    /// Builds the settings from the variables. `MATRIX_USERNAME`,
    /// `MATRIX_PASSWORD`, `SPACE_CHILD_ROOMS` and `TRIGGER_ROOMS` are required
    /// and checked in that order; the room lists must parse; the debounce
    /// window must be a whole number of seconds. Every other variable has a
    /// default.
    pub fn from_vars(vars: ConfigVars) -> (r: Result<Config, ConfigError>)
        ensures
            vars.username is None ==> (r matches Err(e) && is_missing(e, "MATRIX_USERNAME"@)),
            (vars.username is Some && vars.password is None) ==> (r matches Err(e) && is_missing(
                e,
                "MATRIX_PASSWORD"@,
            )),
            (vars.username is Some && vars.password is Some && vars.target_rooms is None) ==> (
            r matches Err(e) && is_missing(e, "SPACE_CHILD_ROOMS"@)),
            (vars.username is Some && vars.password is Some && vars.target_rooms is Some
                && room_list_result(vars.target_rooms->0@) is Err) ==> (r matches Err(e)
                && is_room_list_error(
                e,
                "SPACE_CHILD_ROOMS"@,
                room_list_result(vars.target_rooms->0@)->Err_0,
            )),
            (vars.username is Some && vars.password is Some && vars.target_rooms is Some
                && room_list_result(vars.target_rooms->0@) is Ok && vars.trigger_rooms is None) ==> (
            r matches Err(e) && is_missing(e, "TRIGGER_ROOMS"@)),
            (vars.username is Some && vars.password is Some && vars.target_rooms is Some
                && room_list_result(vars.target_rooms->0@) is Ok && vars.trigger_rooms is Some
                && room_list_result(vars.trigger_rooms->0@) is Err) ==> (r matches Err(e)
                && is_room_list_error(
                e,
                "TRIGGER_ROOMS"@,
                room_list_result(vars.trigger_rooms->0@)->Err_0,
            )),
            (vars.username is Some && vars.password is Some && vars.target_rooms is Some
                && room_list_result(vars.target_rooms->0@) is Ok && vars.trigger_rooms is Some
                && room_list_result(vars.trigger_rooms->0@) is Ok && decimal_u64(debounce_text(vars))
                is None) ==> (r matches Err(ConfigError::InvalidDebounce { text, .. }) && text@ == debounce_text(
                vars,
            )),
            r matches Ok(cfg) ==> {
                &&& vars.username is Some && cfg.username@ == vars.username->0@
                &&& vars.password is Some && cfg.password@ == vars.password->0@
                &&& vars.target_rooms is Some && room_list_result(vars.target_rooms->0@) == Ok::<
                    Seq<Seq<char>>,
                    Option<Seq<char>>,
                >(string_views(cfg.target_rooms@))
                &&& vars.trigger_rooms is Some && room_list_result(vars.trigger_rooms->0@) == Ok::<
                    Seq<Seq<char>>,
                    Option<Seq<char>>,
                >(string_views(cfg.trigger_rooms@))
                &&& decimal_u64(debounce_text(vars)) == Some(cfg.debounce_seconds)
                &&& cfg.homeserver@ == value_or(vars.homeserver, default_homeserver())
                &&& cfg.recovery_key@ == value_or(vars.recovery_key, Seq::empty())
                &&& cfg.passphrase@ == value_or(vars.passphrase, Seq::empty())
                &&& cfg.session_file@ == value_or(vars.session_file, default_session_file())
                &&& cfg.key_export_file@ == value_or(vars.key_export_file, default_key_export_file())
                &&& cfg.crypto_store_path@ == value_or(vars.crypto_store_path, default_crypto_store_path())
                &&& cfg.diagnostic_key_file@ == value_or(
                    vars.diagnostic_key_file,
                    default_diagnostic_key_file(),
                )
                &&& cfg.welcome_trigger@ == value_or(vars.welcome_trigger, default_welcome_trigger())
            },
            r matches Ok(cfg) ==> {
                &&& vars.homeserver is Some ==> cfg.homeserver@ == vars.homeserver->0@
                &&& vars.homeserver is None ==> cfg.homeserver@ == "https://matrix.org"@
                &&& vars.recovery_key is Some ==> cfg.recovery_key@ == vars.recovery_key->0@
                &&& vars.recovery_key is None ==> cfg.recovery_key@.len() == 0
                &&& vars.passphrase is Some ==> cfg.passphrase@ == vars.passphrase->0@
                &&& vars.passphrase is None ==> cfg.passphrase@.len() == 0
                &&& vars.session_file is Some ==> cfg.session_file@ == vars.session_file->0@
                &&& vars.session_file is None ==> cfg.session_file@ == "./session.json"@
                &&& vars.key_export_file is Some ==> cfg.key_export_file@ == vars.key_export_file->0@
                &&& vars.key_export_file is None ==> cfg.key_export_file@ == "./element-keys-shareable.txt"@
                &&& vars.crypto_store_path is Some ==> cfg.crypto_store_path@ == vars.crypto_store_path->0@
                &&& vars.crypto_store_path is None ==> cfg.crypto_store_path@ == "./bot-store"@
                &&& vars.diagnostic_key_file is Some ==> cfg.diagnostic_key_file@
                    == vars.diagnostic_key_file->0@
                &&& vars.diagnostic_key_file is None ==> cfg.diagnostic_key_file@ == "./diagnostic-keys.txt"@
                &&& vars.welcome_trigger is Some ==> cfg.welcome_trigger@ == vars.welcome_trigger->0@
                &&& vars.welcome_trigger is None ==> cfg.welcome_trigger@ == "!welcome"@
                &&& vars.debounce_seconds is None ==> cfg.debounce_seconds == 30
            },
            (vars.username is Some && vars.password is Some && vars.target_rooms is Some
                && room_list_result(vars.target_rooms->0@) is Ok && vars.trigger_rooms is Some
                && room_list_result(vars.trigger_rooms->0@) is Ok && decimal_u64(debounce_text(vars))
                is Some) ==> r is Ok,
    {
        let homeserver = value_or_default(vars.homeserver, "https://matrix.org");
        let username = match vars.username {
            Some(u) => u,
            None => { return Err(ConfigError::MissingVariable(String::from_str("MATRIX_USERNAME"))) },
        };
        let password = match vars.password {
            Some(p) => p,
            None => { return Err(ConfigError::MissingVariable(String::from_str("MATRIX_PASSWORD"))) },
        };
        let recovery_key = match vars.recovery_key {
            Some(k) => k,
            None => String::new(),
        };
        let passphrase = match vars.passphrase {
            Some(p) => p,
            None => String::new(),
        };
        let target_rooms = match room_list_var("SPACE_CHILD_ROOMS", vars.target_rooms) {
            Ok(rooms) => rooms,
            Err(e) => { return Err(e) },
        };
        let trigger_rooms = match room_list_var("TRIGGER_ROOMS", vars.trigger_rooms) {
            Ok(rooms) => rooms,
            Err(e) => { return Err(e) },
        };
        let session_file = value_or_default(vars.session_file, "./session.json");
        let key_export_file = value_or_default(vars.key_export_file, "./element-keys-shareable.txt");
        let crypto_store_path = value_or_default(vars.crypto_store_path, "./bot-store");
        let diagnostic_key_file = value_or_default(vars.diagnostic_key_file, "./diagnostic-keys.txt");
        let welcome_trigger = value_or_default(vars.welcome_trigger, "!welcome");
        let debounce_text = value_or_default(vars.debounce_seconds, "30");
        proof {
            law_default_debounce_is_thirty_seconds();
        }
        let debounce_seconds = match parse_u64(debounce_text.as_str()) {
            Ok(n) => n,
            Err(reason) => { return Err(ConfigError::InvalidDebounce { text: debounce_text, reason }) },
        };
        Ok(Config {
            homeserver,
            username,
            password,
            recovery_key,
            passphrase,
            target_rooms,
            trigger_rooms,
            session_file,
            key_export_file,
            crypto_store_path,
            diagnostic_key_file,
            welcome_trigger,
            debounce_seconds,
        })
    }

    /// Whether to recover the cross-signing identity at startup: only when a
    /// recovery key is configured.
    pub fn wants_recovery(&self) -> (r: bool)
        ensures
            r == (self.recovery_key@.len() > 0),
    {
        !self.recovery_key.as_str().is_empty()
    }
}

} // verus!
