use vstd::prelude::*;

use crate::connection::MqttConfig;
use crate::models::opt_string_view;
use crate::parse::{parse_bool, parse_i32, parse_unsigned, signed_text, unsigned_text};

verus! {

/// Smallest accepted base retry interval, in milliseconds.
pub const MIN_RETRY_INTERVAL_MS: u64 = 100;
/// Largest accepted base retry interval, in milliseconds.
pub const MAX_RETRY_INTERVAL_MS: u64 = 1_000_000;

/// Settings of the whole service.
#[derive(Debug, Clone)]
pub struct Config {
    pub mqtt_host: String,
    pub mqtt_port: u16,
    pub mqtt_username: String,
    pub mqtt_password: String,
    pub mqtt_ssl_enabled: bool,
    pub mqtt_ssl_cert_path: Option<String>,
    pub mqtt_max_retries: i32,
    pub mqtt_retry_interval_ms: u64,
    pub log_topic: String,
    pub status_topic: String,
    pub command_topic: String,
    pub progress_topic: String,
    pub analytics_topic: String,
    pub rest_api_host: String,
    pub rest_api_port: u16,
    pub max_api_requests_per_minute: u32,
    pub rest_api_auth_enabled: bool,
    pub rest_api_username: Option<String>,
    pub rest_api_password: Option<String>,
    pub jwt_auth_enabled: bool,
    pub jwt_secret_key: Option<String>,
    pub jwt_expiration_minutes: u32,
    pub cors_enabled: bool,
    pub cors_allowed_origins: Vec<String>,
}

/// Why a configuration was refused.
#[derive(Debug, Clone, PartialEq, Eq)]
pub enum ConfigError {
    /// A required setting is absent; holds the setting's name.
    MissingOrInvalid(String),
    /// A setting is present but malformed or out of range; holds a description.
    ParsingError(String),
}

/// The settings as read from the environment, one entry per variable; `None`
/// where the variable is unset.
#[derive(Debug, Clone, Default)]
pub struct RawSettings {
    pub mqtt_root_topic: Option<String>,
    pub mqtt_host: Option<String>,
    pub mqtt_port: Option<String>,
    pub mqtt_username: Option<String>,
    pub mqtt_password: Option<String>,
    pub mqtt_ssl_enabled: Option<String>,
    pub mqtt_ssl_cert_path: Option<String>,
    pub mqtt_max_retries: Option<String>,
    pub mqtt_retry_interval_ms: Option<String>,
    pub rest_api_host: Option<String>,
    pub rest_api_port: Option<String>,
    pub max_api_requests_per_minute: Option<String>,
    pub rest_api_auth_enabled: Option<String>,
    pub rest_api_username: Option<String>,
    pub rest_api_password: Option<String>,
    pub jwt_auth_enabled: Option<String>,
    pub jwt_secret_key: Option<String>,
    pub jwt_expiration_minutes: Option<String>,
    pub cors_enabled: Option<String>,
    pub cors_allowed_origins: Option<String>,
}

/// The text of a setting, or `default` where it is unset.
pub open spec fn text_or(o: Option<String>, default: Seq<char>) -> Seq<char> {
    match o {
        Some(s) => s@,
        None => default,
    }
}

/// Unsigned decimal text with a value of at most `max`.
pub open spec fn unsigned_at_most(t: Seq<char>, max: nat) -> Option<nat> {
    match unsigned_text(t) {
        Some(v) => if v <= max {
            Some(v)
        } else {
            None
        },
        None => None,
    }
}

/// Value of the text `true` or `false`.
pub open spec fn bool_text(t: Seq<char>) -> Option<bool> {
    if t == "true"@ {
        Some(true)
    } else if t == "false"@ {
        Some(false)
    } else {
        None
    }
}

/// Value of signed decimal text that fits an `i32`.
pub open spec fn i32_text(t: Seq<char>) -> Option<int> {
    match signed_text(t) {
        Some(v) => if i32::MIN <= v <= i32::MAX {
            Some(v)
        } else {
            None
        },
        None => None,
    }
}

/// Pieces of `s[start..]` split at each `,`, the first piece starting at
/// `start` and the scan standing at `i`.
pub open spec fn pieces_from(s: Seq<char>, start: int, i: int) -> Seq<Seq<char>>
    decreases s.len() - i,
{
    if i >= s.len() {
        seq![s.subrange(start, s.len() as int)]
    } else if s[i] == ',' {
        seq![s.subrange(start, i)] + pieces_from(s, i + 1, i + 1)
    } else {
        pieces_from(s, start, i + 1)
    }
}

/// `s` split at each `,`; text with no comma is one piece.
pub open spec fn comma_pieces(s: Seq<char>) -> Seq<Seq<char>> {
    pieces_from(s, 0, 0)
}

/// `c` has the Unicode White_Space property (25 code points).
pub open spec fn is_white_space(c: char) -> bool {
    ('\u{9}' <= c && c <= '\u{d}') || c == ' ' || c == '\u{85}' || c == '\u{a0}' || c == '\u{1680}'
        || ('\u{2000}' <= c && c <= '\u{200a}') || c == '\u{2028}' || c == '\u{2029}'
        || c == '\u{202f}' || c == '\u{205f}' || c == '\u{3000}'
}

/// `s` without its leading white space.
pub open spec fn trim_leading(s: Seq<char>) -> Seq<char>
    decreases s.len(),
{
    if s.len() > 0 && is_white_space(s[0]) {
        trim_leading(s.drop_first())
    } else {
        s
    }
}

/// `s` without its trailing white space.
pub open spec fn trim_trailing(s: Seq<char>) -> Seq<char>
    decreases s.len(),
{
    if s.len() > 0 && is_white_space(s.last()) {
        trim_trailing(s.drop_last())
    } else {
        s
    }
}

/// `s` without leading and trailing white space.
pub open spec fn trimmed(s: Seq<char>) -> Seq<char> {
    trim_trailing(trim_leading(s))
}

/// Relies on `str::trim`, documented to remove leading and trailing
/// characters with the Unicode White_Space property.
#[verifier::external_body]
fn trim_text(s: &str) -> (r: String)
    ensures
        r@ == trimmed(s@),
{
    s.trim().to_string()
}

/// `(is a missing setting, text)` of a configuration error.
pub open spec fn error_view(e: ConfigError) -> (bool, Seq<char>) {
    match e {
        ConfigError::MissingOrInvalid(s) => (true, s@),
        ConfigError::ParsingError(s) => (false, s@),
    }
}

/// The first problem of the settings `s`, in the order the settings are
/// read, as `(is a missing setting, text)`; `None` where they are usable.
pub open spec fn config_fault(s: RawSettings) -> Option<(bool, Seq<char>)> {
    if s.mqtt_host is None {
        Some((true, "MQTT_HOST"@))
    } else if s.mqtt_port is None {
        Some((true, "MQTT_PORT"@))
    } else if unsigned_at_most(s.mqtt_port->Some_0@, u16::MAX as nat) is None {
        Some((false, "MQTT_PORT must be a valid number"@))
    } else if bool_text(text_or(s.mqtt_ssl_enabled, "false"@)) is None {
        Some((false, "MQTT_SSL_ENABLED must be a boolean"@))
    } else if i32_text(text_or(s.mqtt_max_retries, "-1"@)) is None {
        Some((false, "MQTT_MAX_RETRIES must be an integer"@))
    } else if unsigned_at_most(text_or(s.mqtt_retry_interval_ms, "5000"@), u64::MAX as nat) is None {
        Some((false, "MQTT_RETRY_INTERVAL_MS must be a valid number"@))
    } else if unsigned_at_most(text_or(s.rest_api_port, "8080"@), u16::MAX as nat) is None {
        Some((false, "REST_API_PORT must be a valid number"@))
    } else if unsigned_at_most(text_or(s.max_api_requests_per_minute, "100"@), u32::MAX as nat)
        is None {
        Some((false, "MAX_API_REQUESTS_PER_MINUTE must be a valid number"@))
    } else if bool_text(text_or(s.rest_api_auth_enabled, "true"@)) is None {
        Some((false, "REST_API_AUTH_ENABLED must be a boolean"@))
    } else if bool_text(text_or(s.jwt_auth_enabled, "true"@)) is None {
        Some((false, "JWT_AUTH_ENABLED must be a boolean"@))
    } else if unsigned_at_most(text_or(s.jwt_expiration_minutes, "60"@), u32::MAX as nat) is None {
        Some((false, "JWT_EXPIRATION_MINUTES must be a valid number"@))
    } else if bool_text(text_or(s.cors_enabled, "true"@)) is None {
        Some((false, "CORS_ENABLED must be a boolean"@))
    } else if !retry_interval_in_range(
        unsigned_at_most(text_or(s.mqtt_retry_interval_ms, "5000"@), u64::MAX as nat)->Some_0 as u64,
    ) {
        Some((false, "MQTT_RETRY_INTERVAL_MS must be between 100 and 1000000 ms"@))
    } else {
        None
    }
}

/// `c` holds what the usable settings `s` say, defaults filled in.
pub open spec fn config_from(c: Config, s: RawSettings) -> bool {
    let root = text_or(s.mqtt_root_topic, "image_uploader"@);
    &&& c.mqtt_host@ == s.mqtt_host->Some_0@
    &&& c.mqtt_port as nat == unsigned_at_most(s.mqtt_port->Some_0@, u16::MAX as nat)->Some_0
    &&& c.mqtt_username@ == text_or(s.mqtt_username, ""@)
    &&& c.mqtt_password@ == text_or(s.mqtt_password, ""@)
    &&& c.mqtt_ssl_enabled == bool_text(text_or(s.mqtt_ssl_enabled, "false"@))->Some_0
    &&& opt_string_view(c.mqtt_ssl_cert_path) == opt_string_view(s.mqtt_ssl_cert_path)
    &&& c.mqtt_max_retries as int == i32_text(text_or(s.mqtt_max_retries, "-1"@))->Some_0
    &&& c.mqtt_retry_interval_ms as nat == unsigned_at_most(
        text_or(s.mqtt_retry_interval_ms, "5000"@),
        u64::MAX as nat,
    )->Some_0
    &&& c.log_topic@ == root + "/logs"@
    &&& c.status_topic@ == root + "/status"@
    &&& c.command_topic@ == root + "/commands"@
    &&& c.progress_topic@ == root + "/progress"@
    &&& c.analytics_topic@ == root + "/analytics"@
    &&& c.rest_api_host@ == text_or(s.rest_api_host, "0.0.0.0"@)
    &&& c.rest_api_port as nat == unsigned_at_most(text_or(s.rest_api_port, "8080"@), u16::MAX as nat)->Some_0
    &&& c.max_api_requests_per_minute as nat == unsigned_at_most(
        text_or(s.max_api_requests_per_minute, "100"@),
        u32::MAX as nat,
    )->Some_0
    &&& c.rest_api_auth_enabled == bool_text(text_or(s.rest_api_auth_enabled, "true"@))->Some_0
    &&& opt_string_view(c.rest_api_username) == opt_string_view(s.rest_api_username)
    &&& opt_string_view(c.rest_api_password) == opt_string_view(s.rest_api_password)
    &&& c.jwt_auth_enabled == bool_text(text_or(s.jwt_auth_enabled, "true"@))->Some_0
    &&& opt_string_view(c.jwt_secret_key) == opt_string_view(s.jwt_secret_key)
    &&& c.jwt_expiration_minutes as nat == unsigned_at_most(
        text_or(s.jwt_expiration_minutes, "60"@),
        u32::MAX as nat,
    )->Some_0
    &&& c.cors_enabled == bool_text(text_or(s.cors_enabled, "true"@))->Some_0
    &&& c.cors_allowed_origins@.map_values(|o: String| o@) == comma_pieces(
        text_or(s.cors_allowed_origins, "http://localhost"@),
    ).map_values(|p: Seq<char>| trimmed(p))
}

fn setting_or(o: &Option<String>, default: &str) -> (r: String)
    ensures
        r@ == text_or(*o, default@),
{
    match o {
        Some(v) => v.clone(),
        None => default.to_owned(),
    }
}

fn clone_opt(o: &Option<String>) -> (r: Option<String>)
    ensures
        opt_string_view(r) == opt_string_view(*o),
{
    match o {
        Some(v) => Some(v.clone()),
        None => None,
    }
}

fn message(text: &str) -> (r: String)
    ensures
        r@ == text@,
{
    text.to_owned()
}

/// `s` split at each `,`, each piece trimmed.
fn split_origins(s: &str) -> (r: Vec<String>)
    ensures
        r@.map_values(|o: String| o@) == comma_pieces(s@).map_values(|p: Seq<char>| trimmed(p)),
{
    let n = s.unicode_len();
    let mut out: Vec<String> = Vec::new();
    let mut start: usize = 0;
    let mut i: usize = 0;
    while i < n
        invariant
            n == s@.len(),
            start <= i <= n,
            out@.map_values(|o: String| o@) + pieces_from(s@, start as int, i as int).map_values(
                |p: Seq<char>| trimmed(p),
            ) == comma_pieces(s@).map_values(|p: Seq<char>| trimmed(p)),
        decreases n - i,
    {
        let c = s.get_char(i);
        if c == ',' {
            let piece = trim_text(s.substring_char(start, i));
            let ghost before = out@.map_values(|o: String| o@);
            out.push(piece);
            proof {
                let rest = pieces_from(s@, i as int + 1, i as int + 1);
                assert(out@.map_values(|o: String| o@) =~= before.push(trimmed(s@.subrange(start as int, i as int))));
                assert((seq![s@.subrange(start as int, i as int)] + rest).map_values(|p: Seq<char>| trimmed(p))
                    =~= seq![trimmed(s@.subrange(start as int, i as int))] + rest.map_values(|p: Seq<char>| trimmed(p)));
                assert(before + (seq![s@.subrange(start as int, i as int)] + rest).map_values(|p: Seq<char>| trimmed(p))
                    =~= before.push(trimmed(s@.subrange(start as int, i as int))) + rest.map_values(|p: Seq<char>| trimmed(p)));
            }
            start = i + 1;
        }
        i = i + 1;
    }
    let piece = trim_text(s.substring_char(start, n));
    let ghost before = out@.map_values(|o: String| o@);
    out.push(piece);
    assert(out@.map_values(|o: String| o@) =~= before + pieces_from(s@, start as int, i as int).map_values(
        |p: Seq<char>| trimmed(p),
    ));
    out
}

/// The base retry interval lies in the accepted range.
pub open spec fn retry_interval_in_range(ms: u64) -> bool {
    MIN_RETRY_INTERVAL_MS <= ms <= MAX_RETRY_INTERVAL_MS
}

impl Config {
    /// Settings of the broker connection described by this configuration.
    pub fn mqtt_config(&self) -> (r: MqttConfig)
        ensures
            r.mqtt_host == self.mqtt_host,
            r.mqtt_port == self.mqtt_port,
            r.mqtt_username == self.mqtt_username,
            r.mqtt_password == self.mqtt_password,
            r.mqtt_ssl_enabled == self.mqtt_ssl_enabled,
            opt_string_view(r.mqtt_ssl_cert_path) == opt_string_view(self.mqtt_ssl_cert_path),
            r.log_topic == self.log_topic,
            r.status_topic == self.status_topic,
            r.command_topic == self.command_topic,
            r.progress_topic == self.progress_topic,
            r.analytics_topic == self.analytics_topic,
            r.mqtt_max_retries == self.mqtt_max_retries,
            r.mqtt_retry_interval_ms == self.mqtt_retry_interval_ms,
    {
        MqttConfig {
            mqtt_host: self.mqtt_host.clone(),
            mqtt_port: self.mqtt_port,
            mqtt_username: self.mqtt_username.clone(),
            mqtt_password: self.mqtt_password.clone(),
            mqtt_ssl_enabled: self.mqtt_ssl_enabled,
            mqtt_ssl_cert_path: clone_opt(&self.mqtt_ssl_cert_path),
            log_topic: self.log_topic.clone(),
            status_topic: self.status_topic.clone(),
            command_topic: self.command_topic.clone(),
            progress_topic: self.progress_topic.clone(),
            analytics_topic: self.analytics_topic.clone(),
            mqtt_max_retries: self.mqtt_max_retries,
            mqtt_retry_interval_ms: self.mqtt_retry_interval_ms,
        }
    }

    /// Builds the configuration from the settings `raw`, filling in defaults:
    /// topics under the root `image_uploader`, no credentials, TLS off,
    /// unlimited retries (`-1`), a 5000 ms retry interval, the REST API on
    /// `0.0.0.0:8080` with 100 requests a minute, authentication, JWT with 60
    /// minutes and CORS on, and `http://localhost` as the one allowed origin.
    /// The first setting that is missing or malformed, in that order, or a
    /// retry interval out of range, is reported.
    pub fn from_settings(raw: &RawSettings) -> (r: Result<Config, ConfigError>)
        ensures
            r is Err <==> config_fault(*raw) is Some,
            r is Err ==> error_view(r->Err_0) == config_fault(*raw)->Some_0,
            r is Ok ==> config_from(r->Ok_0, *raw),
    {
        let root = setting_or(&raw.mqtt_root_topic, "image_uploader");
        let mqtt_host = match &raw.mqtt_host {
            Some(h) => h.clone(),
            None => return Err(ConfigError::MissingOrInvalid(message("MQTT_HOST"))),
        };
        let mqtt_port = match &raw.mqtt_port {
            Some(p) => match parse_unsigned(p.as_str(), 65535) {
                Some(v) => v as u16,
                None => return Err(ConfigError::ParsingError(message("MQTT_PORT must be a valid number"))),
            },
            None => return Err(ConfigError::MissingOrInvalid(message("MQTT_PORT"))),
        };
        let mqtt_username = setting_or(&raw.mqtt_username, "");
        let mqtt_password = setting_or(&raw.mqtt_password, "");
        let mqtt_ssl_enabled = match parse_bool(setting_or(&raw.mqtt_ssl_enabled, "false").as_str()) {
            Some(b) => b,
            None => return Err(ConfigError::ParsingError(message("MQTT_SSL_ENABLED must be a boolean"))),
        };
        let mqtt_ssl_cert_path = clone_opt(&raw.mqtt_ssl_cert_path);
        let mqtt_max_retries = match parse_i32(setting_or(&raw.mqtt_max_retries, "-1").as_str()) {
            Some(v) => v,
            None => return Err(ConfigError::ParsingError(message("MQTT_MAX_RETRIES must be an integer"))),
        };
        let mqtt_retry_interval_ms = match parse_unsigned(
            setting_or(&raw.mqtt_retry_interval_ms, "5000").as_str(),
            u64::MAX,
        ) {
            Some(v) => v,
            None => return Err(
                ConfigError::ParsingError(message("MQTT_RETRY_INTERVAL_MS must be a valid number")),
            ),
        };
        let rest_api_host = setting_or(&raw.rest_api_host, "0.0.0.0");
        let rest_api_port = match parse_unsigned(setting_or(&raw.rest_api_port, "8080").as_str(), 65535) {
            Some(v) => v as u16,
            None => return Err(ConfigError::ParsingError(message("REST_API_PORT must be a valid number"))),
        };
        let max_api_requests_per_minute = match parse_unsigned(
            setting_or(&raw.max_api_requests_per_minute, "100").as_str(),
            4294967295,
        ) {
            Some(v) => v as u32,
            None => return Err(
                ConfigError::ParsingError(message("MAX_API_REQUESTS_PER_MINUTE must be a valid number")),
            ),
        };
        let rest_api_auth_enabled = match parse_bool(setting_or(&raw.rest_api_auth_enabled, "true").as_str()) {
            Some(b) => b,
            None => return Err(ConfigError::ParsingError(message("REST_API_AUTH_ENABLED must be a boolean"))),
        };
        let rest_api_username = clone_opt(&raw.rest_api_username);
        let rest_api_password = clone_opt(&raw.rest_api_password);
        let jwt_auth_enabled = match parse_bool(setting_or(&raw.jwt_auth_enabled, "true").as_str()) {
            Some(b) => b,
            None => return Err(ConfigError::ParsingError(message("JWT_AUTH_ENABLED must be a boolean"))),
        };
        let jwt_secret_key = clone_opt(&raw.jwt_secret_key);
        let jwt_expiration_minutes = match parse_unsigned(
            setting_or(&raw.jwt_expiration_minutes, "60").as_str(),
            4294967295,
        ) {
            Some(v) => v as u32,
            None => return Err(
                ConfigError::ParsingError(message("JWT_EXPIRATION_MINUTES must be a valid number")),
            ),
        };
        let cors_enabled = match parse_bool(setting_or(&raw.cors_enabled, "true").as_str()) {
            Some(b) => b,
            None => return Err(ConfigError::ParsingError(message("CORS_ENABLED must be a boolean"))),
        };
        let cors_allowed_origins = split_origins(
            setting_or(&raw.cors_allowed_origins, "http://localhost").as_str(),
        );
        let config = Config {
            mqtt_host,
            mqtt_port,
            mqtt_username,
            mqtt_password,
            mqtt_ssl_enabled,
            mqtt_ssl_cert_path,
            mqtt_max_retries,
            mqtt_retry_interval_ms,
            log_topic: root.clone().concat("/logs"),
            status_topic: root.clone().concat("/status"),
            command_topic: root.clone().concat("/commands"),
            progress_topic: root.clone().concat("/progress"),
            analytics_topic: root.concat("/analytics"),
            rest_api_host,
            rest_api_port,
            max_api_requests_per_minute,
            rest_api_auth_enabled,
            rest_api_username,
            rest_api_password,
            jwt_auth_enabled,
            jwt_secret_key,
            jwt_expiration_minutes,
            cors_enabled,
            cors_allowed_origins,
        };
        match config.validate_timeouts() {
            Ok(()) => Ok(config),
            Err(e) => Err(e),
        }
    }

    /// Checks that the base retry interval lies in the accepted range.
    pub fn validate_timeouts(&self) -> (r: Result<(), ConfigError>)
        ensures
            r is Ok <==> retry_interval_in_range(self.mqtt_retry_interval_ms),
            r is Err ==> error_view(r->Err_0) == (
                false,
                "MQTT_RETRY_INTERVAL_MS must be between 100 and 1000000 ms"@,
            ),
    {
        if self.mqtt_retry_interval_ms < MIN_RETRY_INTERVAL_MS
            || self.mqtt_retry_interval_ms > MAX_RETRY_INTERVAL_MS {
            return Err(
                ConfigError::ParsingError(
                    message("MQTT_RETRY_INTERVAL_MS must be between 100 and 1000000 ms"),
                ),
            );
        }
        Ok(())
    }
}

} // verus!
