use vstd::prelude::*;

use crate::text::{decimal, push_text, text_with_decimal};

verus! {

/// The version of the settings file that this application writes and reads.
pub const SETTINGS_VERSION: u8 = 1;

/// The largest settings file that is read.
pub const SETTINGS_MAX_BYTES: u64 = 65536;

/// The spacing between program starts unless the user chose another one (ms).
pub const DEFAULT_STARTUP_DELAY_MS: u64 = 750;

/// What happens to the program logs when the application starts.
#[derive(PartialEq, Eq, Structural, Clone, Copy, Debug)]
pub enum LogRetention {
    Preserve,
    ClearOnStart,
}

/// How much the application logs.
#[derive(PartialEq, Eq, Structural, Clone, Copy, Debug)]
pub enum AppLogLevel {
    Error,
    Warn,
    Info,
    Debug,
    Trace,
}

impl Default for AppLogLevel {
    fn default() -> (level: Self)
        ensures
            level == AppLogLevel::Warn,
    {
        AppLogLevel::Warn
    }
}

impl AppLogLevel {
    /// The level as a log filter directive.
    pub fn as_filter(self) -> (filter: &'static str)
        ensures
            filter@ == match self {
                AppLogLevel::Error => "error"@,
                AppLogLevel::Warn => "warn"@,
                AppLogLevel::Info => "info"@,
                AppLogLevel::Debug => "debug"@,
                AppLogLevel::Trace => "trace"@,
            },
    {
        match self {
            AppLogLevel::Error => "error",
            AppLogLevel::Warn => "warn",
            AppLogLevel::Info => "info",
            AppLogLevel::Debug => "debug",
            AppLogLevel::Trace => "trace",
        }
    }
}

/// The language of the user interface.
#[derive(PartialEq, Eq, Structural, Clone, Copy, Debug)]
pub enum AppLanguage {
    English,
    Chinese,
}

/// The application's own settings.
#[derive(PartialEq, Eq, Structural, Clone, Copy, Debug)]
pub struct AppSettings {
    pub version: u8,
    pub log_retention: LogRetention,
    pub log_level: AppLogLevel,
    pub program_startup_delay_ms: u64,
    pub language: Option<AppLanguage>,
}

impl Default for AppSettings {
    fn default() -> (settings: Self)
        ensures
            settings == (AppSettings {
                version: SETTINGS_VERSION,
                log_retention: LogRetention::Preserve,
                log_level: AppLogLevel::Warn,
                program_startup_delay_ms: DEFAULT_STARTUP_DELAY_MS,
                language: None,
            }),
    {
        AppSettings {
            version: SETTINGS_VERSION,
            log_retention: LogRetention::Preserve,
            log_level: AppLogLevel::Warn,
            program_startup_delay_ms: DEFAULT_STARTUP_DELAY_MS,
            language: None,
        }
    }
}

/// Why settings are refused.
#[derive(PartialEq, Eq, Structural, Clone, Copy, Debug)]
pub enum SettingsError {
    UnsupportedVersion,
    UnsupportedStartupDelay,
}

impl SettingsError {
    /// The message shown for the error.
    pub fn message(&self) -> (text: &'static str)
        ensures
            text@ == match *self {
                SettingsError::UnsupportedVersion => "Unsupported application settings version"@,
                SettingsError::UnsupportedStartupDelay => "Program startup spacing must be 0, 750, or 2000 milliseconds"@,
            },
    {
        match self {
            SettingsError::UnsupportedVersion => "Unsupported application settings version",
            SettingsError::UnsupportedStartupDelay => "Program startup spacing must be 0, 750, or 2000 milliseconds",
        }
    }
}

/// Whether a startup spacing is one the user can choose.
pub open spec fn startup_delay_offered(delay_ms: u64) -> bool {
    delay_ms == 0 || delay_ms == DEFAULT_STARTUP_DELAY_MS || delay_ms == 2000
}

impl AppSettings {
    /// Checks settings before they are used or saved: they must have this version, and one of
    /// the offered startup spacings.
    pub fn validate(&self) -> (valid: Result<(), SettingsError>)
        ensures
            self.version != SETTINGS_VERSION ==> valid == Err::<(), SettingsError>(SettingsError::UnsupportedVersion),
            self.version == SETTINGS_VERSION && !startup_delay_offered(self.program_startup_delay_ms) ==> valid
                == Err::<(), SettingsError>(SettingsError::UnsupportedStartupDelay),
            self.version == SETTINGS_VERSION && startup_delay_offered(self.program_startup_delay_ms) ==> valid is Ok,
    {
        if self.version != SETTINGS_VERSION {
            return Err(SettingsError::UnsupportedVersion);
        }
        let delay = self.program_startup_delay_ms;
        if !(delay == 0 || delay == DEFAULT_STARTUP_DELAY_MS || delay == 2000) {
            return Err(SettingsError::UnsupportedStartupDelay);
        }
        Ok(())
    }

    /// Whether the logs are cleared when the application starts.
    pub fn clears_logs_on_start(&self) -> (clears: bool)
        ensures
            clears == (self.log_retention == LogRetention::ClearOnStart),
    {
        self.log_retention == LogRetention::ClearOnStart
    }
}

/// Whether a settings file of this size is read; a larger one is reported and left in place.
pub fn settings_size_allowed(byte_len: u64) -> (allowed: bool)
    ensures
        allowed == (byte_len <= SETTINGS_MAX_BYTES),
{
    byte_len <= SETTINGS_MAX_BYTES
}

/// The highest number under which an invalid settings file is set aside.
pub const MAX_QUARANTINE_INDEX: u64 = 1000;

/// The name under which the `index`-th invalid settings file is set aside:
/// `settings.invalid.json`, then `settings.invalid.1.json`, `settings.invalid.2.json`, ...
pub open spec fn quarantine_name(index: u64) -> Seq<char> {
    if index == 0 {
        "settings.invalid.json"@
    } else {
        "settings.invalid."@ + decimal(index as nat) + ".json"@
    }
}

/// The name under which the `index`-th invalid settings file is set aside.
pub fn quarantine_file_name(index: u64) -> (name: String)
    ensures
        name@ == quarantine_name(index),
{
    if index == 0 {
        "settings.invalid.json".to_string()
    } else {
        let mut name = text_with_decimal("settings.invalid.", index);
        push_text(&mut name, ".json");
        name
    }
}

} // verus!
