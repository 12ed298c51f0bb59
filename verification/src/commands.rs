use vstd::prelude::*;
use crate::settings::SettingsError;
use crate::viewer_session::{frontend_message, ViewerSessionError};

verus! {

/// The error a frontend command answers with: a fixed message.
#[derive(Debug, Clone, Copy, PartialEq, Eq)]
pub struct CommandError {
    pub message: &'static str,
}

/// Where the settings file lives.
#[derive(Debug, Clone)]
pub struct SettingsFilePath(String);

impl SettingsFilePath {
    pub fn new(path: String) -> (settings_path: Self)
        ensures
            settings_path.spec_path() == path@,
    {
        SettingsFilePath(path)
    }

    pub closed spec fn spec_path(&self) -> Seq<char> {
        self.0@
    }

    pub fn as_path(&self) -> (path: &str)
        ensures
            path@ == self.spec_path(),
    {
        self.0.as_str()
    }
}

/// The message a command answers a session error with.
pub fn command_error_for_session(error: &ViewerSessionError) -> (command_error: CommandError)
    ensures
        command_error.message@ == frontend_message(*error),
{
    CommandError { message: error.frontend_safe_message() }
}

/// The message a command answers a settings error with.
pub open spec fn settings_message(error: SettingsError) -> Seq<char> {
    match error {
        SettingsError::FileSystem(_) => "failed to save settings"@,
        SettingsError::Parse(_) => "failed to serialize settings"@,
    }
}

pub fn command_error_for_settings(error: &SettingsError) -> (command_error: CommandError)
    ensures
        command_error.message@ == settings_message(*error),
{
    let message: &'static str = match error {
        SettingsError::FileSystem(_) => "failed to save settings",
        SettingsError::Parse(_) => "failed to serialize settings",
    };
    CommandError { message }
}

} // verus!
