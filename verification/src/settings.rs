use vstd::prelude::*;
use crate::fs_facts::FileSystemError;
use crate::sequence_ordering::SequenceOrdering;

verus! {

/// The preferences that outlive a session: only the sequence ordering.
#[derive(Debug, Clone, Copy, PartialEq, Eq, Structural)]
pub struct UserSettings {
    sequence_ordering: SequenceOrdering,
}

/// Why settings could not be read or written.
#[derive(Debug, Clone, PartialEq, Eq)]
pub enum SettingsError {
    FileSystem(FileSystemError),
    /// The settings text did not parse, or the settings did not serialise;
    /// the parser's description of the problem.
    Parse(String),
}

impl Default for UserSettings {
    fn default() -> (settings: Self)
        ensures
            settings.spec_sequence_ordering() == SequenceOrdering::NewestModifiedFirst,
    {
        UserSettings { sequence_ordering: SequenceOrdering::NewestModifiedFirst }
    }
}

impl UserSettings {
    pub closed spec fn spec_sequence_ordering(self) -> SequenceOrdering {
        self.sequence_ordering
    }

    pub fn new(sequence_ordering: SequenceOrdering) -> (settings: Self)
        ensures
            settings.spec_sequence_ordering() == sequence_ordering,
    {
        UserSettings { sequence_ordering }
    }

    pub fn sequence_ordering(&self) -> (ordering: SequenceOrdering)
        ensures
            ordering == self.spec_sequence_ordering(),
    {
        self.sequence_ordering
    }

    /// The settings that loading yields from what reading the settings file
    /// gave: a missing file means the defaults, any other read failure is an
    /// error, and read text is what it parsed to.
    pub fn from_stored(stored: Result<Result<UserSettings, SettingsError>, FileSystemError>) -> (settings:
        Result<UserSettings, SettingsError>)
        ensures
            match stored {
                Err(FileSystemError::NotFound) => settings matches Ok(s) && s.spec_sequence_ordering()
                    == SequenceOrdering::NewestModifiedFirst,
                Err(e) => settings == Err::<UserSettings, _>(SettingsError::FileSystem(e)),
                Ok(parsed) => settings == parsed,
            },
    {
        match stored {
            Err(FileSystemError::NotFound) => Ok(UserSettings::default()),
            Err(e) => Err(SettingsError::FileSystem(e)),
            Ok(parsed) => parsed,
        }
    }
}

} // verus!
