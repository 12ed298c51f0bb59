use manzar::commands::{command_error_for_settings, SettingsFilePath};
use manzar::fs_facts::FileSystemError;
use manzar::sequence_ordering::SequenceOrdering;
use manzar::settings::{SettingsError, UserSettings};

#[test]
fn missing_settings_file_uses_default_sequence_ordering() {
    let settings = UserSettings::from_stored(Err(FileSystemError::NotFound)).expect("user settings");

    assert_eq!(settings.sequence_ordering(), SequenceOrdering::NewestModifiedFirst);
}

#[test]
fn sequence_ordering_is_saved_and_loaded() {
    let saved = UserSettings::new(SequenceOrdering::NaturalName);
    let loaded = UserSettings::from_stored(Ok(Ok(saved))).expect("load settings");

    assert_eq!(loaded.sequence_ordering(), SequenceOrdering::NaturalName);
}

#[test]
fn unreadable_and_unparsable_settings_are_errors() {
    assert_eq!(
        UserSettings::from_stored(Err(FileSystemError::Other)),
        Err(SettingsError::FileSystem(FileSystemError::Other))
    );
    let parse_error = SettingsError::Parse("expected value at line 1 column 1".to_string());
    assert_eq!(UserSettings::from_stored(Ok(Err(parse_error.clone()))), Err(parse_error));
}

#[test]
fn default_settings_order_newest_first() {
    assert_eq!(UserSettings::default().sequence_ordering(), SequenceOrdering::NewestModifiedFirst);
    assert_eq!(SequenceOrdering::default(), SequenceOrdering::NewestModifiedFirst);
    assert_eq!(
        UserSettings::new(SequenceOrdering::SizeSmallestFirst).sequence_ordering(),
        SequenceOrdering::SizeSmallestFirst
    );
}

#[test]
fn settings_errors_reach_the_frontend_as_fixed_messages() {
    let file_error = command_error_for_settings(&SettingsError::FileSystem(FileSystemError::Other));
    let parse_error = command_error_for_settings(&SettingsError::Parse("bad json".to_string()));

    assert_eq!(file_error.message, "failed to save settings");
    assert_eq!(parse_error.message, "failed to serialize settings");
    assert_eq!(SettingsFilePath::new("/config/settings.json".to_string()).as_path(), "/config/settings.json");
}
