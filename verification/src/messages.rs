//! The texts of the status line: what the engine tells the analyst after an
//! action.

use crate::datatype::DataType;
use crate::keys::ToggleTarget;
use crate::locks::LockOutcome;
use crate::text::{decimal, push_decimal};
use vstd::prelude::*;
use vstd::string::*;

verus! {

/// The text that reports a mode as switched on or off.
pub open spec fn toggle_text(target: ToggleTarget, on: bool) -> Seq<char> {
    match target {
        ToggleTarget::Frequency => if on {
            "Frequency mode ON"@
        } else {
            "Frequency mode OFF"@
        },
        ToggleTarget::Wrap => if on {
            "Wrap ON"@
        } else {
            "Wrap OFF"@
        },
        ToggleTarget::ShowLocks => if on {
            "Locks ON"@
        } else {
            "Locks OFF"@
        },
        ToggleTarget::ShowGutter => if on {
            "Gutter ON"@
        } else {
            "Gutter OFF"@
        },
    }
}

/// The text that reports the selected field type.
pub open spec fn type_text(data_type: DataType) -> Seq<char> {
    "Type: "@ + data_type.name_text()
}

/// The text that reports what an attempt to lock `count` fields of
/// `data_type` came to.
pub open spec fn lock_text(outcome: LockOutcome, data_type: DataType, count: nat) -> Seq<char> {
    match outcome {
        LockOutcome::Overlap => "Cannot lock: overlaps with existing field"@,
        LockOutcome::TooShort { needed, available } => "Cannot lock: "@ + decimal(needed as nat)
            + " bytes needed, only "@ + decimal(available as nat) + " available"@,
        LockOutcome::Locked(field) => if count > 1 {
            "Locked "@ + decimal(count) + "x"@ + data_type.name_text() + " ("@ + decimal(
                field.byte_length as nat,
            ) + " bytes) at byte "@ + decimal(field.byte_offset as nat)
        } else {
            "Locked "@ + data_type.name_text() + " at byte "@ + decimal(field.byte_offset as nat)
        },
    }
}

/// The text that reports an unlocked field.
pub open spec fn unlocked_text() -> Seq<char> {
    "Unlocked field"@
}

/// The text that reports that no locked field holds the cursor's byte, so
/// that nothing was unlocked.
pub open spec fn nothing_unlocked_text() -> Seq<char> {
    "Nothing to unlock at cursor"@
}

/// The text that reports what an unlock came to.
pub open spec fn unlock_text(removed: bool) -> Seq<char> {
    if removed {
        unlocked_text()
    } else {
        nothing_unlocked_text()
    }
}

/// The text that reports a jump to the first record.
pub open spec fn first_record_text() -> Seq<char> {
    "Jumped to first record"@
}

/// The text that reports a jump to the last record.
pub open spec fn last_record_text() -> Seq<char> {
    "Jumped to last record"@
}

/// The text that reports that all locked fields were removed.
pub open spec fn cleared_text() -> Seq<char> {
    "Cleared all locked fields"@
}

/// The text for a command-line verb that the engine does not know.
pub open spec fn unknown_command_text(verb: Seq<char>) -> Seq<char> {
    "Unknown command: "@ + verb
}

/// The text for a write command that names no preset while none is loaded.
pub open spec fn write_usage_text(force: bool) -> Seq<char> {
    if force {
        "No preset loaded. Usage: :w! <preset_name>"@
    } else {
        "No preset loaded. Usage: :w <preset_name>"@
    }
}

/// The text for a preset command that names no preset while none is

/// loaded.
pub open spec fn preset_usage_text() -> Seq<char> {
    "No preset loaded. Usage: :p <preset_name>"@
}

/// The text for an open command without a file name.
pub open spec fn open_usage_text() -> Seq<char> {
    "Usage: :e <filename>"@
}

/// The text that refuses to write over an existing preset.
pub open spec fn exists_text(name: Seq<char>) -> Seq<char> {
    "'"@ + name + "' exists. Use :w! "@ + name + " to overwrite"@
}

/// The text that reports a saved preset.
pub open spec fn saved_text(name: Seq<char>) -> Seq<char> {
    "Saved to '"@ + name + "'"@
}

/// The text that reports a loaded preset and the number of its fields.
pub open spec fn loaded_text(name: Seq<char>, count: nat) -> Seq<char> {
    "Loaded preset '"@ + name + "' ("@ + decimal(count) + " fields)"@
}

/// The text that reports an opened file and the number of its records.
pub open spec fn opened_text(path: Seq<char>, count: nat) -> Seq<char> {
    "Opened '"@ + path + "' ("@ + decimal(count) + " records)"@
}

/// The text that reports where the settings were saved.
pub open spec fn settings_saved_text(path: Seq<char>) -> Seq<char> {
    "Saved config to "@ + path
}

/// The text that reports that the detected preset was loaded.
pub open spec fn auto_loaded_text(name: Seq<char>) -> Seq<char> {
    "Auto-loaded preset '"@ + name + "'"@
}

/// The text that reports that the detected preset could not be loaded.
pub open spec fn auto_failed_text(name: Seq<char>, cause: Seq<char>) -> Seq<char> {
    "Auto-detect found '"@ + name + "' but failed to load: "@ + cause
}

/// The text of the settings file for the two modes that are kept.
pub open spec fn settings_text(wrap_mode: bool, frequency_mode: bool) -> Seq<char> {
    "{\n  \"wrap_mode\": "@ + bool_text(wrap_mode) + ",\n  \"frequency_mode\": "@ + bool_text(
        frequency_mode,
    ) + "\n}\n"@
}

/// A truth value as the settings file writes it.
pub open spec fn bool_text(b: bool) -> Seq<char> {
    if b {
        "true"@
    } else {
        "false"@
    }
}

/// The text that reports a mode as switched on or off.
pub fn toggle_message(target: ToggleTarget, on: bool) -> (s: String)
    ensures
        s@ == toggle_text(target, on),
{
    String::from_str(
        match target {
            ToggleTarget::Frequency => if on {
                "Frequency mode ON"
            } else {
                "Frequency mode OFF"
            },
            ToggleTarget::Wrap => if on {
                "Wrap ON"
            } else {
                "Wrap OFF"
            },
            ToggleTarget::ShowLocks => if on {
                "Locks ON"
            } else {
                "Locks OFF"
            },
            ToggleTarget::ShowGutter => if on {
                "Gutter ON"
            } else {
                "Gutter OFF"
            },
        },
    )
}

/// The text that reports the selected field type.
pub fn type_message(data_type: DataType) -> (s: String)
    ensures
        s@ == type_text(data_type),
{
    let mut s = String::from_str("Type: ");
    s.append(data_type.name());
    s
}

/// The text that reports what an attempt to lock `count` fields of

/// `data_type` came to.
pub fn lock_message(outcome: LockOutcome, data_type: DataType, count: usize) -> (s: String)
    ensures
        s@ == lock_text(outcome, data_type, count as nat),
{
    match outcome {
        LockOutcome::Overlap => String::from_str("Cannot lock: overlaps with existing field"),
        LockOutcome::TooShort { needed, available } => {
            let mut s = String::from_str("Cannot lock: ");
            push_decimal(&mut s, needed as u64);
            s.append(" bytes needed, only ");
            push_decimal(&mut s, available as u64);
            s.append(" available");
            s
        },
        LockOutcome::Locked(field) => {
            let mut s = String::from_str("Locked ");
            if count > 1 {
                push_decimal(&mut s, count as u64);
                s.append("x");
                s.append(data_type.name());
                s.append(" (");
                push_decimal(&mut s, field.byte_length as u64);
                s.append(" bytes) at byte ");
                push_decimal(&mut s, field.byte_offset as u64);
            } else {
                s.append(data_type.name());
                s.append(" at byte ");
                push_decimal(&mut s, field.byte_offset as u64);
            }
            s
        },
    }
}

/// The text that reports what an unlock came to.
pub fn unlock_message(removed: bool) -> (s: String)
    ensures
        s@ == unlock_text(removed),
{
    String::from_str(
        if removed {
            "Unlocked field"
        } else {
            "Nothing to unlock at cursor"
        },
    )
}

/// The text for a command-line verb that the engine does not know.
pub fn unknown_command_message(verb: &str) -> (s: String)
    ensures
        s@ == unknown_command_text(verb@),
{
    let mut s = String::from_str("Unknown command: ");
    s.append(verb);
    s
}

/// The text for a write command that names no preset while none is loaded.
pub fn write_usage_message(force: bool) -> (s: String)
    ensures
        s@ == write_usage_text(force),
{
    String::from_str(
        if force {
            "No preset loaded. Usage: :w! <preset_name>"
        } else {
            "No preset loaded. Usage: :w <preset_name>"
        },
    )
}

/// The text that refuses to write over an existing preset.
pub fn exists_message(name: &str) -> (s: String)
    ensures
        s@ == exists_text(name@),
{
    let mut s = String::from_str("'");
    s.append(name);
    s.append("' exists. Use :w! ");
    s.append(name);
    s.append(" to overwrite");
    s
}

/// The text that reports a saved preset.
pub fn saved_message(name: &str) -> (s: String)
    ensures
        s@ == saved_text(name@),
{
    let mut s = String::from_str("Saved to '");
    s.append(name);
    s.append("'");
    s
}

/// The text that reports a loaded preset and the number of its fields.
pub fn loaded_message(name: &str, count: usize) -> (s: String)
    ensures
        s@ == loaded_text(name@, count as nat),
{
    let mut s = String::from_str("Loaded preset '");
    s.append(name);
    s.append("' (");
    push_decimal(&mut s, count as u64);
    s.append(" fields)");
    s
}

/// The text that reports an opened file and the number of its records.
pub fn opened_message(path: &str, count: usize) -> (s: String)
    ensures
        s@ == opened_text(path@, count as nat),
{
    let mut s = String::from_str("Opened '");
    s.append(path);
    s.append("' (");
    push_decimal(&mut s, count as u64);
    s.append(" records)");
    s
}

/// The text that reports where the settings were saved.
pub fn settings_saved_message(path: &str) -> (s: String)
    ensures
        s@ == settings_saved_text(path@),
{
    let mut s = String::from_str("Saved config to ");
    s.append(path);
    s
}

/// The text that reports that the detected preset was loaded.
pub fn auto_loaded_message(name: &str) -> (s: String)
    ensures
        s@ == auto_loaded_text(name@),
{
    let mut s = String::from_str("Auto-loaded preset '");
    s.append(name);
    s.append("'");
    s
}

/// The text that reports that the detected preset could not be loaded.
pub fn auto_failed_message(name: &str, cause: &str) -> (s: String)
    ensures
        s@ == auto_failed_text(name@, cause@),
{
    let mut s = String::from_str("Auto-detect found '");
    s.append(name);
    s.append("' but failed to load: ");
    s.append(cause);
    s
}

/// The text of the settings file for the two modes that are kept.
pub fn settings_file_text(wrap_mode: bool, frequency_mode: bool) -> (s: String)
    ensures
        s@ == settings_text(wrap_mode, frequency_mode),
{
    let mut s = String::from_str("{\n  \"wrap_mode\": ");
    s.append(
        if wrap_mode {
            "true"
        } else {
            "false"
        },
    );
    s.append(",\n  \"frequency_mode\": ");
    s.append(
        if frequency_mode {
            "true"
        } else {
            "false"
        },
    );
    s.append("\n}\n");
    s
}

} // verus!
