//! The mathematical model of the engine: its state as plain values, and
//! each action as a function from state to state.

use crate::datatype::DataType;
use crate::keys::{Binding, KeyCode, ToggleTarget};
use crate::lockfile::{file_text, parsed_text};
use crate::locks::{
    after_lock, any_covers, lock_outcome, positive, sorted, sorted_by_offset, without_covering,
    LockOutcome, LockedField,
};
use crate::messages::{
    auto_failed_text, auto_loaded_text, cleared_text, first_record_text, last_record_text,
    loaded_text, lock_text, open_usage_text, opened_text, preset_usage_text, settings_text,
    toggle_text, type_text, unknown_command_text, unlock_text, write_usage_text,
};
use crate::scan::{next_space, next_word, parse_unsigned, trimmed};
use vstd::prelude::*;

verus! {

/// A command of two or three keys that has begun and awaits its next key.
#[derive(Debug, Clone, Copy, PartialEq, Eq, Structural)]
pub enum PendingPrefix {
    /// No command has begun.
    Clear,
    /// `g` was typed; a second `g` jumps to the first record.
    SecondG,
    /// `y` was typed; `o` continues.
    LetterO,
    /// `yo` was typed; a mode letter toggles that mode.
    ToggleLetter,
    /// `[` was typed; a mode letter switches that mode on.
    OnLetter,
    /// `]` was typed; a mode letter switches that mode off.
    OffLetter,
}

/// The verbs of the command line.
#[derive(Debug, Clone, Copy, PartialEq, Eq, Structural)]
pub enum Verb {
    Write,
    WriteForce,
    Preset,
    Open,
    Clear,
    Save,
    Quit,
    Unknown,
}

/// The verb that a word denotes.
pub open spec fn verb_of(word: Seq<char>) -> Verb {
    if word == "w"@ || word == "write"@ {
        Verb::Write
    } else if word == "w!"@ || word == "write!"@ {
        Verb::WriteForce
    } else if word == "p"@ || word == "preset"@ {
        Verb::Preset
    } else if word == "e"@ || word == "o"@ || word == "open"@ || word == "edit"@ {
        Verb::Open
    } else if word == "clear"@ {
        Verb::Clear
    } else if word == "s"@ || word == "save"@ {
        Verb::Save
    } else if word == "q"@ || word == "quit"@ {
        Verb::Quit
    } else {
        Verb::Unknown
    }
}

/// The first word of a command line without white space at its ends.
pub open spec fn command_verb(command: Seq<char>) -> Seq<char> {
    let e = next_space(command, 0);
    if 0 <= e <= command.len() {
        command.take(e)
    } else {
        command
    }
}

/// What follows the first word of a command line without white space at
/// its ends, the white space between them left out; none where nothing
/// follows.
pub open spec fn command_argument(command: Seq<char>) -> Option<Seq<char>> {
    let a = next_word(command, next_space(command, 0));
    if 0 <= a < command.len() {
        Some(command.skip(a))
    } else {
        None
    }
}

/// The repeat count that a count buffer stands for: its decimal value, and
/// one where it is empty, zero, or no number that fits the machine.
pub open spec fn count_value(buffer: Seq<char>) -> nat {
    match parse_unsigned(buffer, usize::MAX as nat) {
        Some(v) => if v >= 1 {
            v
        } else {
            1
        },
        None => 1,
    }
}

/// The first record shown when the window of `visible` records is moved so
/// that record `current` is its last.
pub open spec fn scroll_to_show(current: nat, visible: nat) -> nat {
    if visible >= 1 && current >= visible - 1 {
        (current - (visible - 1)) as nat
    } else if visible >= 1 {
        0
    } else {
        current
    }
}

/// Work that the engine asks its host to do, as plain values.
pub enum EffectView {
    Nothing,
    Quit,
    SavePreset { name: Seq<char>, keep_existing: bool, text: Seq<char> },
    LoadPreset { name: Seq<char> },
    OpenFile { path: Seq<char> },
    SaveSettings { text: Seq<char> },
}

/// The state of the engine as plain values.
pub struct StateView {
    pub records: Seq<Seq<u8>>,
    pub current_record: nat,
    pub field_offset: nat,
    pub current_field: nat,
    pub current_type: DataType,
    pub locked_fields: Seq<LockedField>,
    pub scroll_offset: nat,
    pub visible_records: nat,
    pub message: Option<Seq<char>>,
    pub command_mode: bool,
    pub command_buffer: Seq<char>,
    pub current_preset: Option<Seq<char>>,
    pub count_buffer: Seq<char>,
    pub frequency_mode: bool,
    /// The record set that the frequency table was last built from.
    pub frequency_source: Seq<Seq<u8>>,
    pub pending: PendingPrefix,
    pub wrap_mode: bool,
    pub horizontal_scroll: nat,
    pub terminal_width: nat,
    pub show_locks: bool,
    pub show_gutter: bool,
}

impl StateView {
    /// The state in which the engine starts on a record set.
    pub open spec fn initial(records: Seq<Seq<u8>>) -> StateView {
        StateView {
            records,
            current_record: 0,
            field_offset: 0,
            current_field: 0,
            current_type: DataType::U8,
            locked_fields: Seq::empty(),
            scroll_offset: 0,
            visible_records: 10,
            message: None,
            command_mode: false,
            command_buffer: Seq::empty(),
            current_preset: None,
            count_buffer: Seq::empty(),
            frequency_mode: false,
            frequency_source: Seq::empty(),
            pending: PendingPrefix::Clear,
            wrap_mode: false,
            horizontal_scroll: 0,
            terminal_width: 80,
            show_locks: true,
            show_gutter: true,
        }
    }

    /// What holds of every state that the engine reaches: the alignment
    /// offset lies within the width of the selected type, the cursor is on a
    /// record where there is one and not behind the first record shown, the
    /// locked fields are sorted and hold a byte each, and in frequency mode
    /// the table is that of
    /// the loaded records.
    pub open spec fn inv(self) -> bool {
        &&& self.field_offset < self.current_type.unit()
        &&& self.current_record <= self.last_index()
        &&& self.scroll_offset <= self.current_record
        &&& sorted(self.locked_fields)
        &&& positive(self.locked_fields)
        &&& self.frequency_mode ==> self.frequency_source == self.records
    }

    /// Whether the cursor's record is among those shown.
    pub open spec fn cursor_visible(self) -> bool {
        self.scroll_offset <= self.current_record < self.scroll_offset + self.visible_records
    }

    /// The index of the last record; zero where there is none.
    pub open spec fn last_index(self) -> nat {
        if self.records.len() == 0 {
            0
        } else {
            (self.records.len() - 1) as nat
        }
    }

    /// The length of the cursor's record; zero where there is none.
    pub open spec fn record_len(self) -> nat {
        if self.current_record < self.records.len() {
            self.records[self.current_record as int].len()
        } else {
            0
        }
    }

    /// The number of whole fields of the selected type in a record of
    /// `record_len` bytes, from the alignment offset on.
    #[verifier::opaque]
    pub open spec fn field_count(self, record_len: nat) -> nat {
        if record_len <= self.field_offset {
            0
        } else {
            ((record_len - self.field_offset) / self.current_type.unit() as int) as nat
        }
    }

    /// The number of whole fields in the cursor's record.
    pub open spec fn max_fields(self) -> nat {
        self.field_count(self.record_len())
    }

    /// The field that the cursor is on: the stored field index, held
    /// within the fields of the cursor's record.
    pub open spec fn cursor_field(self) -> nat {
        if self.max_fields() == 0 {
            0
        } else if self.current_field >= self.max_fields() {
            (self.max_fields() - 1) as nat
        } else {
            self.current_field
        }
    }

    /// The byte position of the cursor's field.
    #[verifier::opaque]
    pub open spec fn cursor_byte(self) -> nat {
        self.field_offset + self.cursor_field() * self.current_type.unit()
    }

    /// The repeat count that the count buffer stands for.
    pub open spec fn count(self) -> nat {
        count_value(self.count_buffer)
    }

    /// The state with the count buffer emptied and no command pending.
    pub open spec fn settled(self) -> StateView {
        StateView { count_buffer: Seq::empty(), pending: PendingPrefix::Clear, ..self }
    }

    /// The state with no command pending.
    pub open spec fn unprefixed(self) -> StateView {
        StateView { pending: PendingPrefix::Clear, ..self }
    }

    /// The cursor moved `count` records down, not beyond the last; the
    /// window follows where the cursor would leave it at the bottom.
    pub open spec fn moved_down(self, count: nat) -> StateView {
        let target = if self.current_record + count <= self.last_index() {
            self.current_record + count
        } else {
            self.last_index()
        };
        StateView {
            current_record: target,
            scroll_offset: if target >= self.scroll_offset + self.visible_records {
                scroll_to_show(target, self.visible_records)
            } else {
                self.scroll_offset
            },
            ..self
        }
    }

    /// The cursor moved `count` records up, not beyond the first; the
    /// window follows where the cursor would leave it at the top.
    pub open spec fn moved_up(self, count: nat) -> StateView {
        let target = if self.current_record >= count {
            (self.current_record - count) as nat
        } else {
            0
        };
        StateView {
            current_record: target,
            scroll_offset: if target < self.scroll_offset {
                target
            } else {
                self.scroll_offset
            },
            ..self
        }
    }

    /// The cursor on the first record, which is the first shown.
    pub open spec fn jumped_to_start(self) -> StateView {
        StateView {
            current_record: 0,
            scroll_offset: 0,
            message: Some(first_record_text()),
            ..self
        }
    }

    /// The cursor on the last record; where that lies beyond the first
    /// window, it is the last shown.
    pub open spec fn jumped_to_end(self) -> StateView {
        let target = self.last_index();
        StateView {
            current_record: target,
            scroll_offset: if target >= self.visible_records {
                scroll_to_show(target, self.visible_records)
            } else {
                self.scroll_offset
            },
            message: Some(last_record_text()),
            ..self
        }
    }

    /// The cursor one field on, where the record has one more.
    pub open spec fn next_field(self) -> StateView {
        if self.cursor_field() + 1 < self.max_fields() {
            StateView { current_field: self.cursor_field() + 1, ..self }
        } else {
            self
        }
    }

    /// The cursor one field back, where it is not on the first.
    pub open spec fn prev_field(self) -> StateView {
        if self.cursor_field() > 0 {
            StateView { current_field: (self.cursor_field() - 1) as nat, ..self }
        } else {
            self
        }
    }

    /// The cursor on the last field of its record.
    pub open spec fn last_field(self) -> StateView {
        StateView {
            current_field: if self.max_fields() > 0 {
                (self.max_fields() - 1) as nat
            } else {
                0
            },
            ..self
        }
    }

    /// The alignment shifted one byte forward, within the width of the
    /// selected type.
    pub open spec fn shifted_forward(self) -> StateView {
        if self.field_offset + 1 < self.current_type.unit() {
            StateView { field_offset: self.field_offset + 1, ..self }
        } else {
            self
        }
    }

    /// The alignment shifted one byte back, not below zero.
    pub open spec fn shifted_backward(self) -> StateView {
        if self.field_offset > 0 {
            StateView { field_offset: (self.field_offset - 1) as nat, ..self }
        } else {
            self
        }
    }

    /// The field type selected, the alignment offset held within its width.
    pub open spec fn with_type(self, data_type: DataType) -> StateView {
        StateView {
            current_type: data_type,
            field_offset: if self.field_offset >= data_type.unit() {
                (data_type.unit() - 1) as nat
            } else {
                self.field_offset
            },
            message: Some(type_text(data_type)),
            ..self
        }
    }

    /// What locking `count` fields at the cursor comes to.
    pub open spec fn lock_result(self, count: nat) -> LockOutcome {
        lock_outcome(
            self.locked_fields,
            self.cursor_byte() as usize,
            self.current_type,
            count,
            self.record_len() as usize,
        )
    }

    /// `count` fields of the selected type locked at the cursor as one
    /// range, or refused.
    pub open spec fn locked(self, count: nat) -> StateView {
        let outcome = self.lock_result(count);
        StateView {
            locked_fields: after_lock(self.locked_fields, outcome),
            message: Some(lock_text(outcome, self.current_type, count)),
            ..self
        }
    }

    /// The locked fields that hold the cursor's byte removed. The status
    /// text says whether there was one; where there was none the locked
    /// fields stay as they are.
    pub open spec fn unlocked(self) -> StateView {
        StateView {
            locked_fields: without_covering(self.locked_fields, self.cursor_byte() as int),
            message: Some(unlock_text(any_covers(self.locked_fields, self.cursor_byte() as int))),
            ..self
        }
    }

    /// The value of a mode.
    pub open spec fn mode(self, target: ToggleTarget) -> bool {
        match target {
            ToggleTarget::Frequency => self.frequency_mode,
            ToggleTarget::Wrap => self.wrap_mode,
            ToggleTarget::ShowLocks => self.show_locks,
            ToggleTarget::ShowGutter => self.show_gutter,
        }
    }

    /// The value that the pending toggle command gives a mode: flipped
    /// after `yo`, on after `[`, off after `]`.
    pub open spec fn toggled_value(self, target: ToggleTarget) -> bool {
        match self.pending {
            PendingPrefix::OnLetter => true,
            PendingPrefix::OffLetter => false,
            _ => !self.mode(target),
        }
    }

    /// A mode set, with its status text. Switching frequency mode on
    /// rebuilds the table from the loaded records; a change of the wrap mode
    /// puts the horizontal scroll back to zero.
    pub open spec fn with_mode(self, target: ToggleTarget, on: bool) -> StateView {
        let told = StateView { message: Some(toggle_text(target, on)), ..self.settled() };
        match target {
            ToggleTarget::Frequency => StateView {
                frequency_mode: on,
                frequency_source: if on {
                    self.records
                } else {
                    self.frequency_source
                },
                ..told
            },
            ToggleTarget::Wrap => StateView { wrap_mode: on, horizontal_scroll: 0, ..told },
            ToggleTarget::ShowLocks => StateView { show_locks: on, ..told },
            ToggleTarget::ShowGutter => StateView { show_gutter: on, ..told },
        }
    }

    /// Whether a toggle command awaits its mode letter.
    pub open spec fn awaits_mode_letter(self) -> bool {
        self.pending == PendingPrefix::ToggleLetter || self.pending == PendingPrefix::OnLetter
            || self.pending == PendingPrefix::OffLetter
    }

    /// The state after a key with the given binding in normal mode.
    pub open spec fn key_step(self, binding: Binding) -> StateView {
        match binding {
            Binding::CommandLine => StateView {
                command_mode: true,
                command_buffer: Seq::empty(),
                message: None,
                ..self.unprefixed()
            },
            Binding::NextType => self.unprefixed().with_type(self.current_type.successor()),
            Binding::PrevType => self.unprefixed().with_type(self.current_type.predecessor()),
            Binding::ShiftBackward => self.unprefixed().shifted_backward(),
            Binding::PrevField => self.unprefixed().prev_field(),
            Binding::Digit(c) => StateView {
                count_buffer: self.count_buffer.push(c),
                ..self.unprefixed()
            },
            Binding::Zero => if self.count_buffer.len() > 0 {
                StateView { count_buffer: self.count_buffer.push('0'), ..self.unprefixed() }
            } else {
                StateView { current_field: 0, ..self.unprefixed() }
            },
            Binding::LastField => self.settled().last_field(),
            Binding::Down => self.settled().moved_down(self.count()),
            Binding::Up => self.settled().moved_up(self.count()),
            Binding::PageDown => self.settled().moved_down(self.visible_records / 2),
            Binding::PageUp => self.settled().moved_up(self.visible_records / 2),
            Binding::Lock => self.settled().locked(self.count()),
            Binding::Unlock => self.settled().unlocked(),
            Binding::LastRecord => self.settled().jumped_to_end(),
            Binding::PrefixY => StateView { pending: PendingPrefix::LetterO, ..self },
            Binding::PrefixO => StateView {
                pending: if self.pending == PendingPrefix::LetterO {
                    PendingPrefix::ToggleLetter
                } else {
                    PendingPrefix::Clear
                },
                ..self
            },
            Binding::PrefixOn => StateView { pending: PendingPrefix::OnLetter, ..self },
            Binding::PrefixOff => StateView { pending: PendingPrefix::OffLetter, ..self },
            Binding::Letter(target) => if self.awaits_mode_letter() {
                self.with_mode(target, self.toggled_value(target))
            } else {
                match target {
                    ToggleTarget::Frequency => self.unprefixed(),
                    ToggleTarget::Wrap => self.unprefixed().next_field(),
                    ToggleTarget::ShowLocks => self.unprefixed().shifted_forward(),
                    ToggleTarget::ShowGutter => if self.pending == PendingPrefix::SecondG {
                        self.settled().jumped_to_start()
                    } else {
                        StateView { pending: PendingPrefix::SecondG, ..self }
                    },
                }
            },
            Binding::Unbound => self.settled(),
        }
    }

    /// The state with the command line left and emptied.
    pub open spec fn command_closed(self) -> StateView {
        StateView { command_mode: false, command_buffer: Seq::empty(), ..self }
    }

    /// The name that a write or preset command acts on: its argument, or
    /// else the loaded preset.
    pub open spec fn target_name(self, argument: Option<Seq<char>>) -> Option<Seq<char>> {
        match argument {
            Some(name) => Some(name),
            None => self.current_preset,
        }
    }

    /// The state after the command line is run, and the work it asks for.
    pub open spec fn executed(self) -> (StateView, EffectView) {
        let command = trimmed(self.command_buffer);
        let closed = self.command_closed();
        if command.len() == 0 {
            (closed, EffectView::Nothing)
        } else {
            let argument = command_argument(command);
            match verb_of(command_verb(command)) {
                Verb::Write => closed.write_command(argument, false),
                Verb::WriteForce => closed.write_command(argument, true),
                Verb::Preset => match closed.target_name(argument) {
                    Some(name) => (closed, EffectView::LoadPreset { name }),
                    None => (
                        StateView { message: Some(preset_usage_text()), ..closed },
                        EffectView::Nothing,
                    ),
                },
                Verb::Open => match argument {
                    Some(path) => (closed, EffectView::OpenFile { path }),
                    None => (
                        StateView { message: Some(open_usage_text()), ..closed },
                        EffectView::Nothing,
                    ),
                },
                Verb::Clear => (
                    StateView {
                        locked_fields: Seq::empty(),
                        message: Some(cleared_text()),
                        ..closed
                    },
                    EffectView::Nothing,
                ),
                Verb::Save => (
                    closed,
                    EffectView::SaveSettings {
                        text: settings_text(closed.wrap_mode, closed.frequency_mode),
                    },
                ),
                Verb::Quit => (closed, EffectView::Quit),
                Verb::Unknown => (
                    StateView {
                        message: Some(unknown_command_text(command_verb(command))),
                        ..closed
                    },
                    EffectView::Nothing,
                ),
            }
        }
    }

    /// A write command: the locked fields are to be saved under the target
    /// name. Only the forcing verb may replace a file that exists.
    pub open spec fn write_command(self, argument: Option<Seq<char>>, force: bool) -> (
        StateView,
        EffectView,
    ) {
        match self.target_name(argument) {
            Some(name) => (
                self,
                EffectView::SavePreset {
                    name,
                    keep_existing: !force,
                    text: file_text(self.locked_fields),
                },
            ),
            None => (
                StateView { message: Some(write_usage_text(force)), ..self },
                EffectView::Nothing,
            ),
        }
    }

    /// The state after a key on the command line, and the work it asks for.
    pub open spec fn command_step(self, code: KeyCode) -> (StateView, EffectView) {
        match code {
            KeyCode::Enter => self.executed(),
            KeyCode::Esc => (
                StateView { message: None, ..self.command_closed() },
                EffectView::Nothing,
            ),
            KeyCode::Backspace => (
                StateView {
                    command_buffer: if self.command_buffer.len() > 0 {
                        self.command_buffer.drop_last()
                    } else {
                        self.command_buffer
                    },
                    ..self
                },
                EffectView::Nothing,
            ),
            KeyCode::Char(c) => (
                StateView { command_buffer: self.command_buffer.push(c), ..self },
                EffectView::Nothing,
            ),
            _ => (self, EffectView::Nothing),
        }
    }

    /// The state after a key event, and the work it asks for: a step on
    /// the command line where that is open, and else a step in normal mode.
    pub open spec fn event_step(self, code: KeyCode, modifiers: crate::keys::KeyModifiers) -> (
        StateView,
        EffectView,
    ) {
        if self.command_mode {
            self.command_step(code)
        } else {
            (self.key_step(crate::keys::binding_of(code, modifiers)), EffectView::Nothing)
        }
    }

    /// The state with a status text.
    pub open spec fn told(self, text: Seq<char>) -> StateView {
        StateView { message: Some(text), ..self }
    }

    /// The state after the text of a preset was read: its fields replace
    /// the locked ones, sorted by offset, and the preset counts as loaded.
    /// A text with a faulty line changes nothing but the status text.
    pub open spec fn preset_loaded(self, name: Seq<char>, text: Seq<char>) -> StateView {
        match parsed_text(text) {
            Ok(fields) => StateView {
                locked_fields: sorted_by_offset(fields),
                current_preset: Some(name),
                message: Some(loaded_text(name, fields.len())),
                ..self
            },
            Err(e) => self.told(e.message_text()),
        }
    }

    /// The state after the preset that was detected at the start was read.
    pub open spec fn auto_preset_loaded(self, name: Seq<char>, text: Seq<char>) -> StateView {
        match parsed_text(text) {
            Ok(fields) => StateView {
                locked_fields: sorted_by_offset(fields),
                current_preset: Some(name),
                message: Some(auto_loaded_text(name)),
                ..self
            },
            Err(e) => self.auto_preset_failed(name, e.message_text()),
        }
    }

    /// The state after the preset that was detected at the start could not
    /// be had: nothing changes but the status text, which names the preset
    /// and the cause.
    pub open spec fn auto_preset_failed(self, name: Seq<char>, cause: Seq<char>) -> StateView {
        StateView { message: Some(auto_failed_text(name, cause)), ..self }
    }

    /// The state after a file was read: its records replace the loaded
    /// ones, and the cursor stands at the start. The locked fields stay. The
    /// frequency table is rebuilt from the new records, in frequency mode
    /// and out of it.
    pub open spec fn file_opened(self, path: Seq<char>, records: Seq<Seq<u8>>) -> StateView {
        StateView {
            records,
            current_record: 0,
            scroll_offset: 0,
            field_offset: 0,
            current_field: 0,
            frequency_source: records,
            message: Some(opened_text(path, records.len())),
            ..self
        }
    }

    /// The state after the view was laid out in `width` columns and
    /// `height` rows.
    pub open spec fn resized(self, width: nat, height: nat) -> StateView {
        StateView { terminal_width: width, visible_records: height, ..self }
    }
}

} // verus!
