//! The engine: the loaded records, the cursor, the selected field type, the
//! locked fields and the modes, and the actions that keys and commands
//! perform on them.

use crate::datatype::DataType;
use crate::frequency::{views, ByteFrequencyTable};
use crate::keys::{bind, Binding, KeyCode, KeyModifiers, ToggleTarget};
use crate::lockfile::{preset_file_text, PresetError};
use crate::locks::{LockOutcome, LockRegistry};
use crate::messages::{
    auto_failed_message, auto_loaded_message, exists_message, loaded_message, lock_message,
    opened_message, saved_message, settings_file_text, settings_saved_message, toggle_message,
    type_message, unknown_command_message, unlock_message, write_usage_message,
};
use crate::model::{
    command_argument, command_verb, scroll_to_show, verb_of, EffectView, PendingPrefix, StateView,
    Verb,
};
use crate::scan::{is_whitespace, next_space, next_word, parse_number, trim};
use crate::text::{chars_are, copy_range, push_chars, string_from_chars};
use vstd::prelude::*;
use vstd::string::*;

verus! {

/// The view of an optional string.
pub open spec fn text_of(s: Option<String>) -> Option<Seq<char>> {
    match s {
        Some(text) => Some(text@),
        None => None,
    }
}

/// The state of the interactive explorer.
pub struct InteractiveState {
    records: Vec<Vec<u8>>,
    current_record: usize,
    field_offset: usize,
    current_field: usize,
    current_type: DataType,
    locked_fields: LockRegistry,
    scroll_offset: usize,
    visible_records: usize,
    message: Option<String>,
    command_mode: bool,
    command_buffer: Vec<char>,
    current_preset: Option<String>,
    count_buffer: Vec<char>,
    frequency_mode: bool,
    byte_frequencies: ByteFrequencyTable,
    pending: PendingPrefix,
    wrap_mode: bool,
    horizontal_scroll: usize,
    terminal_width: usize,
    show_locks: bool,
    show_gutter: bool,
}

impl View for InteractiveState {
    type V = StateView;

    closed spec fn view(&self) -> StateView {
        StateView {
            records: views(self.records@),
            current_record: self.current_record as nat,
            field_offset: self.field_offset as nat,
            current_field: self.current_field as nat,
            current_type: self.current_type,
            locked_fields: self.locked_fields@,
            scroll_offset: self.scroll_offset as nat,
            visible_records: self.visible_records as nat,
            message: text_of(self.message),
            command_mode: self.command_mode,
            command_buffer: self.command_buffer@,
            current_preset: text_of(self.current_preset),
            count_buffer: self.count_buffer@,
            frequency_mode: self.frequency_mode,
            frequency_source: self.byte_frequencies@,
            pending: self.pending,
            wrap_mode: self.wrap_mode,
            horizontal_scroll: self.horizontal_scroll as nat,
            terminal_width: self.terminal_width as nat,
            show_locks: self.show_locks,
            show_gutter: self.show_gutter,
        }
    }
}

/// A field that starts at `offset` and is not the last of the `fields`
/// whole fields of `unit` bytes in a record of `len` bytes ends within the
/// record.
pub proof fn lemma_field_within(len: nat, offset: nat, unit: nat, fields: nat, field: nat)
    requires
        unit >= 1,
        offset < len,
        fields == (len - offset) / unit as int,
        field < fields,
    ensures
        offset + field * unit + unit <= len,
        field * unit >= 0,
{
    assert(fields * unit <= len - offset) by (nonlinear_arith)
        requires
            unit >= 1,
            offset < len,
            fields == (len - offset) / unit as int,
    ;
    assert(field * unit + unit <= fields * unit) by (nonlinear_arith)
        requires
            field < fields,
            unit >= 1,
    ;
    assert(field * unit >= 0) by (nonlinear_arith)
        requires
            unit >= 1,
    ;
}

impl InteractiveState {
    /// The engine on a record set: the cursor on the first record and
    /// field, the one-byte unsigned type selected, nothing locked, ten
    /// records in eighty columns shown, locks and gutter shown, frequency
    /// colouring and wrapping off.
    pub fn new(records: Vec<Vec<u8>>) -> (state: InteractiveState)
        ensures
            state@ == StateView::initial(views(records@)),
    {
        InteractiveState {
            records,
            current_record: 0,
            field_offset: 0,
            current_field: 0,
            current_type: DataType::U8,
            locked_fields: LockRegistry::new(),
            scroll_offset: 0,
            visible_records: 10,
            message: None,
            command_mode: false,
            command_buffer: Vec::new(),
            current_preset: None,
            count_buffer: Vec::new(),
            frequency_mode: false,
            byte_frequencies: ByteFrequencyTable::new(),
            pending: PendingPrefix::Clear,
            wrap_mode: false,
            horizontal_scroll: 0,
            terminal_width: 80,
            show_locks: true,
            show_gutter: true,
        }
    }

    /// The length of the cursor's record; zero where there is none.
    pub fn record_len(&self) -> (len: usize)
        ensures
            len == self@.record_len(),
    {
        if self.current_record < self.records.len() {
            self.records[self.current_record].len()
        } else {
            0
        }
    }

    /// The number of whole fields of the selected type in a record of
    /// `record_len` bytes.
    pub fn field_count(&self, record_len: usize) -> (count: usize)
        ensures
            count == self@.field_count(record_len as nat),
    {
        proof {
            reveal(StateView::field_count);
        }
        let unit = self.current_type.unit_size();
        if record_len <= self.field_offset {
            0
        } else {
            (record_len - self.field_offset) / unit
        }
    }

    /// The number of whole fields in the cursor's record.
    pub fn max_fields(&self) -> (count: usize)
        ensures
            count == self@.max_fields(),
    {
        self.field_count(self.record_len())
    }

    /// The field that the cursor is on.
    pub fn cursor_field(&self) -> (field: usize)
        ensures
            field == self@.cursor_field(),
    {
        let max = self.max_fields();
        if max == 0 {
            0
        } else if self.current_field >= max {
            max - 1
        } else {
            self.current_field
        }
    }

    /// The byte position of the cursor's field.
    pub fn current_field_byte(&self) -> (byte: usize)
        ensures
            byte == self@.cursor_byte(),
    {
        let unit = self.current_type.unit_size();
        let len = self.record_len();
        let max = self.field_count(len);
        let field = self.cursor_field();
        proof {
            reveal(StateView::field_count);
            reveal(StateView::cursor_byte);
            if max > 0 {
                lemma_field_within(
                    len as nat,
                    self.field_offset as nat,
                    unit as nat,
                    max as nat,
                    field as nat,
                );
            } else {
                assert(field * unit == 0) by (nonlinear_arith)
                    requires
                        field == 0,
                ;
            }
        }
        self.field_offset + field * unit
    }

    /// Forgets a command that has begun.
    pub fn clear_pending(&mut self)
        ensures
            final(self)@ == old(self)@.unprefixed(),
    {
        self.pending = PendingPrefix::Clear;
    }

    /// Takes the repeat count out of the count buffer, which is left
    /// empty: its decimal value, and one where the buffer is empty, zero or
    /// no number that fits the machine.
    pub fn get_count(&mut self) -> (count: usize)
        ensures
            count == old(self)@.count(),
            count >= 1,
            final(self)@ == (StateView { count_buffer: Seq::empty(), ..old(self)@ }),
    {
        let parsed = parse_number(self.count_buffer.as_slice(), usize::MAX as u64);
        self.count_buffer.clear();
        match parsed {
            Some(v) => if v >= 1 {
                v as usize
            } else {
                1
            },
            None => 1,
        }
    }

    /// Moves the cursor `count` records down.
    pub fn move_down(&mut self, count: usize)
        ensures
            final(self)@ == old(self)@.moved_down(count as nat),
    {
        let max_idx = if self.records.len() == 0 {
            0
        } else {
            self.records.len() - 1
        };
        let target = match self.current_record.checked_add(count) {
            Some(t) => if t <= max_idx {
                t
            } else {
                max_idx
            },
            None => max_idx,
        };
        self.current_record = target;
        if target as u128 >= self.scroll_offset as u128 + self.visible_records as u128 {
            self.scroll_offset = Self::window_start(target, self.visible_records);
        }
    }

    /// The first record shown when record `current` is the last of
    /// `visible` shown.
    fn window_start(current: usize, visible: usize) -> (start: usize)
        ensures
            start == scroll_to_show(current as nat, visible as nat),
    {
        if visible >= 1 && current >= visible - 1 {
            current - (visible - 1)
        } else if visible >= 1 {
            0
        } else {
            current
        }
    }

    /// Moves the cursor `count` records up.
    pub fn move_up(&mut self, count: usize)
        ensures
            final(self)@ == old(self)@.moved_up(count as nat),
    {
        let target = if self.current_record >= count {
            self.current_record - count
        } else {
            0
        };
        self.current_record = target;
        if target < self.scroll_offset {
            self.scroll_offset = target;
        }
    }

    /// Moves the cursor half a window down.
    pub fn page_down(&mut self)
        ensures
            final(self)@ == old(self)@.moved_down(old(self)@.visible_records / 2),
    {
        let jump = self.visible_records / 2;
        self.move_down(jump);
    }

    /// Moves the cursor half a window up.
    pub fn page_up(&mut self)
        ensures
            final(self)@ == old(self)@.moved_up(old(self)@.visible_records / 2),
    {
        let jump = self.visible_records / 2;
        self.move_up(jump);
    }

    /// Puts the cursor on the first record.
    pub fn jump_to_start(&mut self)
        ensures
            final(self)@ == old(self)@.jumped_to_start(),
    {
        self.current_record = 0;
        self.scroll_offset = 0;
        self.message = Some(String::from_str("Jumped to first record"));
    }

    /// Puts the cursor on the last record.
    pub fn jump_to_end(&mut self)
        ensures
            final(self)@ == old(self)@.jumped_to_end(),
    {
        let target = if self.records.len() == 0 {
            0
        } else {
            self.records.len() - 1
        };
        self.current_record = target;
        if target >= self.visible_records {
            self.scroll_offset = Self::window_start(target, self.visible_records);
        }
        self.message = Some(String::from_str("Jumped to last record"));
    }

    /// Moves the cursor to the next field of its record.
    pub fn move_to_next_field(&mut self)
        ensures
            final(self)@ == old(self)@.next_field(),
    {
        let max = self.max_fields();
        let field = self.cursor_field();
        if field + 1 < max {
            self.current_field = field + 1;
        }
    }

    /// Moves the cursor to the previous field of its record.
    pub fn move_to_prev_field(&mut self)
        ensures
            final(self)@ == old(self)@.prev_field(),
    {
        let field = self.cursor_field();
        if field > 0 {
            self.current_field = field - 1;
        }
    }

    /// Moves the cursor to the last field of its record.
    pub fn move_to_last_field(&mut self)
        ensures
            final(self)@ == old(self)@.last_field(),
    {
        let max = self.max_fields();
        self.current_field = if max > 0 {
            max - 1
        } else {
            0
        };
    }

    /// Shifts the alignment one byte forward, within the width of the
    /// selected type.
    pub fn shift_offset_forward(&mut self)
        ensures
            final(self)@ == old(self)@.shifted_forward(),
    {
        let unit = self.current_type.unit_size();
        if self.field_offset < unit - 1 {
            self.field_offset = self.field_offset + 1;
        }
    }

    /// Shifts the alignment one byte back.
    pub fn shift_offset_backward(&mut self)
        ensures
            final(self)@ == old(self)@.shifted_backward(),
    {
        if self.field_offset > 0 {
            self.field_offset = self.field_offset - 1;
        }
    }

    /// Selects a field type and holds the alignment offset within its
    /// width.
    pub fn select_type(&mut self, data_type: DataType)
        ensures
            final(self)@ == old(self)@.with_type(data_type),
    {
        let unit = data_type.unit_size();
        self.current_type = data_type;
        if self.field_offset >= unit {
            self.field_offset = unit - 1;
        }
        self.message = Some(type_message(data_type));
    }

    /// Locks `count` consecutive fields of the selected type, from the
    /// cursor's field on, as one range. The range is refused where it has a
    /// byte in common with a locked one, and where it reaches past the end
    /// of the record; the status text says which.
    pub fn lock_current(&mut self, count: usize) -> (outcome: LockOutcome)
        requires
            count >= 1,
        ensures
            outcome == old(self)@.lock_result(count as nat),
            final(self)@ == old(self)@.locked(count as nat),
    {
        let byte_off = self.current_field_byte();
        let record_len = self.record_len();
        let outcome = self.locked_fields.lock(byte_off, self.current_type, count, record_len);
        self.message = Some(lock_message(outcome, self.current_type, count));
        outcome
    }

    /// Unlocks the locked fields that hold the cursor's byte, and says
    /// whether there was one. The status text reports the removal, or that
    /// there was nothing to unlock.
    pub fn unlock_at_cursor(&mut self) -> (removed: bool)
        ensures
            final(self)@ == old(self)@.unlocked(),
            removed == crate::locks::any_covers(
                old(self)@.locked_fields,
                old(self)@.cursor_byte() as int,
            ),
    {
        let byte_off = self.current_field_byte();
        let removed = self.locked_fields.unlock_at(byte_off);
        self.message = Some(unlock_message(removed));
        removed
    }

    /// The value of a mode.
    pub fn mode(&self, target: ToggleTarget) -> (on: bool)
        ensures
            on == self@.mode(target),
    {
        match target {
            ToggleTarget::Frequency => self.frequency_mode,
            ToggleTarget::Wrap => self.wrap_mode,
            ToggleTarget::ShowLocks => self.show_locks,
            ToggleTarget::ShowGutter => self.show_gutter,
        }
    }

    /// Rebuilds the frequency table from the loaded records.
    pub fn compute_frequencies(&mut self)
        ensures
            final(self)@ == (StateView {
                frequency_source: old(self)@.records,
                ..old(self)@
            }),
    {
        self.byte_frequencies = ByteFrequencyTable::compute(self.records.as_slice());
    }

    /// Sets a mode and reports it.
    pub fn set_mode(&mut self, target: ToggleTarget, on: bool)
        ensures
            final(self)@ == old(self)@.with_mode(target, on),
    {
        match target {
            ToggleTarget::Frequency => {
                self.frequency_mode = on;
                if on {
                    self.compute_frequencies();
                }
            },
            ToggleTarget::Wrap => {
                self.wrap_mode = on;
                self.horizontal_scroll = 0;
            },
            ToggleTarget::ShowLocks => {
                self.show_locks = on;
            },
            ToggleTarget::ShowGutter => {
                self.show_gutter = on;
            },
        }
        self.message = Some(toggle_message(target, on));
        self.pending = PendingPrefix::Clear;
        self.count_buffer.clear();
    }

    /// Completes a toggle command with the letter of a mode. Returns
    /// whether a toggle command was pending; where none was, nothing
    /// changes.
    pub fn handle_toggle(&mut self, target: ToggleTarget) -> (handled: bool)
        ensures
            handled == old(self)@.awaits_mode_letter(),
            final(self)@ == if handled {
                old(self)@.with_mode(target, old(self)@.toggled_value(target))
            } else {
                old(self)@
            },
    {
        let on = match self.pending {
            PendingPrefix::ToggleLetter => !self.mode(target),
            PendingPrefix::OnLetter => true,
            PendingPrefix::OffLetter => false,
            _ => {
                return false;
            },
        };
        self.set_mode(target, on);
        true
    }

    /// A key that moves the cursor between records or to the last field.
    fn key_motion(&mut self, binding: Binding)
        requires
            binding is Down || binding is Up || binding is PageDown || binding is PageUp
                || binding is LastRecord || binding is LastField,
        ensures
            final(self)@ == old(self)@.key_step(binding),
    {
        self.pending = PendingPrefix::Clear;
        match binding {
            Binding::Down => {
                let count = self.get_count();
                self.move_down(count);
            },
            Binding::Up => {
                let count = self.get_count();
                self.move_up(count);
            },
            Binding::PageDown => {
                self.count_buffer.clear();
                self.page_down();
            },
            Binding::PageUp => {
                self.count_buffer.clear();
                self.page_up();
            },
            Binding::LastRecord => {
                self.count_buffer.clear();
                self.jump_to_end();
            },
            _ => {
                self.count_buffer.clear();
                self.move_to_last_field();
            },
        }
    }

    /// A key that locks or unlocks.
    fn key_lock(&mut self, binding: Binding)
        requires
            binding is Lock || binding is Unlock,
        ensures
            final(self)@ == old(self)@.key_step(binding),
    {
        self.pending = PendingPrefix::Clear;
        match binding {
            Binding::Lock => {
                let count = self.get_count();
                self.lock_current(count);
            },
            _ => {
                self.count_buffer.clear();
                self.unlock_at_cursor();
            },
        }
    }

    /// A key that begins or continues a toggle prefix.
    fn key_prefix(&mut self, binding: Binding)
        requires
            binding is PrefixY || binding is PrefixO || binding is PrefixOn || binding is PrefixOff,
        ensures
            final(self)@ == old(self)@.key_step(binding),
    {
        self.pending = match binding {
            Binding::PrefixY => PendingPrefix::LetterO,
            Binding::PrefixO => match self.pending {
                PendingPrefix::LetterO => PendingPrefix::ToggleLetter,
                _ => PendingPrefix::Clear,
            },
            Binding::PrefixOn => PendingPrefix::OnLetter,
            _ => PendingPrefix::OffLetter,
        };
    }

    /// One of the letters `f`, `w`, `l` and `g`.
    fn key_letter(&mut self, target: ToggleTarget)
        ensures
            final(self)@ == old(self)@.key_step(Binding::Letter(target)),
    {
        if self.handle_toggle(target) {
            return ;
        }
        match target {
            ToggleTarget::Frequency => {
                self.pending = PendingPrefix::Clear;
            },
            ToggleTarget::Wrap => {
                self.pending = PendingPrefix::Clear;
                self.move_to_next_field();
            },
            ToggleTarget::ShowLocks => {
                self.pending = PendingPrefix::Clear;
                self.shift_offset_forward();
            },
            ToggleTarget::ShowGutter => {
                if matches!(self.pending, PendingPrefix::SecondG) {
                    self.pending = PendingPrefix::Clear;
                    self.count_buffer.clear();
                    self.jump_to_start();
                } else {
                    self.pending = PendingPrefix::SecondG;
                }
            },
        }
    }

    /// A key that extends the count, or `0` without a count.
    fn key_count(&mut self, binding: Binding)
        requires
            binding is Digit || binding is Zero,
        ensures
            final(self)@ == old(self)@.key_step(binding),
    {
        self.pending = PendingPrefix::Clear;
        match binding {
            Binding::Digit(c) => {
                self.count_buffer.push(c);
            },
            _ => {
                if self.count_buffer.len() > 0 {
                    self.count_buffer.push('0');
                } else {
                    self.current_field = 0;
                }
            },
        }
    }

    /// A key that selects a field type.
    fn key_type(&mut self, binding: Binding)
        requires
            binding is NextType || binding is PrevType,
        ensures
            final(self)@ == old(self)@.key_step(binding),
    {
        self.pending = PendingPrefix::Clear;
        let selected = match binding {
            Binding::NextType => self.current_type.next(),
            _ => self.current_type.prev(),
        };
        self.select_type(selected);
    }

    /// The remaining keys: `:`, `h`, `b`, and the keys without a binding.
    fn key_other(&mut self, binding: Binding)
        requires
            binding is CommandLine || binding is ShiftBackward || binding is PrevField
                || binding is Unbound,
        ensures
            final(self)@ == old(self)@.key_step(binding),
    {
        self.pending = PendingPrefix::Clear;
        match binding {
            Binding::CommandLine => {
                self.command_mode = true;
                self.command_buffer.clear();
                self.message = None;
            },
            Binding::ShiftBackward => {
                self.shift_offset_backward();
            },
            Binding::PrevField => {
                self.move_to_prev_field();
            },
            _ => {
                self.count_buffer.clear();
            },
        }
    }

    /// Handles a key in normal mode. A key either belongs to a command of
    /// several keys that has begun, or begins one, or acts at once; any key
    /// that does not go on with the pending command ends it.
    pub fn handle_key(&mut self, code: KeyCode, modifiers: KeyModifiers)
        ensures
            final(self)@ == old(self)@.key_step(crate::keys::binding_of(code, modifiers)),
    {
        let binding = bind(code, modifiers);
        match binding {
            Binding::Down | Binding::Up | Binding::PageDown | Binding::PageUp
            | Binding::LastRecord | Binding::LastField => self.key_motion(binding),
            Binding::Lock | Binding::Unlock => self.key_lock(binding),
            Binding::PrefixY | Binding::PrefixO | Binding::PrefixOn | Binding::PrefixOff => {
                self.key_prefix(binding)
            },
            Binding::Letter(target) => self.key_letter(target),
            Binding::Digit(_) | Binding::Zero => self.key_count(binding),
            Binding::NextType | Binding::PrevType => self.key_type(binding),
            Binding::CommandLine | Binding::ShiftBackward | Binding::PrevField
            | Binding::Unbound => self.key_other(binding),
        }
    }
}

/// Work that the engine asks its host to do: the engine itself touches no
/// file. The host does the work and reports back through the method named
/// with each variant.
#[derive(Debug)]
pub enum Effect {
    /// Nothing to do.
    Nothing,
    /// Leave the explorer.
    Quit,
    /// Write `text` as the preset `name`; with `keep_existing`, only where
    /// no such preset exists. Report with `preset_write_done`, or with
    /// `preset_write_refused` where an existing preset was kept.
    SavePreset { name: String, keep_existing: bool, text: String },
    /// Read the preset `name`. Report with `preset_read_done`.
    LoadPreset { name: String },
    /// Read the records of the file at `path`. Report with
    /// `file_read_done`.
    OpenFile { path: String },
    /// Write `text` as the settings file. Report with
    /// `settings_write_done`.
    SaveSettings { text: String },
}

impl View for Effect {
    type V = EffectView;

    open spec fn view(&self) -> EffectView {
        match *self {
            Effect::Nothing => EffectView::Nothing,
            Effect::Quit => EffectView::Quit,
            Effect::SavePreset { name, keep_existing, text } => EffectView::SavePreset {
                name: name@,
                keep_existing,
                text: text@,
            },
            Effect::LoadPreset { name } => EffectView::LoadPreset { name: name@ },
            Effect::OpenFile { path } => EffectView::OpenFile { path: path@ },
            Effect::SaveSettings { text } => EffectView::SaveSettings { text: text@ },
        }
    }
}

/// The verb that a word denotes.
pub fn parse_verb(word: &[char]) -> (verb: Verb)
    ensures
        verb == verb_of(word@),
{
    if chars_are(word, "w") || chars_are(word, "write") {
        Verb::Write
    } else if chars_are(word, "w!") || chars_are(word, "write!") {
        Verb::WriteForce
    } else if chars_are(word, "p") || chars_are(word, "preset") {
        Verb::Preset
    } else if chars_are(word, "e") || chars_are(word, "o") || chars_are(word, "open") || chars_are(
        word,
        "edit",
    ) {
        Verb::Open
    } else if chars_are(word, "clear") {
        Verb::Clear
    } else if chars_are(word, "s") || chars_are(word, "save") {
        Verb::Save
    } else if chars_are(word, "q") || chars_are(word, "quit") {
        Verb::Quit
    } else {
        Verb::Unknown
    }
}

/// Splits a command line without white space at its ends into its verb and
/// its argument.
pub fn split_command(command: &[char]) -> (parts: (Vec<char>, Option<String>))
    ensures
        parts.0@ == command_verb(command@),
        text_of(parts.1) == command_argument(command@),
{
    let n = command.len();
    let mut e: usize = 0;
    while e < n && !is_whitespace(command[e])
        invariant
            e <= n,
            n == command@.len(),
            next_space(command@, 0) == next_space(command@, e as int),
        decreases n - e,
    {
        e = e + 1;
    }
    let mut a: usize = e;
    while a < n && is_whitespace(command[a])
        invariant
            e <= a <= n,
            n == command@.len(),
            next_word(command@, e as int) == next_word(command@, a as int),
        decreases n - a,
    {
        a = a + 1;
    }
    let verb = copy_range(command, 0, e);
    assert(command@.take(e as int) =~= command@.subrange(0, e as int));
    let argument = if a < n {
        let mut text = String::new();
        push_chars(&mut text, command, a, n);
        assert(command@.skip(a as int) =~= command@.subrange(a as int, n as int));
        Some(text)
    } else {
        None
    };
    (verb, argument)
}

impl InteractiveState {
    /// The name that a write or preset command acts on: its argument, or
    /// else the loaded preset.
    fn target_name(&self, argument: &Option<String>) -> (name: Option<String>)
        ensures
            text_of(name) == self@.target_name(text_of(*argument)),
    {
        match argument {
            Some(name) => Some(name.clone()),
            None => self.current_preset.clone(),
        }
    }

    /// A write command.
    pub fn cmd_write(&mut self, argument: Option<String>, force: bool) -> (effect: Effect)
        ensures
            final(self)@ == old(self)@.write_command(text_of(argument), force).0,
            effect@ == old(self)@.write_command(text_of(argument), force).1,
    {
        match self.target_name(&argument) {
            Some(name) => Effect::SavePreset {
                name,
                keep_existing: !force,
                text: preset_file_text(self.locked_fields.fields().as_slice()),
            },
            None => {
                self.message = Some(write_usage_message(force));
                Effect::Nothing
            },
        }
    }

    /// A preset command.
    pub fn cmd_preset(&mut self, argument: Option<String>) -> (effect: Effect)
        ensures
            match old(self)@.target_name(text_of(argument)) {
                Some(name) => final(self)@ == old(self)@ && effect@ == (EffectView::LoadPreset {
                    name,
                }),
                None => final(self)@ == old(self)@.told(crate::messages::preset_usage_text())
                    && effect@ == EffectView::Nothing,
            },
    {
        match self.target_name(&argument) {
            Some(name) => Effect::LoadPreset { name },
            None => {
                self.message = Some(String::from_str("No preset loaded. Usage: :p <preset_name>"));
                Effect::Nothing
            },
        }
    }

    /// An open command.
    pub fn cmd_open(&mut self, argument: Option<String>) -> (effect: Effect)
        ensures
            match text_of(argument) {
                Some(path) => final(self)@ == old(self)@ && effect@ == (EffectView::OpenFile {
                    path,
                }),
                None => final(self)@ == old(self)@.told(crate::messages::open_usage_text())
                    && effect@ == EffectView::Nothing,
            },
    {
        match argument {
            Some(path) => Effect::OpenFile { path },
            None => {
                self.message = Some(String::from_str("Usage: :e <filename>"));
                Effect::Nothing
            },
        }
    }

    /// Runs the command line and leaves it. The first word is the verb,
    /// what follows it the argument: `w`/`write` and `w!`/`write!` save the
    /// locked fields, `p`/`preset` loads a preset, `e`/`o`/`open`/`edit`
    /// opens a file, `clear` empties the locked fields, `s`/`save` saves the
    /// settings, `q`/`quit` leaves. Any other verb changes nothing but the
    /// status text.
    pub fn execute_command(&mut self) -> (effect: Effect)
        ensures
            final(self)@ == old(self)@.executed().0,
            effect@ == old(self)@.executed().1,
    {
        let command = trim(self.command_buffer.as_slice());
        self.command_buffer.clear();
        self.command_mode = false;
        if command.len() == 0 {
            return Effect::Nothing;
        }
        let (verb, argument) = split_command(command.as_slice());
        match parse_verb(verb.as_slice()) {
            Verb::Write => self.cmd_write(argument, false),
            Verb::WriteForce => self.cmd_write(argument, true),
            Verb::Preset => self.cmd_preset(argument),
            Verb::Open => self.cmd_open(argument),
            Verb::Clear => {
                self.locked_fields.clear();
                self.message = Some(String::from_str("Cleared all locked fields"));
                Effect::Nothing
            },
            Verb::Save => Effect::SaveSettings {
                text: settings_file_text(self.wrap_mode, self.frequency_mode),
            },
            Verb::Quit => Effect::Quit,
            Verb::Unknown => {
                let word = string_from_chars(verb.as_slice());
                self.message = Some(unknown_command_message(word.as_str()));
                Effect::Nothing
            },
        }
    }

    /// Handles a key on the command line: Enter runs the line, Escape
    /// leaves it, Backspace takes the last character back, a character is
    /// added, any other key does nothing. Returns nothing, and changes
    /// nothing, where the command line is not open.
    pub fn handle_command_input(&mut self, code: KeyCode) -> (effect: Option<Effect>)
        ensures
            effect.is_some() == old(self)@.command_mode,
            !old(self)@.command_mode ==> final(self)@ == old(self)@,
            effect matches Some(e) ==> final(self)@ == old(self)@.command_step(code).0 && e@
                == old(self)@.command_step(code).1,
    {
        if !self.command_mode {
            return None;
        }
        match code {
            KeyCode::Enter => Some(self.execute_command()),
            KeyCode::Esc => {
                self.command_mode = false;
                self.command_buffer.clear();
                self.message = None;
                Some(Effect::Nothing)
            },
            KeyCode::Backspace => {
                if self.command_buffer.len() > 0 {
                    self.command_buffer.pop();
                }
                Some(Effect::Nothing)
            },
            KeyCode::Char(c) => {
                self.command_buffer.push(c);
                Some(Effect::Nothing)
            },
            _ => Some(Effect::Nothing),
        }
    }

    /// Handles a key event: on the command line where that is open, and
    /// else in normal mode.
    pub fn handle_event(&mut self, code: KeyCode, modifiers: KeyModifiers) -> (effect: Effect)
        ensures
            final(self)@ == old(self)@.event_step(code, modifiers).0,
            effect@ == old(self)@.event_step(code, modifiers).1,
    {
        match self.handle_command_input(code) {
            Some(effect) => effect,
            None => {
                self.handle_key(code, modifiers);
                Effect::Nothing
            },
        }
    }

    /// Sets the status text.
    pub fn set_message(&mut self, text: String)
        ensures
            final(self)@ == old(self)@.told(text@),
    {
        self.message = Some(text);
    }

    /// The host has written the preset `name`, or failed with the given
    /// error text.
    pub fn preset_write_done(&mut self, name: &str, result: Result<(), String>)
        ensures
            final(self)@ == old(self)@.told(
                match result {
                    Ok(_) => crate::messages::saved_text(name@),
                    Err(e) => e@,
                },
            ),
    {
        self.message = Some(
            match result {
                Ok(_) => saved_message(name),
                Err(e) => e,
            },
        );
    }

    /// The host has kept the existing preset `name`.
    pub fn preset_write_refused(&mut self, name: &str)
        ensures
            final(self)@ == old(self)@.told(crate::messages::exists_text(name@)),
    {
        self.message = Some(exists_message(name));
    }

    /// Replaces the locked fields by those that the text of a preset
    /// holds: one for every line that holds a field, none lost and none of
    /// the old kept, sorted by offset whatever the order of the lines. A
    /// text with a faulty line leaves them as they were.
    pub fn load_preset(&mut self, text: &str) -> (r: Result<usize, PresetError>)
        ensures
            match r {
                Ok(n) => {
                    &&& crate::lockfile::parsed_text(text@) matches Ok(fields) && n
                        == fields.len() && final(self)@ == (StateView {
                        locked_fields: crate::locks::sorted_by_offset(fields),
                        ..old(self)@
                    })
                    &&& crate::locks::sorted(final(self)@.locked_fields)
                    &&& crate::locks::positive(final(self)@.locked_fields)
                    &&& final(self)@.locked_fields.len() == n
                    &&& crate::lockfile::parsed_text(text@) matches Ok(fields)
                        && fields.to_multiset() == final(self)@.locked_fields.to_multiset()
                },
                Err(e) => final(self)@ == old(self)@ && crate::lockfile::parsed_text(text@)
                    == Err::<Seq<crate::locks::LockedField>, PresetError>(e),
            },
    {
        self.locked_fields.deserialize(text)
    }

    /// The host has read the preset `name`: `content` is its text, or the
    /// error text.
    pub fn preset_read_done(&mut self, name: &str, content: Result<String, String>)
        ensures
            final(self)@ == match content {
                Ok(text) => old(self)@.preset_loaded(name@, text@),
                Err(e) => old(self)@.told(e@),
            },
    {
        match content {
            Ok(text) => match self.load_preset(text.as_str()) {
                Ok(n) => {
                    self.current_preset = Some(String::from_str(name));
                    self.message = Some(loaded_message(name, n));
                },
                Err(e) => {
                    self.message = Some(String::from_str(e.message()));
                },
            },
            Err(e) => {
                self.message = Some(e);
            },
        }
    }

    /// The host has read the preset `name` that was detected at the start:
    /// `content` is its text, or the error text. Where the preset cannot be
    /// had or has a faulty line, nothing changes but the status text.
    pub fn auto_preset_done(&mut self, name: &str, content: Result<String, String>)
        ensures
            final(self)@ == match content {
                Ok(text) => old(self)@.auto_preset_loaded(name@, text@),
                Err(e) => old(self)@.auto_preset_failed(name@, e@),
            },
    {
        match content {
            Ok(text) => match self.load_preset(text.as_str()) {
                Ok(_) => {
                    self.current_preset = Some(String::from_str(name));
                    self.message = Some(auto_loaded_message(name));
                },
                Err(e) => {
                    self.message = Some(auto_failed_message(name, e.message()));
                },
            },
            Err(e) => {
                self.message = Some(auto_failed_message(name, e.as_str()));
            },
        }
    }

    /// The host has read the records of the file at `path`, or failed with
    /// the given error text.
    pub fn file_read_done(&mut self, path: &str, result: Result<Vec<Vec<u8>>, String>)
        ensures
            final(self)@ == match result {
                Ok(records) => old(self)@.file_opened(path@, views(records@)),
                Err(e) => old(self)@.told(e@),
            },
    {
        match result {
            Ok(records) => {
                let count = records.len();
                self.records = records;
                self.current_record = 0;
                self.scroll_offset = 0;
                self.field_offset = 0;
                self.current_field = 0;
                self.compute_frequencies();
                self.message = Some(opened_message(path, count));
            },
            Err(e) => {
                self.message = Some(e);
            },
        }
    }

    /// The host has written the settings file at the given path, or failed
    /// with the given error text.
    pub fn settings_write_done(&mut self, result: Result<String, String>)
        ensures
            final(self)@ == old(self)@.told(
                match result {
                    Ok(path) => crate::messages::settings_saved_text(path@),
                    Err(e) => e@,
                },
            ),
    {
        self.message = Some(
            match result {
                Ok(path) => settings_saved_message(path.as_str()),
                Err(e) => e,
            },
        );
    }

    /// Takes note of the size that the record view was laid out in.
    pub fn resize(&mut self, width: usize, height: usize)
        ensures
            final(self)@ == old(self)@.resized(width as nat, height as nat),
    {
        self.terminal_width = width;
        self.visible_records = height;
    }
}

impl InteractiveState {
    /// The loaded records.
    pub fn records(&self) -> (r: &Vec<Vec<u8>>)
        ensures
            views(r@) == self@.records,
    {
        &self.records
    }

    /// The index of the cursor's record.
    pub fn current_record(&self) -> (r: usize)
        ensures
            r == self@.current_record,
    {
        self.current_record
    }

    /// The byte at which the field layout starts.
    pub fn field_offset(&self) -> (r: usize)
        ensures
            r == self@.field_offset,
    {
        self.field_offset
    }

    /// The stored field index of the cursor.
    pub fn current_field(&self) -> (r: usize)
        ensures
            r == self@.current_field,
    {
        self.current_field
    }

    /// The selected field type.
    pub fn current_type(&self) -> (r: DataType)
        ensures
            r == self@.current_type,
    {
        self.current_type
    }

    /// The locked fields.
    pub fn locked_fields(&self) -> (r: &LockRegistry)
        ensures
            r@ == self@.locked_fields,
    {
        &self.locked_fields
    }

    /// The index of the first record shown.
    pub fn scroll_offset(&self) -> (r: usize)
        ensures
            r == self@.scroll_offset,
    {
        self.scroll_offset
    }

    /// The number of records shown.
    pub fn visible_records(&self) -> (r: usize)
        ensures
            r == self@.visible_records,
    {
        self.visible_records
    }

    /// The status text.
    pub fn message(&self) -> (r: &Option<String>)
        ensures
            text_of(*r) == self@.message,
    {
        &self.message
    }

    /// Whether the command line is open.
    pub fn command_mode(&self) -> (r: bool)
        ensures
            r == self@.command_mode,
    {
        self.command_mode
    }

    /// The characters typed on the command line.
    pub fn command_buffer(&self) -> (r: &Vec<char>)
        ensures
            r@ == self@.command_buffer,
    {
        &self.command_buffer
    }

    /// The name of the loaded preset.
    pub fn current_preset(&self) -> (r: &Option<String>)
        ensures
            text_of(*r) == self@.current_preset,
    {
        &self.current_preset
    }

    /// The digits typed for the next count.
    pub fn count_buffer(&self) -> (r: &Vec<char>)
        ensures
            r@ == self@.count_buffer,
    {
        &self.count_buffer
    }

    /// Whether fields are coloured by frequency.
    pub fn frequency_mode(&self) -> (r: bool)
        ensures
            r == self@.frequency_mode,
    {
        self.frequency_mode
    }

    /// The frequency table as it was last built.
    pub fn frequencies(&self) -> (r: &ByteFrequencyTable)
        ensures
            r@ == self@.frequency_source,
    {
        &self.byte_frequencies
    }

    /// The command that has begun.
    pub fn pending(&self) -> (r: PendingPrefix)
        ensures
            r == self@.pending,
    {
        self.pending
    }

    /// Whether rows are wrapped.
    pub fn wrap_mode(&self) -> (r: bool)
        ensures
            r == self@.wrap_mode,
    {
        self.wrap_mode
    }

    /// The horizontal scroll, in fields.
    pub fn horizontal_scroll(&self) -> (r: usize)
        ensures
            r == self@.horizontal_scroll,
    {
        self.horizontal_scroll
    }

    /// The width that the record view was last laid out in.
    pub fn terminal_width(&self) -> (r: usize)
        ensures
            r == self@.terminal_width,
    {
        self.terminal_width
    }

    /// Whether locked fields are shown.
    pub fn show_locks(&self) -> (r: bool)
        ensures
            r == self@.show_locks,
    {
        self.show_locks
    }

    /// Whether the gutter is shown.
    pub fn show_gutter(&self) -> (r: bool)
        ensures
            r == self@.show_gutter,
    {
        self.show_gutter
    }
}

} // verus!
