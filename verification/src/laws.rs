//! What holds of the engine over all its states: the count is never zero,
//! the cursor stays on a record and in the window, locked fields stay
//! sorted and free of overlaps.

use crate::keys::{Binding, KeyCode, ToggleTarget};
use crate::locks::{
    disjoint, lemma_filter_sorted, lemma_inserted_sorted, lemma_lock_keeps_disjoint,
    lemma_sorted_by_offset, lemma_unlock_keeps_disjoint, LockOutcome, LockedField,
};
use crate::model::{count_value, StateView};
use vstd::prelude::*;

verus! {

/// The repeat count is never zero: an empty buffer stands for one, and so
/// does every buffer that is no number or holds zero.
pub proof fn lemma_count_at_least_one(buffer: Seq<char>)
    ensures
        count_value(buffer) >= 1,
        buffer.len() == 0 ==> count_value(buffer) == 1,
        crate::scan::parse_unsigned(buffer, usize::MAX as nat).is_none() ==> count_value(buffer)
            == 1,
{
}

/// The state in which the engine starts meets the invariant, and its
/// locked fields are free of overlaps.
pub proof fn lemma_initial_inv(records: Seq<Seq<u8>>)
    ensures
        StateView::initial(records).inv(),
        disjoint(StateView::initial(records).locked_fields),
{
}

/// Moving the cursor keeps the invariant.
pub proof fn lemma_moves_keep_inv(s: StateView, count: nat)
    requires
        s.inv(),
    ensures
        s.settled().inv(),
        s.unprefixed().inv(),
        s.moved_down(count).inv(),
        s.moved_up(count).inv(),
        s.jumped_to_start().inv(),
        s.jumped_to_end().inv(),
        s.next_field().inv(),
        s.prev_field().inv(),
        s.last_field().inv(),
        s.shifted_forward().inv(),
        s.shifted_backward().inv(),
{
}

/// Selecting a type and setting a mode keep the invariant.
pub proof fn lemma_settings_keep_inv(
    s: StateView,
    data_type: crate::datatype::DataType,
    target: crate::keys::ToggleTarget,
    on: bool,
)
    requires
        s.inv(),
    ensures
        s.with_type(data_type).inv(),
        s.with_mode(target, on).inv(),
{
}

/// Locking and unlocking keep the invariant.
pub proof fn lemma_locking_keeps_inv(s: StateView, count: nat)
    requires
        s.inv(),
        count >= 1,
    ensures
        s.locked(count).inv(),
        s.unlocked().inv(),
{
    if let LockOutcome::Locked(field) = s.lock_result(count) {
        lemma_inserted_sorted(s.locked_fields, field);
    }
    crate::locks::lemma_lock_keeps_positive(
        s.locked_fields,
        s.cursor_byte() as usize,
        s.current_type,
        count,
        s.record_len() as usize,
    );
    lemma_filter_sorted(s.locked_fields, |f: LockedField| !f.covers(s.cursor_byte() as int));
    crate::locks::lemma_filter_positive(
        s.locked_fields,
        |f: LockedField| !f.covers(s.cursor_byte() as int),
    );
}

proof fn lemma_motion_key_keeps_inv(s: StateView, binding: Binding)
    requires
        s.inv(),
        binding is Down || binding is Up || binding is PageDown || binding is PageUp
            || binding is LastRecord || binding is LastField,
    ensures
        s.key_step(binding).inv(),
{
    let t = s.settled();
    assert(t.inv());
    lemma_moves_keep_inv(t, s.count());
    lemma_moves_keep_inv(t, s.visible_records / 2);
}

proof fn lemma_lock_key_keeps_inv(s: StateView, binding: Binding)
    requires
        s.inv(),
        binding is Lock || binding is Unlock,
    ensures
        s.key_step(binding).inv(),
{
    let t = s.settled();
    assert(t.inv());
    lemma_locking_keeps_inv(t, s.count());
}

proof fn lemma_letter_key_keeps_inv(s: StateView, target: ToggleTarget)
    requires
        s.inv(),
    ensures
        s.key_step(Binding::Letter(target)).inv(),
{
    let u = s.unprefixed();
    let t = s.settled();
    assert(u.inv());
    assert(t.inv());
    if s.awaits_mode_letter() {
        lemma_settings_keep_inv(s, s.current_type, target, s.toggled_value(target));
    } else {
        lemma_moves_keep_inv(u, 0);
        lemma_moves_keep_inv(t, 0);
    }
}

proof fn lemma_type_key_keeps_inv(s: StateView, binding: Binding)
    requires
        s.inv(),
        binding is NextType || binding is PrevType,
    ensures
        s.key_step(binding).inv(),
{
    let u = s.unprefixed();
    assert(u.inv());
    lemma_settings_keep_inv(u, s.current_type.successor(), ToggleTarget::Wrap, true);
    lemma_settings_keep_inv(u, s.current_type.predecessor(), ToggleTarget::Wrap, true);
}

proof fn lemma_plain_key_keeps_inv(s: StateView, binding: Binding)
    requires
        s.inv(),
        !(binding is Down || binding is Up || binding is PageDown || binding is PageUp
            || binding is LastRecord || binding is LastField || binding is Lock
            || binding is Unlock || binding is Letter || binding is NextType
            || binding is PrevType),
    ensures
        s.key_step(binding).inv(),
{
    match binding {
        Binding::CommandLine => {
            assert(s.key_step(Binding::CommandLine).inv());
        },
        Binding::ShiftBackward => {
            assert(s.key_step(Binding::ShiftBackward).inv());
        },
        Binding::PrevField => {
            assert(s.key_step(Binding::PrevField).inv());
        },
        Binding::Digit(c) => {
            assert(s.key_step(Binding::Digit(c)).inv());
        },
        Binding::Zero => {
            assert(s.key_step(Binding::Zero).inv());
        },
        Binding::PrefixY => {
            assert(s.key_step(Binding::PrefixY).inv());
        },
        Binding::PrefixO => {
            assert(s.key_step(Binding::PrefixO).inv());
        },
        Binding::PrefixOn => {
            assert(s.key_step(Binding::PrefixOn).inv());
        },
        Binding::PrefixOff => {
            assert(s.key_step(Binding::PrefixOff).inv());
        },
        _ => {
            assert(binding is Unbound);
            assert(s.key_step(Binding::Unbound).inv());
        },
    }
}

/// Every key in normal mode keeps the invariant.
pub proof fn lemma_key_keeps_inv(s: StateView, binding: Binding)
    requires
        s.inv(),
    ensures
        s.key_step(binding).inv(),
{
    match binding {
        Binding::Down | Binding::Up | Binding::PageDown | Binding::PageUp | Binding::LastRecord
        | Binding::LastField => lemma_motion_key_keeps_inv(s, binding),
        Binding::Lock | Binding::Unlock => lemma_lock_key_keeps_inv(s, binding),
        Binding::Letter(target) => lemma_letter_key_keeps_inv(s, target),
        Binding::NextType | Binding::PrevType => lemma_type_key_keeps_inv(s, binding),
        _ => lemma_plain_key_keeps_inv(s, binding),
    }
}

/// Moving the cursor keeps its record in the window.
pub proof fn lemma_moves_keep_cursor_visible(s: StateView, count: nat)
    requires
        s.inv(),
        s.visible_records > 0,
        s.cursor_visible(),
    ensures
        s.moved_down(count).cursor_visible(),
        s.moved_up(count).cursor_visible(),
        s.jumped_to_start().cursor_visible(),
        s.jumped_to_end().cursor_visible(),
{
}

/// Every key in normal mode leaves the cursor on a record, where there is
/// one.
pub proof fn lemma_key_keeps_cursor_on_a_record(s: StateView, binding: Binding)
    requires
        s.records.len() > 0,
        s.current_record < s.records.len(),
    ensures
        s.key_step(binding).records == s.records,
        s.key_step(binding).current_record < s.records.len(),
{
}

/// A key that moves the cursor between records keeps its record in the
/// window.
proof fn lemma_motion_key_keeps_cursor_visible(s: StateView, binding: Binding)
    requires
        s.inv(),
        s.visible_records > 0,
        s.cursor_visible(),
        binding is Down || binding is Up || binding is PageDown || binding is PageUp
            || binding is LastRecord || binding is Letter,
    ensures
        s.key_step(binding).cursor_visible(),
{
    let t = s.settled();
    assert(t.inv() && t.cursor_visible());
    match binding {
        Binding::Down => {
            lemma_moves_keep_cursor_visible(t, s.count());
        },
        Binding::Up => {
            lemma_moves_keep_cursor_visible(t, s.count());
        },
        Binding::PageDown => {
            lemma_moves_keep_cursor_visible(t, s.visible_records / 2);
        },
        Binding::PageUp => {
            lemma_moves_keep_cursor_visible(t, s.visible_records / 2);
        },
        _ => {
            lemma_moves_keep_cursor_visible(t, 0);
        },
    }
}

/// Every key in normal mode leaves the cursor's record in the window of
/// records shown, where the window has a row and held the cursor before.
pub proof fn lemma_key_keeps_cursor_visible(s: StateView, binding: Binding)
    requires
        s.inv(),
        s.visible_records > 0,
        s.cursor_visible(),
    ensures
        s.key_step(binding).cursor_visible(),
{
    match binding {
        Binding::Down | Binding::Up | Binding::PageDown | Binding::PageUp | Binding::LastRecord
        | Binding::Letter(_) => {
            lemma_motion_key_keeps_cursor_visible(s, binding);
        },
        Binding::CommandLine => {
            assert(s.key_step(Binding::CommandLine).cursor_visible());
        },
        Binding::NextType => {
            assert(s.key_step(Binding::NextType).cursor_visible());
        },
        Binding::PrevType => {
            assert(s.key_step(Binding::PrevType).cursor_visible());
        },
        Binding::ShiftBackward => {
            assert(s.key_step(Binding::ShiftBackward).cursor_visible());
        },
        Binding::PrevField => {
            assert(s.key_step(Binding::PrevField).cursor_visible());
        },
        Binding::Digit(c) => {
            assert(s.key_step(Binding::Digit(c)).cursor_visible());
        },
        Binding::Zero => {
            assert(s.key_step(Binding::Zero).cursor_visible());
        },
        Binding::LastField => {
            assert(s.key_step(Binding::LastField).cursor_visible());
        },
        Binding::Lock => {
            assert(s.key_step(Binding::Lock).cursor_visible());
        },
        Binding::Unlock => {
            assert(s.key_step(Binding::Unlock).cursor_visible());
        },
        Binding::PrefixY => {
            assert(s.key_step(Binding::PrefixY).cursor_visible());
        },
        Binding::PrefixO => {
            assert(s.key_step(Binding::PrefixO).cursor_visible());
        },
        Binding::PrefixOn => {
            assert(s.key_step(Binding::PrefixOn).cursor_visible());
        },
        Binding::PrefixOff => {
            assert(s.key_step(Binding::PrefixOff).cursor_visible());
        },
        Binding::Unbound => {
            assert(s.key_step(Binding::Unbound).cursor_visible());
        },
    }
}

/// After a move down, and after a jump to either end, the cursor's record
/// is in the window whether or not it was before, where the window has a
/// row.
pub proof fn lemma_move_down_shows_cursor(s: StateView, count: nat)
    requires
        s.inv(),
        s.visible_records > 0,
    ensures
        s.moved_down(count).cursor_visible(),
        s.jumped_to_end().cursor_visible(),
        s.jumped_to_start().cursor_visible(),
{
}

/// Every key in normal mode leaves locked fields that were free of
/// overlaps free of overlaps.
pub proof fn lemma_key_keeps_disjoint(s: StateView, binding: Binding)
    requires
        disjoint(s.locked_fields),
    ensures
        disjoint(s.key_step(binding).locked_fields),
{
    match binding {
        Binding::Lock => {
            let t = s.settled();
            lemma_lock_keeps_disjoint(
                t.locked_fields,
                t.cursor_byte() as usize,
                t.current_type,
                s.count(),
                t.record_len() as usize,
            );
        },
        Binding::Unlock => {
            let t = s.settled();
            lemma_unlock_keeps_disjoint(t.locked_fields, t.cursor_byte() as int);
        },
        _ => {},
    }
}

/// Every key on the command line keeps the invariant.
pub proof fn lemma_command_keeps_inv(s: StateView, code: KeyCode)
    requires
        s.inv(),
    ensures
        s.command_step(code).0.inv(),
{
}

/// Reading a preset and opening a file keep the invariant.
pub proof fn lemma_loading_keeps_inv(
    s: StateView,
    name: Seq<char>,
    text: Seq<char>,
    records: Seq<Seq<u8>>,
)
    requires
        s.inv(),
    ensures
        s.preset_loaded(name, text).inv(),
        s.auto_preset_loaded(name, text).inv(),
        s.file_opened(name, records).inv(),
{
    if let Ok(fields) = crate::lockfile::parsed_text(text) {
        lemma_sorted_by_offset(fields);
        crate::lockfile::lemma_parsed_positive(crate::scan::lines(text));
        crate::locks::lemma_sorted_by_offset_positive(fields);
    }
}

/// Round trip: loading the preset file that was written for the locked
/// fields leaves the locked fields as they are.
pub proof fn lemma_saved_preset_loads_back(s: StateView, name: Seq<char>)
    requires
        s.inv(),
    ensures
        s.preset_loaded(name, crate::lockfile::file_text(s.locked_fields)).locked_fields
            == s.locked_fields,
        s.preset_loaded(name, crate::lockfile::file_text(s.locked_fields)).current_preset == Some(
            name,
        ),
{
    crate::lockfile::lemma_file_round_trip(s.locked_fields);
    crate::locks::lemma_sorted_stays(s.locked_fields);
}

/// A preset whose every line holds a field loads, whatever the order of
/// its lines: the locked fields are then the fields of the lines, none lost
/// and none of the old kept, sorted by offset, and the preset counts as
/// loaded.
pub proof fn lemma_preset_of_fields_loads_sorted(
    s: StateView,
    name: Seq<char>,
    text: Seq<char>,
    fields: Seq<LockedField>,
)
    requires
        crate::scan::lines(text).len() == fields.len(),
        forall|i: int|
            0 <= i < fields.len() ==> crate::lockfile::parsed_line(
                #[trigger] crate::scan::lines(text)[i],
            ) == Some(Ok::<LockedField, crate::lockfile::PresetError>(fields[i])),
    ensures
        crate::lockfile::parsed_text(text) == Ok::<Seq<LockedField>, crate::lockfile::PresetError>(
            fields,
        ),
        s.preset_loaded(name, text).locked_fields == crate::locks::sorted_by_offset(fields),
        crate::locks::sorted(s.preset_loaded(name, text).locked_fields),
        s.preset_loaded(name, text).locked_fields.len() == fields.len(),
        s.preset_loaded(name, text).locked_fields.to_multiset() == fields.to_multiset(),
        s.preset_loaded(name, text).current_preset == Some(name),
{
    crate::lockfile::lemma_field_lines_parse(crate::scan::lines(text), fields);
    lemma_sorted_by_offset(fields);
}

/// The same of fields as they are written, one to the line as
/// `offset length type`, in any order of their offsets.
pub proof fn lemma_written_fields_load_sorted(
    s: StateView,
    name: Seq<char>,
    fields: Seq<LockedField>,
)
    requires
        crate::locks::positive(fields),
    ensures
        s.preset_loaded(name, crate::lockfile::field_lines(fields)).locked_fields
            == crate::locks::sorted_by_offset(fields),
        crate::locks::sorted(
            s.preset_loaded(name, crate::lockfile::field_lines(fields)).locked_fields,
        ),
        s.preset_loaded(name, crate::lockfile::field_lines(fields)).locked_fields.to_multiset()
            == fields.to_multiset(),
{
    crate::lockfile::lemma_serialize_round_trip(fields);
    lemma_sorted_by_offset(fields);
}

} // verus!
