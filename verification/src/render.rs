//! The render model: the rows of field cells that a state is drawn as. It is
//! a function of the state and the size of the view, and changes nothing.
//!
//! Each record row is walked from the scrolled start byte. A position
//! inside a locked field shows that field under its own type and the walk
//! goes on behind it; where several locked fields hold the position, the
//! first in offset order is shown. A field of the selected type that starts
//! before a locked field and reaches into it is marked as overflowing and
//! is not decoded.
//! Bytes at the end of a record that are too few for a field are counted
//! in a trailing marker.

use crate::datatype::DataType;
use crate::frequency::{tier_in, FrequencyTier};
use crate::interactive::InteractiveState;
use crate::locks::{covering, LockedField};
use crate::model::StateView;
use crate::text::{
    decimal, decimal_digits, decimal_string, decimal_width, pad_left, pad_left_string, push_chars,
    push_decimal, push_decimal_successor,
};
use vstd::prelude::*;
use vstd::slice::slice_subrange;
use vstd::string::*;

verus! {

/// How a field cell is drawn. Where several apply, the first in this order
/// wins.
#[derive(Debug, Clone, Copy, PartialEq, Eq, Structural)]
pub enum CellStyle {
    /// A field of the selected type that reaches into a locked field.
    Overflow,
    /// The cursor's field.
    Cursor,
    /// A locked field.
    Locked,
    /// A field of the cursor's record in frequency mode, by the tier of
    /// its first byte.
    Frequency(FrequencyTier),
    /// A field of the cursor's record.
    Active,
    /// A field of another record.
    Dimmed,
}

/// A field cell as plain values.
pub struct CellView {
    pub text: Seq<char>,
    pub style: CellStyle,
}

/// A field cell: the decoded value, right-aligned to the width of its
/// type, and its style.
#[derive(Debug)]
pub struct FieldCell {
    pub text: String,
    pub style: CellStyle,
}

impl View for FieldCell {
    type V = CellView;

    open spec fn view(&self) -> CellView {
        CellView { text: self.text@, style: self.style }
    }
}

/// The marker for bytes at the end of a record that are too few for a
/// field: how many they are, and whether the cursor is on them.
#[derive(Debug, Clone, Copy, PartialEq, Eq, Structural)]
pub struct Trailing {
    pub remaining: usize,
    pub cursor: bool,
}

/// The cells of a row from some position on, as plain values.
pub struct RowTail {
    pub cells: Seq<CellView>,
    pub trailing: Option<Trailing>,
}

/// A record row as plain values.
pub struct RowView {
    pub index: nat,
    pub current: bool,
    pub number: Seq<char>,
    pub gutter: nat,
    pub cells: Seq<CellView>,
    pub trailing: Option<Trailing>,
}

/// A record row: the record's index, whether the cursor is on it, the
/// index as text right-aligned to the widest index, the number of blanks
/// before the fields, the field cells, and the trailing marker.
#[derive(Debug)]
pub struct RecordRow {
    pub index: usize,
    pub current: bool,
    pub number: String,
    pub gutter: usize,
    pub cells: Vec<FieldCell>,
    pub trailing: Option<Trailing>,
}

/// The views of a list of cells.
pub open spec fn cell_views(cells: Seq<FieldCell>) -> Seq<CellView> {
    Seq::new(cells.len(), |i: int| cells[i]@)
}

impl View for RecordRow {
    type V = RowView;

    open spec fn view(&self) -> RowView {
        RowView {
            index: self.index as nat,
            current: self.current,
            number: self.number@,
            gutter: self.gutter as nat,
            cells: cell_views(self.cells@),
            trailing: self.trailing,
        }
    }
}

/// The views of a list of rows.
pub open spec fn row_views(rows: Seq<RecordRow>) -> Seq<RowView> {
    Seq::new(rows.len(), |i: int| rows[i]@)
}

/// Whether some field of the sequence starts behind `start` and before
/// `end`.
pub open spec fn any_starts_within(fields: Seq<LockedField>, start: int, end: int) -> bool {
    exists|i: int| 0 <= i < fields.len() && start < (#[trigger] fields[i]).byte_offset < end
}

impl StateView {
    /// The width of the column of record indices: the number of digits of
    /// the record count.
    pub open spec fn number_width(self) -> nat {
        decimal_width(self.records.len())
    }

    /// The number of blanks between a record's index and its fields.
    pub open spec fn gutter(self) -> nat {
        if self.show_gutter {
            2
        } else {
            1
        }
    }

    /// The columns that the record index and the gutter take.
    pub open spec fn prefix_width(self) -> nat {
        self.number_width() + if self.show_gutter {
            3nat
        } else {
            1nat
        }
    }

    /// The number of fields of the selected type that fit in `width`
    /// columns.
    #[verifier::opaque]
    pub open spec fn visible_fields(self, width: nat) -> nat {
        if width <= self.prefix_width() {
            0
        } else {
            ((width - self.prefix_width()) / self.current_type.column_width() as int) as nat
        }
    }

    /// The first field shown: the horizontal scroll keeps the cursor's
    /// field about the middle of the fields shown.
    pub open spec fn first_field(self, width: nat) -> nat {
        let center = self.visible_fields(width) / 2;
        if self.cursor_field() >= center {
            (self.cursor_field() - center) as nat
        } else {
            0
        }
    }

    /// The byte position at which the walk of a row starts.
    #[verifier::opaque]
    pub open spec fn first_byte(self, width: nat) -> nat {
        self.field_offset + self.first_field(width) * self.current_type.unit()
    }

    /// The locked field that is shown at byte position `pos`, if any.
    pub open spec fn lock_at(self, pos: int) -> Option<LockedField> {
        if self.show_locks {
            covering(self.locked_fields, pos)
        } else {
            None
        }
    }

    /// Whether a field of the selected type at `pos` reaches into a locked
    /// field without starting in one.
    pub open spec fn overflows_at(self, pos: int) -> bool {
        self.show_locks && self.lock_at(pos).is_none() && any_starts_within(
            self.locked_fields,
            pos,
            pos + self.current_type.unit(),
        )
    }

    /// The value shown for the bytes of `record` from `start` on, read as
    /// `data_type` and right-aligned to the width of that type.
    pub open spec fn shown_value(record: Seq<u8>, start: int, data_type: DataType) -> Seq<char> {
        pad_left(
            if 0 <= start <= record.len() {
                data_type.decoded(record.skip(start))
            } else {
                Seq::empty()
            },
            data_type.value_width(),
        )
    }

    /// The style of a field cell.
    pub open spec fn style_at(
        self,
        record: Seq<u8>,
        current: bool,
        pos: int,
        field: nat,
    ) -> CellStyle {
        if self.overflows_at(pos) {
            CellStyle::Overflow
        } else if current && field == self.cursor_field() {
            CellStyle::Cursor
        } else if self.lock_at(pos).is_some() {
            CellStyle::Locked
        } else if self.frequency_mode && current {
            CellStyle::Frequency(tier_in(self.frequency_source, pos, record[pos]))
        } else if current {
            CellStyle::Active
        } else {
            CellStyle::Dimmed
        }
    }

    /// The cell drawn at byte position `pos` of `record` as field number
    /// `field` of its row. A field that overflows into a locked field is not
    /// decoded: its cell is blank.
    pub open spec fn cell_at(self, record: Seq<u8>, current: bool, pos: int, field: nat) -> CellView {
        CellView {
            text: if self.overflows_at(pos) {
                pad_left(Seq::empty(), self.current_type.value_width())
            } else {
                match self.lock_at(pos) {
                    Some(lock) => Self::shown_value(
                        record,
                        lock.byte_offset as int,
                        lock.data_type,
                    ),
                    None => Self::shown_value(record, pos, self.current_type),
                }
            },
            style: self.style_at(record, current, pos, field),
        }
    }

    /// The byte position at which the walk goes on behind the cell at
    /// `pos`.
    pub open spec fn next_pos(self, pos: int) -> int {
        match self.lock_at(pos) {
            Some(lock) => lock.end(),
            None => pos + self.current_type.unit(),
        }
    }

    /// The cells of a row from byte position `pos` on, for at most `left`
    /// fields, the first of them numbered `field`.
    pub open spec fn row_from(
        self,
        record: Seq<u8>,
        current: bool,
        pos: int,
        field: nat,
        left: nat,
    ) -> RowTail
        decreases left,
    {
        if left == 0 || pos < 0 {
            RowTail { cells: Seq::empty(), trailing: None }
        } else if pos + self.current_type.unit() > record.len() {
            RowTail {
                cells: Seq::empty(),
                trailing: if pos < record.len() {
                    Some(
                        Trailing {
                            remaining: (record.len() - pos) as usize,
                            cursor: current && field == self.cursor_field(),
                        },
                    )
                } else {
                    None
                },
            }
        } else {
            let rest = self.row_from(record, current, self.next_pos(pos), field + 1, (left - 1) as nat);
            RowTail {
                cells: seq![self.cell_at(record, current, pos, field)] + rest.cells,
                trailing: rest.trailing,
            }
        }
    }

    /// The row of record `index` in a view of `width` columns.
    pub open spec fn row(self, index: nat, width: nat) -> RowView {
        let record = self.records[index as int];
        let current = index == self.current_record;
        let tail = self.row_from(
            record,
            current,
            self.first_byte(width) as int,
            self.first_field(width),
            self.visible_fields(width),
        );
        RowView {
            index,
            current,
            number: pad_left(decimal(index), self.number_width()),
            gutter: self.gutter(),
            cells: tail.cells,
            trailing: tail.trailing,
        }
    }

    /// The number of rows drawn in a view of `height` rows: the records
    /// from the first shown on, as far as the height reaches.
    pub open spec fn row_count(self, height: nat) -> nat {
        if self.scroll_offset >= self.records.len() {
            0
        } else if self.records.len() - self.scroll_offset < height {
            (self.records.len() - self.scroll_offset) as nat
        } else {
            height
        }
    }

    /// The rows drawn in a view of `width` columns and `height` rows.
    pub open spec fn rows(self, width: nat, height: nat) -> Seq<RowView> {
        Seq::new(self.row_count(height), |k: int| self.row((self.scroll_offset + k) as nat, width))
    }
}

/// The value shown for the bytes of `record` from `start` on.
pub fn decode_value(record: &[u8], start: usize, data_type: DataType) -> (s: String)
    ensures
        s@ == if start <= record@.len() {
            data_type.decoded(record@.skip(start as int))
        } else {
            Seq::empty()
        },
{
    if start <= record.len() {
        let data = slice_subrange(record, start, record.len());
        assert(record@.skip(start as int) =~= record@.subrange(start as int, record@.len() as int));
        data_type.decode(data)
    } else {
        String::new()
    }
}

/// A decoded value right-aligned to the width of its type.
pub fn format_field_value(value: &str, data_type: DataType) -> (s: String)
    ensures
        s@ == pad_left(value@, data_type.value_width()),
{
    pad_left_string(value, data_type.format_width())
}

impl InteractiveState {
    /// The number of fields of the selected type that fit in `width`
    /// columns.
    pub fn visible_field_count(&self, width: usize) -> (n: usize)
        ensures
            n == self@.visible_fields(width as nat),
    {
        proof {
            reveal(StateView::visible_fields);
        }
        let number_width = decimal_digits(self.records().len() as u64);
        let prefix = number_width + if self.show_gutter() {
            3
        } else {
            1
        };
        if width <= prefix {
            0
        } else {
            (width - prefix) / self.current_type().display_width()
        }
    }

    /// The first field shown in a view of `width` columns.
    pub fn first_visible_field(&self, width: usize) -> (n: usize)
        ensures
            n == self@.first_field(width as nat),
            n <= self@.cursor_field(),
    {
        let center = self.visible_field_count(width) / 2;
        let cursor = self.cursor_field();
        if cursor >= center {
            cursor - center
        } else {
            0
        }
    }

    /// Whether a field of the selected type at `pos` reaches into a locked
    /// field without starting in one.
    pub fn overflows_into_lock(&self, pos: usize) -> (r: bool)
        requires
            pos + self@.current_type.unit() <= usize::MAX,
        ensures
            r == self@.overflows_at(pos as int),
    {
        if !self.show_locks() {
            return false;
        }
        if self.locked_fields().find_covering(pos).is_some() {
            return false;
        }
        let end = pos + self.current_type().unit_size();
        let fields = self.locked_fields().fields();
        let mut i: usize = 0;
        while i < fields.len()
            invariant
                i <= fields@.len(),
                fields@ == self@.locked_fields,
                self@.show_locks,
                self@.lock_at(pos as int).is_none(),
                end == pos + self@.current_type.unit(),
                forall|k: int|
                    0 <= k < i ==> !(pos < (#[trigger] fields@[k]).byte_offset < end),
            decreases fields@.len() - i,
        {
            if pos < fields[i].byte_offset && fields[i].byte_offset < end {
                assert(pos < fields@[i as int].byte_offset < end);
                return true;
            }
            i = i + 1;
        }
        false
    }

    /// The style of the field cell at byte position `pos` of a record, the
    /// cell being field number `field` of its row.
    pub fn field_style(&self, record: &[u8], current: bool, pos: usize, field_is_cursor: bool) -> (style:
        CellStyle)
        requires
            pos + self@.current_type.unit() <= record@.len(),
        ensures
            forall|field: nat|
                field_is_cursor == (field == self@.cursor_field()) ==> style == self@.style_at(
                    record@,
                    current,
                    pos as int,
                    field,
                ),
    {
        let _len = record.len();
        if self.overflows_into_lock(pos) {
            CellStyle::Overflow
        } else if current && field_is_cursor {
            CellStyle::Cursor
        } else if self.show_locks() && self.locked_fields().find_covering(pos).is_some() {
            CellStyle::Locked
        } else if self.frequency_mode() && current {
            CellStyle::Frequency(self.frequencies().color(pos, record[pos]))
        } else if current {
            CellStyle::Active
        } else {
            CellStyle::Dimmed
        }
    }

    /// The row of record `index` in a view of `width` columns.
    pub fn render_row(&self, index: usize, width: usize) -> (row: RecordRow)
        requires
            index < self@.records.len(),
        ensures
            row@ == self@.row(index as nat, width as nat),
    {
        let records = self.records();
        let record = records[index].as_slice();
        let ghost rec = record@;
        assert(rec == self@.records[index as int]);
        let len = record.len();
        let current = index == self.current_record();
        let data_type = self.current_type();
        let unit = data_type.unit_size();
        let visible = self.visible_field_count(width);
        let first = self.first_visible_field(width);
        let cursor = self.cursor_field();
        let _cursor_byte = self.current_field_byte();
        proof {
            reveal(StateView::cursor_byte);
            reveal(StateView::first_byte);
        }
        assert(first * unit <= cursor * unit) by (nonlinear_arith)
            requires
                first <= cursor,
                unit >= 0,
        ;
        let start = self.field_offset() + first * unit;
        let ghost full = self@.row_from(rec, current, start as int, first as nat, visible as nat);
        let mut cells: Vec<FieldCell> = Vec::new();
        let mut trailing: Option<Trailing> = None;
        let mut pos: usize = start;
        let mut left: usize = visible;
        assert(cell_views(cells@) =~= Seq::<CellView>::empty());
        loop
            invariant_except_break
                left <= visible,
                first <= cursor,
                cursor == self@.cursor_field(),
                unit == self@.current_type.unit(),
                data_type == self@.current_type,
                len == rec.len(),
                rec == record@,
                trailing.is_none(),
                full.cells == cell_views(cells@) + self@.row_from(
                    rec,
                    current,
                    pos as int,
                    (first + (visible - left)) as nat,
                    left as nat,
                ).cells,
                full.trailing == self@.row_from(
                    rec,
                    current,
                    pos as int,
                    (first + (visible - left)) as nat,
                    left as nat,
                ).trailing,
            ensures
                full.cells == cell_views(cells@),
                full.trailing == trailing,
            decreases left,
        {
            let ghost field = (first + (visible - left)) as nat;
            let ghost tail = self@.row_from(rec, current, pos as int, field, left as nat);
            let is_cursor = current && cursor - first == visible - left;
            if left == 0 {
                assert(cell_views(cells@) + tail.cells =~= cell_views(cells@));
                break;
            }
            if len < unit || pos > len - unit {
                if pos < len {
                    trailing = Some(Trailing { remaining: len - pos, cursor: is_cursor });
                }
                assert(cell_views(cells@) + tail.cells =~= cell_views(cells@));
                break;
            }
            let lock = if self.show_locks() {
                self.locked_fields().find_covering(pos)
            } else {
                None
            };
            let value = if self.overflows_into_lock(pos) {
                proof {
                    reveal_strlit("");
                    assert(""@ =~= Seq::<char>::empty());
                }
                format_field_value("", data_type)
            } else {
                match lock {
                    Some(lf) => {
                        let decoded = decode_value(record, lf.byte_offset, lf.data_type);
                        format_field_value(decoded.as_str(), lf.data_type)
                    },
                    None => {
                        let decoded = decode_value(record, pos, data_type);
                        format_field_value(decoded.as_str(), data_type)
                    },
                }
            };
            let style = self.field_style(record, current, pos, cursor - first == visible - left);
            let cell = FieldCell { text: value, style };
            let ghost rest = self@.row_from(
                rec,
                current,
                self@.next_pos(pos as int),
                field + 1,
                (left - 1) as nat,
            );
            proof {
                assert(cell@ == self@.cell_at(rec, current, pos as int, field));
                assert(tail.cells == seq![cell@] + rest.cells);
                assert(cell_views(cells@.push(cell)) =~= cell_views(cells@).push(cell@));
                assert(cell_views(cells@) + tail.cells =~= cell_views(cells@).push(cell@)
                    + rest.cells);
            }
            cells.push(cell);
            left = left - 1;
            match lock {
                Some(lf) => {
                    match lf.byte_offset.checked_add(lf.byte_length) {
                        Some(end) => {
                            pos = end;
                        },
                        None => {
                            assert(rest.cells =~= Seq::<CellView>::empty());
                            assert(cell_views(cells@) + rest.cells =~= cell_views(cells@));
                            break;
                        },
                    }
                },
                None => {
                    pos = pos + unit;
                },
            }
        }
        RecordRow {
            index,
            current,
            number: pad_left_string(
                decimal_string(index as u64).as_str(),
                decimal_digits(records.len() as u64),
            ),
            gutter: if self.show_gutter() {
                2
            } else {
                1
            },
            cells,
            trailing,
        }
    }

    /// The rows drawn in a view of `width` columns and `height` rows: one
    /// for each record from the first shown on, as far as the height
    /// reaches.
    pub fn render_records(&self, width: usize, height: usize) -> (rows: Vec<RecordRow>)
        ensures
            row_views(rows@) == self@.rows(width as nat, height as nat),
    {
        let n = self.records().len();
        let scroll = self.scroll_offset();
        let mut rows: Vec<RecordRow> = Vec::new();
        let mut index: usize = scroll;
        while rows.len() < height && index < n
            invariant
                n == self@.records.len(),
                scroll == self@.scroll_offset,
                index == scroll + rows@.len(),
                rows@.len() <= height,
                index <= n || rows@.len() == 0,
                forall|k: int|
                    0 <= k < rows@.len() ==> (#[trigger] rows@[k])@ == self@.row(
                        (scroll + k) as nat,
                        width as nat,
                    ),
            decreases n - index,
        {
            let row = self.render_row(index, width);
            rows.push(row);
            index = index + 1;
        }
        assert(row_views(rows@) =~= self@.rows(width as nat, height as nat));
        rows
    }
}

/// What a segment of the header line tells.
#[derive(Debug, Clone, Copy, PartialEq, Eq, Structural)]
pub enum HeaderKind {
    /// The cursor's record, counted from one, and the number of records.
    Position,
    /// The selected field type.
    Type,
    /// The cursor's field and the alignment offset.
    Field,
    /// The loaded preset.
    Preset,
    /// The number of locked fields.
    Locks,
    /// The modes that are not in their usual state.
    Modes,
}

/// A segment of the header line as plain values.
pub struct SegmentView {
    pub kind: HeaderKind,
    pub text: Seq<char>,
}

/// A segment of the header line.
#[derive(Debug)]
pub struct HeaderSegment {
    pub kind: HeaderKind,
    pub text: String,
}

impl View for HeaderSegment {
    type V = SegmentView;

    open spec fn view(&self) -> SegmentView {
        SegmentView { kind: self.kind, text: self.text@ }
    }
}

/// The views of a list of segments.
pub open spec fn segment_views(segments: Seq<HeaderSegment>) -> Seq<SegmentView> {
    Seq::new(segments.len(), |i: int| segments[i]@)
}

/// The status line as plain values.
pub enum StatusView {
    /// The command line: what was typed behind the colon.
    Command { typed: Seq<char> },
    /// The cursor's byte position, the length of its record where there is
    /// one, and the status text with the blanks before it where it fits.
    Status { position: Seq<char>, length: Option<Seq<char>>, message: Option<(nat, Seq<char>)> },
}

/// The status line.
#[derive(Debug)]
pub enum StatusLine {
    /// The command line: what was typed behind the colon.
    Command { typed: String },
    /// The cursor's byte position, the length of its record where there is
    /// one, and the status text with the number of blanks before it where
    /// it fits.
    Status { position: String, length: Option<String>, message: Option<(usize, String)> },
}

impl View for StatusLine {
    type V = StatusView;

    open spec fn view(&self) -> StatusView {
        match *self {
            StatusLine::Command { typed } => StatusView::Command { typed: typed@ },
            StatusLine::Status { position, length, message } => StatusView::Status {
                position: position@,
                length: match length {
                    Some(text) => Some(text@),
                    None => None,
                },
                message: match message {
                    Some((padding, text)) => Some((padding as nat, text@)),
                    None => None,
                },
            },
        }
    }
}

impl StateView {
    /// The text of the position segment.
    pub open spec fn position_text(self) -> Seq<char> {
        " "@ + decimal(self.current_record + 1) + "/"@ + decimal(self.records.len()) + " "@
    }

    /// The text of the type segment.
    pub open spec fn type_segment_text(self) -> Seq<char> {
        " "@ + self.current_type.name_text() + " "@
    }

    /// The text of the field segment.
    pub open spec fn field_text(self) -> Seq<char> {
        " field:"@ + decimal(self.cursor_field()) + " +"@ + decimal(self.field_offset) + " "@
    }

    /// The words of the modes segment: one for each mode that is not in
    /// its usual state.
    pub open spec fn mode_words(self) -> Seq<Seq<char>> {
        (if self.frequency_mode {
            seq!["freq"@]
        } else {
            Seq::empty()
        }) + (if self.wrap_mode {
            seq!["wrap"@]
        } else {
            Seq::empty()
        }) + (if !self.show_locks {
            seq!["~lock"@]
        } else {
            Seq::empty()
        }) + (if !self.show_gutter {
            seq!["~gut"@]
        } else {
            Seq::empty()
        })
    }

    /// The segments of the header line: position, type and field always,
    /// the preset where one is loaded, the locks where there are any, the
    /// modes where one is not in its usual state.
    pub open spec fn header(self) -> Seq<SegmentView> {
        seq![
            SegmentView { kind: HeaderKind::Position, text: self.position_text() },
            SegmentView { kind: HeaderKind::Type, text: self.type_segment_text() },
            SegmentView { kind: HeaderKind::Field, text: self.field_text() },
        ] + (match self.current_preset {
            Some(name) => seq![SegmentView { kind: HeaderKind::Preset, text: " "@ + name + " "@ }],
            None => Seq::empty(),
        }) + (if self.locked_fields.len() > 0 {
            seq![
                SegmentView {
                    kind: HeaderKind::Locks,
                    text: " "@ + decimal(self.locked_fields.len()) + "L "@,
                },
            ]
        } else {
            Seq::empty()
        }) + (if self.mode_words().len() > 0 {
            seq![
                SegmentView {
                    kind: HeaderKind::Modes,
                    text: " "@ + joined(self.mode_words()) + " "@,
                },
            ]
        } else {
            Seq::empty()
        })
    }

    /// The text that tells the cursor's byte position.
    pub open spec fn byte_text(self) -> Seq<char> {
        " byte:"@ + decimal(self.cursor_byte()) + " "@
    }

    /// The text that tells the length of the cursor's record, where there
    /// is one.
    pub open spec fn length_text(self) -> Option<Seq<char>> {
        if self.current_record < self.records.len() {
            Some("len:"@ + decimal(self.record_len()) + " "@)
        } else {
            None
        }
    }

    /// The status line in `width` columns. The status text stands at the
    /// right end where it fits behind the rest with two columns to spare,
    /// its width taken as the number of bytes of its encoding.
    pub open spec fn status(self, width: nat) -> StatusView {
        if self.command_mode {
            StatusView::Command { typed: self.command_buffer }
        } else {
            let left = self.byte_text().len() + match self.length_text() {
                Some(text) => text.len(),
                None => 0,
            };
            StatusView::Status {
                position: self.byte_text(),
                length: self.length_text(),
                message: match self.message {
                    Some(text) => if left + vstd::utf8::encode_utf8(text).len() + 2 < width {
                        Some(((width - left - vstd::utf8::encode_utf8(text).len() - 1) as nat, text))
                    } else {
                        None
                    },
                    None => None,
                },
            }
        }
    }
}

/// The words with one blank between each two.
pub open spec fn joined(words: Seq<Seq<char>>) -> Seq<char>
    decreases words.len(),
{
    if words.len() == 0 {
        Seq::empty()
    } else if words.len() == 1 {
        words[0]
    } else {
        joined(words.drop_last()) + " "@ + words.last()
    }
}

impl InteractiveState {
    /// The words of the modes segment, one blank between each two.
    pub fn mode_text(&self) -> (r: (String, usize))
        ensures
            r.0@ == joined(self@.mode_words()),
            r.1 == self@.mode_words().len(),
    {
        let mut modes = String::new();
        let mut count: usize = 0;
        let ghost mut words: Seq<Seq<char>> = Seq::empty();
        if self.frequency_mode() {
            modes.append("freq");
            count = 1;
            proof {
                words = seq!["freq"@];
            }
        }
        if self.wrap_mode() {
            let ghost before = words;
            if count > 0 {
                modes.append(" ");
            }
            modes.append("wrap");
            count = count + 1;
            proof {
                words = words + seq!["wrap"@];
                assert(words.drop_last() =~= before);
            }
        }
        assert(modes@ =~= joined(words) && count == words.len() && count <= 2) by {
            reveal_with_fuel(joined, 3);
        }
        if !self.show_locks() {
            let ghost before = words;
            if count > 0 {
                modes.append(" ");
            }
            modes.append("~lock");
            count = count + 1;
            proof {
                words = words + seq!["~lock"@];
                assert(words.drop_last() =~= before);
            }
        }
        assert(modes@ =~= joined(words) && count == words.len() && count <= 3);
        if !self.show_gutter() {
            let ghost before = words;
            if count > 0 {
                modes.append(" ");
            }
            modes.append("~gut");
            count = count + 1;
            proof {
                words = words + seq!["~gut"@];
                assert(words.drop_last() =~= before);
            }
        }
        assert(modes@ =~= joined(words) && count == words.len());
        assert(words =~= self@.mode_words());
        (modes, count)
    }

    /// The three segments that every header begins with.
    fn header_start(&self) -> (segments: Vec<HeaderSegment>)
        ensures
            segment_views(segments@) == seq![
                SegmentView { kind: HeaderKind::Position, text: self@.position_text() },
                SegmentView { kind: HeaderKind::Type, text: self@.type_segment_text() },
                SegmentView { kind: HeaderKind::Field, text: self@.field_text() },
            ],
    {
        let mut segments: Vec<HeaderSegment> = Vec::new();
        let mut position = String::from_str(" ");
        push_decimal_successor(&mut position, self.current_record() as u64);
        position.append("/");
        push_decimal(&mut position, self.records().len() as u64);
        position.append(" ");
        segments.push(HeaderSegment { kind: HeaderKind::Position, text: position });
        let mut type_text = String::from_str(" ");
        type_text.append(self.current_type().name());
        type_text.append(" ");
        segments.push(HeaderSegment { kind: HeaderKind::Type, text: type_text });
        let mut field = String::from_str(" field:");
        push_decimal(&mut field, self.cursor_field() as u64);
        field.append(" +");
        push_decimal(&mut field, self.field_offset() as u64);
        field.append(" ");
        segments.push(HeaderSegment { kind: HeaderKind::Field, text: field });
        assert(segment_views(segments@) =~= seq![
            SegmentView { kind: HeaderKind::Position, text: self@.position_text() },
            SegmentView { kind: HeaderKind::Type, text: self@.type_segment_text() },
            SegmentView { kind: HeaderKind::Field, text: self@.field_text() },
        ]);
        segments
    }

    /// The segments of the header line.
    pub fn header(&self) -> (segments: Vec<HeaderSegment>)
        ensures
            segment_views(segments@) == self@.header(),
    {
        let mut segments = self.header_start();
        let ghost fixed = segment_views(segments@);
        match self.current_preset() {
            Some(name) => {
                let mut text = String::from_str(" ");
                text.append(name.as_str());
                text.append(" ");
                segments.push(HeaderSegment { kind: HeaderKind::Preset, text });
            },
            None => {},
        }
        let ghost with_preset = segment_views(segments@);
        assert(with_preset =~= fixed + (match self@.current_preset {
            Some(name) => seq![SegmentView { kind: HeaderKind::Preset, text: " "@ + name + " "@ }],
            None => Seq::empty(),
        }));
        let locks = self.locked_fields().len();
        if locks > 0 {
            let mut text = String::from_str(" ");
            push_decimal(&mut text, locks as u64);
            text.append("L ");
            segments.push(HeaderSegment { kind: HeaderKind::Locks, text });
        }
        let ghost with_locks = segment_views(segments@);
        assert(with_locks =~= with_preset + (if self@.locked_fields.len() > 0 {
            seq![
                SegmentView {
                    kind: HeaderKind::Locks,
                    text: " "@ + decimal(self@.locked_fields.len()) + "L "@,
                },
            ]
        } else {
            Seq::empty()
        }));
        let (modes, count) = self.mode_text();
        if count > 0 {
            let mut text = String::from_str(" ");
            text.append(modes.as_str());
            text.append(" ");
            segments.push(HeaderSegment { kind: HeaderKind::Modes, text });
        }
        assert(segment_views(segments@) =~= with_locks + (if self@.mode_words().len() > 0 {
            seq![
                SegmentView {
                    kind: HeaderKind::Modes,
                    text: " "@ + joined(self@.mode_words()) + " "@,
                },
            ]
        } else {
            Seq::empty()
        }));
        segments
    }

    /// The status line in `width` columns.
    pub fn status_line(&self, width: usize) -> (line: StatusLine)
        ensures
            line@ == self@.status(width as nat),
    {
        if self.command_mode() {
            let mut typed = String::new();
            let buffer = self.command_buffer();
            push_chars(&mut typed, buffer.as_slice(), 0, buffer.len());
            assert(buffer@.subrange(0, buffer@.len() as int) =~= buffer@);
            return StatusLine::Command { typed };
        }
        let byte = self.current_field_byte();
        let record_len = self.record_len();
        proof {
            lemma_status_widths(self@);
            crate::text::lemma_decimal_width_bound(byte as nat);
            crate::text::lemma_decimal_width_bound(record_len as nat);
        }
        let mut position = String::from_str(" byte:");
        push_decimal(&mut position, byte as u64);
        position.append(" ");
        let mut left: usize = position.as_str().unicode_len();
        let length = if self.current_record() < self.records().len() {
            let mut text = String::from_str("len:");
            push_decimal(&mut text, record_len as u64);
            text.append(" ");
            let len = text.as_str().unicode_len();
            left = left + len;
            Some(text)
        } else {
            None
        };
        let message = match self.message() {
            Some(text) => {
                let bytes = text.as_str().as_bytes().len();
                if (left as u128) + (bytes as u128) + 2 < width as u128 {
                    Some((width - left - bytes - 1, text.clone()))
                } else {
                    None
                }
            },
            None => None,
        };
        StatusLine::Status { position, length, message }
    }
}

/// The texts at the left of the status line are short.
pub proof fn lemma_status_widths(s: StateView)
    ensures
        s.byte_text().len() <= 7 + crate::text::decimal_width(s.cursor_byte()),
        s.length_text() matches Some(text) ==> text.len() == 5 + crate::text::decimal_width(
            s.record_len(),
        ),
        s.byte_text().len() == 7 + crate::text::decimal_width(s.cursor_byte()),
{
    reveal_strlit(" byte:");
    reveal_strlit(" ");
    reveal_strlit("len:");
    crate::text::lemma_decimal_len(s.cursor_byte());
    crate::text::lemma_decimal_len(s.record_len());
}

} // verus!
