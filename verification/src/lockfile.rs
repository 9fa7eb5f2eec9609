//! The line format in which locked fields are kept on disk: one field per
//! line, `offset length type`, separated by white space.
//!
//! A line of fewer than three words holds no field and is passed over, and
//! so is a comment line, whose first word begins with `#`. Any other line
//! has to hold a field: an offset and a length that are unsigned decimal
//! numbers, the length not zero, and the name of a field type. Words after
//! the third are not read.

use crate::datatype::DataType;
use crate::locks::{positive, sorted_by_offset, LockRegistry, LockedField};
use crate::scan::{lines, parse_number, parse_unsigned, split_lines, split_words, texts, words};
use crate::text::{push_decimal, str_chars};
use vstd::prelude::*;
use vstd::string::*;

verus! {

/// Why a text holds no list of locked fields.
#[derive(Debug, Clone, Copy, PartialEq, Eq, Structural)]
pub enum PresetError {
    /// The first word of a field line is no unsigned number.
    InvalidOffset,
    /// The second word of a field line is no unsigned number, or is zero.
    InvalidLength,
    /// The third word of a field line names no field type.
    InvalidType,
}

impl PresetError {
    /// The message shown for this error.
    pub open spec fn message_text(self) -> Seq<char> {
        match self {
            PresetError::InvalidOffset => "Invalid offset"@,
            PresetError::InvalidLength => "Invalid length"@,
            PresetError::InvalidType => "Invalid type"@,
        }
    }

    /// The message shown for this error.
    pub fn message(&self) -> (r: &'static str)
        ensures
            r@ == self.message_text(),
    {
        match self {
            PresetError::InvalidOffset => "Invalid offset",
            PresetError::InvalidLength => "Invalid length",
            PresetError::InvalidType => "Invalid type",
        }
    }
}

/// Whether a line with these words is a comment line.
pub open spec fn is_comment(line_words: Seq<Seq<char>>) -> bool {
    line_words.len() > 0 && line_words[0].len() > 0 && line_words[0][0] == '#'
}

/// What a line with these words holds: nothing, a field, or an error.
pub open spec fn parsed_words(line_words: Seq<Seq<char>>) -> Option<
    Result<LockedField, PresetError>,
> {
    if line_words.len() < 3 || is_comment(line_words) {
        None
    } else {
        match parse_unsigned(line_words[0], usize::MAX as nat) {
            None => Some(Err(PresetError::InvalidOffset)),
            Some(offset) => match parse_unsigned(line_words[1], usize::MAX as nat) {
                None => Some(Err(PresetError::InvalidLength)),
                Some(length) => if length == 0 {
                    Some(Err(PresetError::InvalidLength))
                } else {
                    match DataType::named(line_words[2]) {
                        None => Some(Err(PresetError::InvalidType)),
                        Some(data_type) => Some(
                            Ok(
                                LockedField {
                                    byte_offset: offset as usize,
                                    byte_length: length as usize,
                                    data_type,
                                },
                            ),
                        ),
                    }
                },
            },
        }
    }
}

/// What a line holds.
pub open spec fn parsed_line(line: Seq<char>) -> Option<Result<LockedField, PresetError>> {
    parsed_words(words(line))
}

/// The fields of a list of lines, in line order, or the error of the first
/// line that has one.
pub open spec fn parsed_lines(all: Seq<Seq<char>>) -> Result<Seq<LockedField>, PresetError>
    decreases all.len(),
{
    if all.len() == 0 {
        Ok(Seq::empty())
    } else {
        match parsed_lines(all.drop_last()) {
            Err(e) => Err(e),
            Ok(fields) => match parsed_line(all.last()) {
                None => Ok(fields),
                Some(Ok(field)) => Ok(fields.push(field)),
                Some(Err(e)) => Err(e),
            },
        }
    }
}

/// The fields that a text holds, in line order, or the error of its first
/// faulty line.
pub open spec fn parsed_text(text: Seq<char>) -> Result<Seq<LockedField>, PresetError> {
    parsed_lines(lines(text))
}

/// The three words that hold a field: offset, length and type name.
pub open spec fn field_words(field: LockedField) -> Seq<char> {
    crate::text::decimal(field.byte_offset as nat) + seq![' '] + crate::text::decimal(
        field.byte_length as nat,
    ) + seq![' '] + field.data_type.name_text()
}

/// The line that holds a field.
pub open spec fn field_line(field: LockedField) -> Seq<char> {
    field_words(field) + seq!['\n']
}

/// The lines that hold the fields of a sequence, one after the other.
pub open spec fn field_lines(fields: Seq<LockedField>) -> Seq<char>
    decreases fields.len(),
{
    if fields.len() == 0 {
        Seq::empty()
    } else {
        field_lines(fields.drop_last()) + field_line(fields.last())
    }
}

/// The comment line that stands at the head of a preset file.
pub open spec fn header_line() -> Seq<char> {
    "# Locked fields: offset length type"@
}

/// The comment line that introduces the hints on detection rules.
pub open spec fn hint_title() -> Seq<char> {
    "# Detection rules (uncomment and edit to enable auto-detection)"@
}

/// The hint that shows how the rules section begins.
pub open spec fn hint_section() -> Seq<char> {
    "# @rules"@
}

/// The hint that shows a rule on a byte.
pub open spec fn hint_byte() -> Seq<char> {
    "# byte_equals 0 33"@
}

/// The hint that shows a rule on the length.
pub open spec fn hint_length() -> Seq<char> {
    "# min_length 30"@
}

/// The head of a preset file: a comment line.
pub open spec fn file_header() -> Seq<char> {
    header_line() + seq!['\n']
}

/// The foot of a preset file: an empty line, and comment lines that show
/// how detection rules are written.
pub open spec fn file_footer() -> Seq<char> {
    seq!['\n'] + hint_title() + seq!['\n'] + hint_section() + seq!['\n'] + hint_byte() + seq![
        '\n',
    ] + hint_length() + seq!['\n']
}

/// The text of the preset file for a sequence of fields.
pub open spec fn file_text(fields: Seq<LockedField>) -> Seq<char> {
    file_header() + field_lines(fields) + file_footer()
}

/// Reads the field that a line holds, if any.
pub fn parse_line(line: &[char]) -> (r: Option<Result<LockedField, PresetError>>)
    ensures
        r == parsed_line(line@),
{
    let line_words = split_words(line);
    let ghost w = words(line@);
    assert(texts(line_words@) == w);
    if line_words.len() < 3 {
        return None;
    }
    assert(w[0] == line_words@[0]@ && w[1] == line_words@[1]@ && w[2] == line_words@[2]@);
    if line_words[0].len() > 0 && line_words[0][0] == '#' {
        return None;
    }
    let offset = match parse_number(line_words[0].as_slice(), usize::MAX as u64) {
        Some(v) => v as usize,
        None => {
            return Some(Err(PresetError::InvalidOffset));
        },
    };
    let length = match parse_number(line_words[1].as_slice(), usize::MAX as u64) {
        Some(v) => v as usize,
        None => {
            return Some(Err(PresetError::InvalidLength));
        },
    };
    if length == 0 {
        return Some(Err(PresetError::InvalidLength));
    }
    match DataType::from_name_chars(line_words[2].as_slice()) {
        Some(data_type) => Some(
            Ok(LockedField { byte_offset: offset, byte_length: length, data_type }),
        ),
        None => Some(Err(PresetError::InvalidType)),
    }
}

/// Reads the locked fields that a text holds. The fields come in line
/// order; the first faulty line gives the error.
pub fn deserialize(text: &str) -> (r: Result<Vec<LockedField>, PresetError>)
    ensures
        match r {
            Ok(fields) => parsed_text(text@) == Ok::<Seq<LockedField>, PresetError>(fields@),
            Err(e) => parsed_text(text@) == Err::<Seq<LockedField>, PresetError>(e),
        },
{
    let chars = str_chars(text);
    let all = split_lines(chars.as_slice());
    let ghost all_lines = lines(text@);
    let mut fields: Vec<LockedField> = Vec::new();
    let mut i: usize = 0;
    while i < all.len()
        invariant
            i <= all@.len(),
            texts(all@) == all_lines,
            all_lines == lines(text@),
            parsed_lines(all_lines.take(i as int)) == Ok::<Seq<LockedField>, PresetError>(
                fields@,
            ),
        decreases all@.len() - i,
    {
        let ghost next = all_lines.take(i + 1);
        proof {
            assert(next.drop_last() =~= all_lines.take(i as int));
            assert(next.last() == all@[i as int]@);
        }
        match parse_line(all[i].as_slice()) {
            None => {},
            Some(Ok(field)) => {
                fields.push(field);
            },
            Some(Err(e)) => {
                proof {
                    lemma_error_stays(all_lines, i + 1);
                }
                return Err(e);
            },
        }
        i = i + 1;
    }
    assert(all_lines.take(all@.len() as int) =~= all_lines);
    Ok(fields)
}

/// Once a prefix of the lines has an error, the whole text has that error.
pub proof fn lemma_error_stays(all: Seq<Seq<char>>, k: int)
    requires
        0 <= k <= all.len(),
        parsed_lines(all.take(k)) is Err,
    ensures
        parsed_lines(all) == parsed_lines(all.take(k)),
    decreases all.len(),
{
    if k < all.len() {
        assert(all.drop_last().take(k) =~= all.take(k));
        lemma_error_stays(all.drop_last(), k);
    } else {
        assert(all.take(k) =~= all);
    }
}

/// Writes the fields one per line, as `offset length type`.
pub fn serialize(fields: &[LockedField]) -> (s: String)
    ensures
        s@ == field_lines(fields@),
{
    let mut s = String::new();
    push_field_lines(&mut s, fields);
    s
}

fn push_field_lines(s: &mut String, fields: &[LockedField])
    ensures
        final(s)@ == old(s)@ + field_lines(fields@),
{
    let mut i: usize = 0;
    assert(old(s)@ + field_lines(fields@.take(0)) =~= old(s)@);
    while i < fields.len()
        invariant
            i <= fields@.len(),
            s@ == old(s)@ + field_lines(fields@.take(i as int)),
        decreases fields@.len() - i,
    {
        let field = &fields[i];
        let ghost before = s@;
        push_decimal(s, field.byte_offset as u64);
        s.append(" ");
        push_decimal(s, field.byte_length as u64);
        s.append(" ");
        s.append(field.data_type.name());
        s.append("\n");
        proof {
            reveal_strlit(" ");
            reveal_strlit("\n");
            assert(" "@ =~= seq![' ']);
            assert("\n"@ =~= seq!['\n']);
            assert(s@ =~= before + field_line(*field));
            assert(fields@.take(i + 1).drop_last() =~= fields@.take(i as int));
            assert(s@ =~= old(s)@ + field_lines(fields@.take(i + 1)));
        }
        i = i + 1;
    }
    assert(fields@.take(fields@.len() as int) =~= fields@);
}

/// The text of the preset file for the fields: a comment line at the head,
/// the fields one per line, and comment lines at the foot that show how
/// detection rules are written.
pub fn preset_file_text(fields: &[LockedField]) -> (s: String)
    ensures
        s@ == file_text(fields@),
{
    proof {
        reveal_strlit("\n");
        assert("\n"@ =~= seq!['\n']);
    }
    let mut s = String::from_str("# Locked fields: offset length type");
    s.append("\n");
    push_field_lines(&mut s, fields);
    s.append("\n");
    s.append("# Detection rules (uncomment and edit to enable auto-detection)");
    s.append("\n");
    s.append("# @rules");
    s.append("\n");
    s.append("# byte_equals 0 33");
    s.append("\n");
    s.append("# min_length 30");
    s.append("\n");
    assert(s@ =~= file_text(fields@));
    s
}

impl LockRegistry {
    /// The fields one per line, as `offset length type`.
    pub fn serialize(&self) -> (s: String)
        ensures
            s@ == field_lines(self@),
    {
        serialize(self.fields().as_slice())
    }

    /// Replaces the fields by those that `text` holds: one for every line
    /// that holds a field, none lost and none of the old kept, sorted by
    /// offset whatever the order of the lines. Overlaps among them are
    /// accepted. Where `text` has a faulty line the registry stays as it
    /// was.
    pub fn deserialize(&mut self, text: &str) -> (r: Result<usize, PresetError>)
        ensures
            match r {
                Ok(n) => {
                    &&& parsed_text(text@) matches Ok(fields) && n == fields.len() && final(self)@
                        == sorted_by_offset(fields)
                    &&& crate::locks::sorted(final(self)@)
                    &&& positive(final(self)@)
                    &&& final(self)@.len() == n
                    &&& parsed_text(text@) matches Ok(fields) && final(self)@.to_multiset()
                        == fields.to_multiset()
                },
                Err(e) => final(self)@ == old(self)@ && parsed_text(text@) == Err::<
                    Seq<LockedField>,
                    PresetError,
                >(e),
            },
    {
        match deserialize(text) {
            Ok(fields) => {
                let n = fields.len();
                proof {
                    crate::locks::lemma_sorted_by_offset(fields@);
                    lemma_parsed_positive(lines(text@));
                    crate::locks::lemma_sorted_by_offset_positive(fields@);
                }
                self.replace(fields);
                Ok(n)
            },
            Err(e) => Err(e),
        }
    }
}

/// The words of a field hold no line feed.
pub proof fn lemma_field_words_one_line(field: LockedField)
    ensures
        forall|k: int| 0 <= k < field_words(field).len() ==> #[trigger] field_words(field)[k] != '\n',
{
    let a = crate::text::decimal(field.byte_offset as nat);
    let b = crate::text::decimal(field.byte_length as nat);
    let c = field.data_type.name_text();
    crate::scan::lemma_parse_decimal(field.byte_offset as nat, usize::MAX as nat);
    crate::scan::lemma_parse_decimal(field.byte_length as nat, usize::MAX as nat);
    crate::datatype::lemma_names_plain(field.data_type);
    let line = field_words(field);
    assert forall|k: int| 0 <= k < line.len() implies #[trigger] line[k] != '\n' by {
        if k < a.len() {
            assert(line[k] == a[k]);
            assert(!crate::scan::is_space(a[k]));
        } else if k == a.len() {
        } else if k < a.len() + 1 + b.len() {
            assert(line[k] == b[k - a.len() - 1]);
            assert(!crate::scan::is_space(b[k - a.len() - 1]));
        } else if k == a.len() + 1 + b.len() {
        } else {
            assert(line[k] == c[k - a.len() - b.len() - 2]);
            assert(crate::datatype::is_plain(c[k - a.len() - b.len() - 2]));
        }
    }
}

/// The words of a field are read as that field.
pub proof fn lemma_field_words_parse(field: LockedField)
    requires
        field.byte_length > 0,
    ensures
        parsed_line(field_words(field)) == Some(Ok::<LockedField, PresetError>(field)),
{
    let a = crate::text::decimal(field.byte_offset as nat);
    let b = crate::text::decimal(field.byte_length as nat);
    let c = field.data_type.name_text();
    crate::scan::lemma_parse_decimal(field.byte_offset as nat, usize::MAX as nat);
    crate::scan::lemma_parse_decimal(field.byte_length as nat, usize::MAX as nat);
    crate::datatype::lemma_names_plain(field.data_type);
    crate::datatype::lemma_name_round_trip(field.data_type);
    assert(crate::scan::no_space(c)) by {
        assert forall|k: int| 0 <= k < c.len() implies !crate::scan::is_space(#[trigger] c[k]) by {
            assert(crate::datatype::is_plain(c[k]));
        }
    }
    crate::scan::lemma_words_of_three(a, b, c);
    let w = words(field_words(field));
    assert(w == seq![a, b, c]);
    assert(w[0] == a && w[1] == b && w[2] == c);
    assert(!is_comment(w));
}

/// The words of the fields of a sequence, a line for each.
pub open spec fn lines_of_fields(fields: Seq<LockedField>) -> Seq<Seq<char>>
    decreases fields.len(),
{
    if fields.len() == 0 {
        Seq::empty()
    } else {
        lines_of_fields(fields.drop_last()).push(field_words(fields.last()))
    }
}

/// The lines of serialized fields are the words of the fields, and the
/// text ends with a line feed where there is a field.
pub proof fn lemma_field_lines(fields: Seq<LockedField>)
    ensures
        lines(field_lines(fields)) == lines_of_fields(fields),
        field_lines(fields).len() == 0 || field_lines(fields).last() == '\n',
    decreases fields.len(),
{
    if fields.len() > 0 {
        let before = field_lines(fields.drop_last());
        let line = field_words(fields.last());
        lemma_field_lines(fields.drop_last());
        lemma_field_words_one_line(fields.last());
        crate::scan::lemma_lines_append(before, line);
        assert(field_lines(fields) =~= before + line + seq!['\n']);
    }
}

/// The lines of fields are read as the fields.
pub proof fn lemma_lines_of_fields_parse(fields: Seq<LockedField>)
    requires
        positive(fields),
    ensures
        parsed_lines(lines_of_fields(fields)) == Ok::<Seq<LockedField>, PresetError>(fields),
    decreases fields.len(),
{
    if fields.len() == 0 {
        assert(fields =~= Seq::<LockedField>::empty());
    } else {
        let init = fields.drop_last();
        lemma_lines_of_fields_parse(init);
        lemma_field_words_parse(fields.last());
        assert(lines_of_fields(fields).drop_last() =~= lines_of_fields(init));
        assert(init.push(fields.last()) =~= fields);
    }
}

/// Round trip: the fields that were serialized are the fields that the
/// text is read as, in their order.
pub proof fn lemma_serialize_round_trip(fields: Seq<LockedField>)
    requires
        positive(fields),
    ensures
        parsed_text(field_lines(fields)) == Ok::<Seq<LockedField>, PresetError>(fields),
{
    lemma_field_lines(fields);
    lemma_lines_of_fields_parse(fields);
}

/// Whether none of the first `n` characters of a text is a line feed.
pub open spec fn one_line_upto(s: Seq<char>, n: nat) -> bool
    decreases n,
{
    n == 0 || (s[n - 1] != '\n' && one_line_upto(s, (n - 1) as nat))
}

proof fn lemma_one_line(s: Seq<char>, n: nat, k: int)
    requires
        one_line_upto(s, n),
        0 <= k < n,
    ensures
        s[k] != '\n',
    decreases n,
{
    if k < n - 1 {
        lemma_one_line(s, (n - 1) as nat, k);
    }
}

/// Whether a text is one comment line: it begins with `#` and holds no
/// line feed.
pub open spec fn is_comment_line(line: Seq<char>) -> bool {
    line.len() > 0 && line[0] == '#' && forall|k: int|
        0 <= k < line.len() ==> #[trigger] line[k] != '\n'
}

/// The comment lines of a preset file are comment lines.
pub proof fn lemma_comment_lines()
    ensures
        is_comment_line(header_line()),
        is_comment_line(hint_title()),
        is_comment_line(hint_section()),
        is_comment_line(hint_byte()),
        is_comment_line(hint_length()),
{
    reveal_strlit("# Locked fields: offset length type");
    reveal_strlit("# Detection rules (uncomment and edit to enable auto-detection)");
    reveal_strlit("# @rules");
    reveal_strlit("# byte_equals 0 33");
    reveal_strlit("# min_length 30");
    assert(one_line_upto(header_line(), header_line().len())) by {
        reveal_strlit("# Locked fields: offset length type");
        reveal_with_fuel(one_line_upto, 40);
    }
    assert(one_line_upto(hint_title(), hint_title().len())) by {
        reveal_strlit("# Detection rules (uncomment and edit to enable auto-detection)");
        reveal_with_fuel(one_line_upto, 70);
    }
    assert(one_line_upto(hint_section(), hint_section().len())) by {
        reveal_strlit("# @rules");
        reveal_with_fuel(one_line_upto, 12);
    }
    assert(one_line_upto(hint_byte(), hint_byte().len())) by {
        reveal_strlit("# byte_equals 0 33");
        reveal_with_fuel(one_line_upto, 24);
    }
    assert(one_line_upto(hint_length(), hint_length().len())) by {
        reveal_strlit("# min_length 30");
        reveal_with_fuel(one_line_upto, 20);
    }
    assert forall|k: int| 0 <= k < header_line().len() implies #[trigger] header_line()[k]
        != '\n' by {
        lemma_one_line(header_line(), header_line().len(), k);
    }
    assert forall|k: int| 0 <= k < hint_title().len() implies #[trigger] hint_title()[k] != '\n' by {
        lemma_one_line(hint_title(), hint_title().len(), k);
    }
    assert forall|k: int| 0 <= k < hint_section().len() implies #[trigger] hint_section()[k]
        != '\n' by {
        lemma_one_line(hint_section(), hint_section().len(), k);
    }
    assert forall|k: int| 0 <= k < hint_byte().len() implies #[trigger] hint_byte()[k] != '\n' by {
        lemma_one_line(hint_byte(), hint_byte().len(), k);
    }
    assert forall|k: int| 0 <= k < hint_length().len() implies #[trigger] hint_length()[k]
        != '\n' by {
        lemma_one_line(hint_length(), hint_length().len(), k);
    }
}

/// A line that begins with `#` holds no field, and neither does an empty
/// line.
pub proof fn lemma_comment_is_passed_over(line: Seq<char>)
    requires
        line.len() == 0 || line[0] == '#',
    ensures
        parsed_line(line).is_none(),
{
    if line.len() > 0 {
        crate::scan::lemma_next_word_is(line, 0, 0);
        let e = crate::scan::next_space(line, 0);
        assert(e == crate::scan::next_space(line, 1));
        crate::scan::lemma_next_space_from(line, 1);
        let w = words(line);
        assert(w[0] == line.subrange(0, e));
        assert(w[0][0] == '#');
    }
}

/// Serialized fields behind a text that is empty or ends with a line feed
/// add their lines to the lines of that text.
pub proof fn lemma_lines_with_fields(x: Seq<char>, fields: Seq<LockedField>)
    requires
        x.len() == 0 || x.last() == '\n',
    ensures
        lines(x + field_lines(fields)) == lines(x) + lines_of_fields(fields),
        (x + field_lines(fields)).len() == 0 || (x + field_lines(fields)).last() == '\n',
    decreases fields.len(),
{
    if fields.len() == 0 {
        assert(x + field_lines(fields) =~= x);
        assert(lines(x) + lines_of_fields(fields) =~= lines(x));
    } else {
        let init = fields.drop_last();
        let line = field_words(fields.last());
        lemma_lines_with_fields(x, init);
        lemma_field_words_one_line(fields.last());
        crate::scan::lemma_lines_append(x + field_lines(init), line);
        assert(x + field_lines(fields) =~= (x + field_lines(init)) + line + seq!['\n']);
        assert((lines(x) + lines_of_fields(init)).push(line) =~= lines(x) + lines_of_fields(
            fields,
        ));
    }
}

/// The lines of fields behind lines that hold no field are read as the
/// fields.
pub proof fn lemma_parse_behind(before: Seq<Seq<char>>, fields: Seq<LockedField>)
    requires
        positive(fields),
        parsed_lines(before) == Ok::<Seq<LockedField>, PresetError>(Seq::empty()),
    ensures
        parsed_lines(before + lines_of_fields(fields)) == Ok::<Seq<LockedField>, PresetError>(
            fields,
        ),
    decreases fields.len(),
{
    if fields.len() == 0 {
        assert(before + lines_of_fields(fields) =~= before);
        assert(fields =~= Seq::<LockedField>::empty());
    } else {
        let init = fields.drop_last();
        lemma_parse_behind(before, init);
        lemma_field_words_parse(fields.last());
        let all = before + lines_of_fields(fields);
        assert(all.drop_last() =~= before + lines_of_fields(init));
        assert(all.last() == field_words(fields.last()));
        assert(init.push(fields.last()) =~= fields);
    }
}

/// A line that holds no field, behind lines that are read, changes
/// nothing of what is read.
pub proof fn lemma_parse_passed_over(all: Seq<Seq<char>>, line: Seq<char>)
    requires
        parsed_line(line).is_none(),
        parsed_lines(all) is Ok,
    ensures
        parsed_lines(all.push(line)) == parsed_lines(all),
{
    assert(all.push(line).drop_last() =~= all);
}

/// Every field that is read has a length that is not zero.
pub proof fn lemma_parsed_positive(all: Seq<Seq<char>>)
    ensures
        parsed_lines(all) matches Ok(fields) ==> positive(fields),
    decreases all.len(),
{
    if all.len() > 0 {
        lemma_parsed_positive(all.drop_last());
    }
}

/// Lines that each hold a field are read as those fields, in the order of
/// the lines.
pub proof fn lemma_field_lines_parse(all: Seq<Seq<char>>, fields: Seq<LockedField>)
    requires
        all.len() == fields.len(),
        forall|i: int|
            0 <= i < all.len() ==> parsed_line(#[trigger] all[i]) == Some(
                Ok::<LockedField, PresetError>(fields[i]),
            ),
    ensures
        parsed_lines(all) == Ok::<Seq<LockedField>, PresetError>(fields),
    decreases all.len(),
{
    if all.len() == 0 {
        assert(fields =~= Seq::<LockedField>::empty());
    } else {
        let init = fields.drop_last();
        assert forall|i: int| 0 <= i < all.drop_last().len() implies parsed_line(
            #[trigger] all.drop_last()[i],
        ) == Some(Ok::<LockedField, PresetError>(init[i])) by {
            assert(all.drop_last()[i] == all[i]);
        }
        lemma_field_lines_parse(all.drop_last(), init);
        assert(parsed_line(all[all.len() - 1]) == Some(
            Ok::<LockedField, PresetError>(fields[all.len() - 1]),
        ));
        assert(init.push(fields.last()) =~= fields);
    }
}

/// Round trip: the text of a preset file is read as the fields it was
/// written for, in their order.
pub proof fn lemma_file_round_trip(fields: Seq<LockedField>)
    requires
        positive(fields),
    ensures
        parsed_text(file_text(fields)) == Ok::<Seq<LockedField>, PresetError>(fields),
{
    lemma_comment_lines();
    let empty = Seq::<char>::empty();
    let feed = seq!['\n'];
    let t0 = file_header();
    assert(t0 =~= empty + header_line() + feed);
    crate::scan::lemma_lines_append(empty, header_line());
    assert(lines(empty) =~= Seq::<Seq<char>>::empty());
    let l0 = seq![header_line()];
    assert(lines(t0) =~= l0);
    lemma_comment_is_passed_over(header_line());
    let none = Seq::<Seq<char>>::empty();
    assert(parsed_lines(none) == Ok::<Seq<LockedField>, PresetError>(Seq::empty()));
    lemma_parse_passed_over(none, header_line());
    assert(none.push(header_line()) =~= l0);
    let t1 = t0 + field_lines(fields);
    lemma_lines_with_fields(t0, fields);
    let l1 = l0 + lines_of_fields(fields);
    lemma_parse_behind(l0, fields);
    let t2 = t1 + empty + feed;
    crate::scan::lemma_lines_append(t1, empty);
    lemma_comment_is_passed_over(empty);
    let l2 = l1.push(empty);
    lemma_parse_passed_over(l1, empty);
    let t3 = t2 + hint_title() + feed;
    crate::scan::lemma_lines_append(t2, hint_title());
    lemma_comment_is_passed_over(hint_title());
    let l3 = l2.push(hint_title());
    lemma_parse_passed_over(l2, hint_title());
    let t4 = t3 + hint_section() + feed;
    crate::scan::lemma_lines_append(t3, hint_section());
    lemma_comment_is_passed_over(hint_section());
    let l4 = l3.push(hint_section());
    lemma_parse_passed_over(l3, hint_section());
    let t5 = t4 + hint_byte() + feed;
    crate::scan::lemma_lines_append(t4, hint_byte());
    lemma_comment_is_passed_over(hint_byte());
    let l5 = l4.push(hint_byte());
    lemma_parse_passed_over(l4, hint_byte());
    let t6 = t5 + hint_length() + feed;
    crate::scan::lemma_lines_append(t5, hint_length());
    lemma_comment_is_passed_over(hint_length());
    let l6 = l5.push(hint_length());
    lemma_parse_passed_over(l5, hint_length());
    assert(file_text(fields) =~= t6);
}

} // verus!
