//! The field type model: the closed set of interpretations that can be put
//! on the bytes at the cursor, their widths, their cyclic order and their
//! decoders.

use crate::text::{
    binary8, chars_are, decimal, decimal_string, hex2, push_binary8, push_char, push_hex2, str_chars,
};
use vstd::prelude::*;
use vstd::string::*;

verus! {

/// An interpretation of the bytes of a field.
#[derive(Debug, Clone, Copy, PartialEq, Eq, Structural)]
pub enum DataType {
    U8,
    U16Le,
    U16Be,
    U32Le,
    U32Be,
    VarInt,
    Hex,
    Binary,
    Ascii,
}

/// The number of field types.
pub const TYPE_COUNT: usize = 9;

/// 128 to the power `k`, the weight of the `k`-th group of a variable-length
/// integer.
pub open spec fn pow128(k: nat) -> nat
    decreases k,
{
    if k == 0 {
        1
    } else {
        128 * pow128((k - 1) as nat)
    }
}

/// The sum of the low seven bits of the first `n` bytes, the `k`-th weighted
/// by 128 to the `k`.
pub open spec fn varint_sum(data: Seq<u8>, n: nat) -> nat
    decreases n,
{
    if n == 0 {
        0
    } else {
        varint_sum(data, (n - 1) as nat) + (data[n - 1] as nat % 128) * pow128((n - 1) as nat)
    }
}

/// The first index at or after `i` whose byte has its high bit clear, or the
/// length.
pub open spec fn varint_end(data: Seq<u8>, i: int) -> int
    decreases data.len() - i,
{
    if i < 0 || i >= data.len() || data[i] < 128 {
        i
    } else {
        varint_end(data, i + 1)
    }
}

/// The longest encoding a 64-bit variable-length integer is read from.
pub const VARINT_MAX_BYTES: usize = 10;

/// The value of the variable-length integer at the start of `data`: base 128,
/// least significant group first, a set high bit meaning that more follows.
/// What does not fit in 64 bits is cut off. There is no value when no byte
/// with a clear high bit stands among the first ten.
pub open spec fn varint_value(data: Seq<u8>) -> Option<u64> {
    let e = varint_end(data, 0);
    if 0 <= e < data.len() && e < VARINT_MAX_BYTES {
        Some((varint_sum(data, (e + 1) as nat) % 0x1_0000_0000_0000_0000) as u64)
    } else {
        None
    }
}

/// The unsigned value of two bytes, least significant first.
pub open spec fn le16(data: Seq<u8>) -> nat {
    (data[0] as nat) + 0x100 * (data[1] as nat)
}

/// The unsigned value of two bytes, most significant first.
pub open spec fn be16(data: Seq<u8>) -> nat {
    (data[1] as nat) + 0x100 * (data[0] as nat)
}

/// The unsigned value of four bytes, least significant first.
pub open spec fn le32(data: Seq<u8>) -> nat {
    (data[0] as nat) + 0x100 * (data[1] as nat) + 0x1_0000 * (data[2] as nat) + 0x100_0000 * (
    data[3] as nat)
}

/// The unsigned value of four bytes, most significant first.
pub open spec fn be32(data: Seq<u8>) -> nat {
    (data[3] as nat) + 0x100 * (data[2] as nat) + 0x1_0000 * (data[1] as nat) + 0x100_0000 * (
    data[0] as nat)
}

/// Whether a byte is shown as itself under the ASCII type: the printable
/// ASCII characters and the space.
pub open spec fn is_printable(b: u8) -> bool {
    0x20 <= b <= 0x7E
}

/// How a byte is shown under the ASCII type: itself when printable, an
/// escape `\x` with two hexadecimal digits otherwise.
pub open spec fn ascii_text(b: u8) -> Seq<char> {
    if is_printable(b) {
        seq![b as char]
    } else {
        seq!['\\', 'x'] + hex2(b)
    }
}

impl DataType {
    /// The field types in their cyclic order.
    pub open spec fn order() -> Seq<DataType> {
        seq![
            DataType::U8,
            DataType::U16Le,
            DataType::U16Be,
            DataType::U32Le,
            DataType::U32Be,
            DataType::VarInt,
            DataType::Hex,
            DataType::Binary,
            DataType::Ascii,
        ]
    }

    /// The place of this type in the cyclic order.
    pub open spec fn index(self) -> int {
        match self {
            DataType::U8 => 0,
            DataType::U16Le => 1,
            DataType::U16Be => 2,
            DataType::U32Le => 3,
            DataType::U32Be => 4,
            DataType::VarInt => 5,
            DataType::Hex => 6,
            DataType::Binary => 7,
            DataType::Ascii => 8,
        }
    }

    /// The type after this one in the cyclic order.
    pub open spec fn successor(self) -> DataType {
        Self::order()[(self.index() + 1) % 9]
    }

    /// The type before this one in the cyclic order.
    pub open spec fn predecessor(self) -> DataType {
        Self::order()[(self.index() + 8) % 9]
    }

    /// The type reached by `n` steps forward in the cyclic order.
    pub open spec fn advanced(self, n: nat) -> DataType
        decreases n,
    {
        if n == 0 {
            self
        } else {
            self.advanced((n - 1) as nat).successor()
        }
    }

    /// The name of this type as the preset format writes it.
    pub open spec fn name_text(self) -> Seq<char> {
        match self {
            DataType::U8 => "u8"@,
            DataType::U16Le => "u16le"@,
            DataType::U16Be => "u16be"@,
            DataType::U32Le => "u32le"@,
            DataType::U32Be => "u32be"@,
            DataType::VarInt => "varint"@,
            DataType::Hex => "hex"@,
            DataType::Binary => "binary"@,
            DataType::Ascii => "ascii"@,
        }
    }

    /// The type that a name denotes, if any.
    pub open spec fn named(text: Seq<char>) -> Option<DataType> {
        if text == "u8"@ {
            Some(DataType::U8)
        } else if text == "u16le"@ {
            Some(DataType::U16Le)
        } else if text == "u16be"@ {
            Some(DataType::U16Be)
        } else if text == "u32le"@ {
            Some(DataType::U32Le)
        } else if text == "u32be"@ {
            Some(DataType::U32Be)
        } else if text == "varint"@ {
            Some(DataType::VarInt)
        } else if text == "hex"@ {
            Some(DataType::Hex)
        } else if text == "binary"@ {
            Some(DataType::Binary)
        } else if text == "ascii"@ {
            Some(DataType::Ascii)
        } else {
            None
        }
    }

    /// The fixed byte width of this type; none for the variable-length
    /// integer.
    pub open spec fn width(self) -> Option<nat> {
        match self {
            DataType::U8 | DataType::Hex | DataType::Binary | DataType::Ascii => Some(1),
            DataType::U16Le | DataType::U16Be => Some(2),
            DataType::U32Le | DataType::U32Be => Some(4),
            DataType::VarInt => None,
        }
    }

    /// The number of bytes one field of this type takes in the layout of a
    /// record: its width, or one byte where the width is variable.
    pub open spec fn unit(self) -> nat {
        match self.width() {
            Some(w) => w,
            None => 1,
        }
    }

    /// The text shown for the bytes `data` read as this type. Empty where
    /// `data` is too short.
    pub open spec fn decoded(self, data: Seq<u8>) -> Seq<char> {
        match self {
            DataType::U8 => if data.len() >= 1 {
                decimal(data[0] as nat)
            } else {
                Seq::empty()
            },
            DataType::Hex => if data.len() >= 1 {
                hex2(data[0])
            } else {
                Seq::empty()
            },
            DataType::Binary => if data.len() >= 1 {
                binary8(data[0])
            } else {
                Seq::empty()
            },
            DataType::Ascii => if data.len() >= 1 {
                ascii_text(data[0])
            } else {
                Seq::empty()
            },
            DataType::U16Le => if data.len() >= 2 {
                decimal(le16(data))
            } else {
                Seq::empty()
            },
            DataType::U16Be => if data.len() >= 2 {
                decimal(be16(data))
            } else {
                Seq::empty()
            },
            DataType::U32Le => if data.len() >= 4 {
                decimal(le32(data))
            } else {
                Seq::empty()
            },
            DataType::U32Be => if data.len() >= 4 {
                decimal(be32(data))
            } else {
                Seq::empty()
            },
            DataType::VarInt => match varint_value(data) {
                Some(v) => decimal(v as nat),
                None => Seq::empty(),
            },
        }
    }

    /// The column width a field of this type takes on screen, the separating
    /// blank included.
    pub open spec fn column_width(self) -> nat {
        match self {
            DataType::U8 => 4,
            DataType::Hex => 3,
            DataType::Binary => 9,
            DataType::U16Le | DataType::U16Be => 6,
            DataType::U32Le | DataType::U32Be => 11,
            DataType::VarInt => 11,
            DataType::Ascii => 2,
        }
    }

    /// The width a value of this type is right-aligned to.
    pub open spec fn value_width(self) -> nat {
        (self.column_width() - 1) as nat
    }

    /// The field types in their cyclic order.
    pub fn all() -> (types: [DataType; 9])
        ensures
            types@ == Self::order(),
    {
        let types = [
            DataType::U8,
            DataType::U16Le,
            DataType::U16Be,
            DataType::U32Le,
            DataType::U32Be,
            DataType::VarInt,
            DataType::Hex,
            DataType::Binary,
            DataType::Ascii,
        ];
        assert(types@ =~= Self::order());
        types
    }

    /// The name of this type as the preset format writes it.
    pub fn name(&self) -> (r: &'static str)
        ensures
            r@ == self.name_text(),
    {
        match self {
            DataType::U8 => "u8",
            DataType::U16Le => "u16le",
            DataType::U16Be => "u16be",
            DataType::U32Le => "u32le",
            DataType::U32Be => "u32be",
            DataType::VarInt => "varint",
            DataType::Hex => "hex",
            DataType::Binary => "binary",
            DataType::Ascii => "ascii",
        }
    }

    /// The fixed byte width of this type; none for the variable-length
    /// integer.
    pub fn byte_size(&self) -> (r: Option<usize>)
        ensures
            r.is_some() == self.width().is_some(),
            r matches Some(w) ==> self.width() == Some(w as nat),
    {
        match self {
            DataType::U8 | DataType::Hex | DataType::Binary | DataType::Ascii => Some(1),
            DataType::U16Le | DataType::U16Be => Some(2),
            DataType::U32Le | DataType::U32Be => Some(4),
            DataType::VarInt => None,
        }
    }

    /// The number of bytes one field of this type takes in the layout of a
    /// record.
    pub fn unit_size(&self) -> (r: usize)
        ensures
            r == self.unit(),
            1 <= r <= 4,
    {
        match self.byte_size() {
            Some(w) => w,
            None => 1,
        }
    }

    /// The place of this type in the cyclic order.
    pub fn position(&self) -> (r: usize)
        ensures
            r == self.index(),
            r < 9,
    {
        match self {
            DataType::U8 => 0,
            DataType::U16Le => 1,
            DataType::U16Be => 2,
            DataType::U32Le => 3,
            DataType::U32Be => 4,
            DataType::VarInt => 5,
            DataType::Hex => 6,
            DataType::Binary => 7,
            DataType::Ascii => 8,
        }
    }

    /// The type after this one in the cyclic order; the last is followed by
    /// the first.
    pub fn next(&self) -> (r: DataType)
        ensures
            r == self.successor(),
    {
        let all = Self::all();
        let idx = self.position();
        all[(idx + 1) % TYPE_COUNT]
    }

    /// The type before this one in the cyclic order; the first is preceded
    /// by the last.
    pub fn prev(&self) -> (r: DataType)
        ensures
            r == self.predecessor(),
    {
        let all = Self::all();
        let idx = self.position();
        all[(idx + TYPE_COUNT - 1) % TYPE_COUNT]
    }

    /// The type that `name` denotes: `Some` exactly for the nine type names.
    pub fn from_name(name: &str) -> (r: Option<DataType>)
        ensures
            r == Self::named(name@),
    {
        let chars = str_chars(name);
        Self::from_name_chars(chars.as_slice())
    }

    /// The type that the characters `name` spell.
    pub fn from_name_chars(name: &[char]) -> (r: Option<DataType>)
        ensures
            r == Self::named(name@),
    {
        if chars_are(name, "u8") {
            Some(DataType::U8)
        } else if chars_are(name, "u16le") {
            Some(DataType::U16Le)
        } else if chars_are(name, "u16be") {
            Some(DataType::U16Be)
        } else if chars_are(name, "u32le") {
            Some(DataType::U32Le)
        } else if chars_are(name, "u32be") {
            Some(DataType::U32Be)
        } else if chars_are(name, "varint") {
            Some(DataType::VarInt)
        } else if chars_are(name, "hex") {
            Some(DataType::Hex)
        } else if chars_are(name, "binary") {
            Some(DataType::Binary)
        } else if chars_are(name, "ascii") {
            Some(DataType::Ascii)
        } else {
            None
        }
    }

    /// The column width a field of this type takes on screen.
    pub fn display_width(&self) -> (r: usize)
        ensures
            r == self.column_width(),
            2 <= r <= 11,
    {
        match self {
            DataType::U8 => 4,
            DataType::Hex => 3,
            DataType::Binary => 9,
            DataType::U16Le | DataType::U16Be => 6,
            DataType::U32Le | DataType::U32Be => 11,
            DataType::VarInt => 11,
            DataType::Ascii => 2,
        }
    }

    /// The width a value of this type is right-aligned to.
    pub fn format_width(&self) -> (r: usize)
        ensures
            r == self.value_width(),
            r + 1 == self.column_width(),
    {
        self.display_width() - 1
    }

    /// The value of the variable-length integer at the start of `data`.
    pub fn varint(data: &[u8]) -> (r: Option<u64>)
        ensures
            r == varint_value(data@),
    {
        let mut value: u64 = 0;
        let mut i: usize = 0;
        let n = data.len();
        proof {
            reveal_with_fuel(pow128, 11);
        }
        while i < n && i < VARINT_MAX_BYTES
            invariant
                i <= n,
                i <= VARINT_MAX_BYTES,
                n == data@.len(),
                varint_end(data@, 0) == varint_end(data@, i as int),
                i < VARINT_MAX_BYTES ==> value as nat == varint_sum(data@, i as nat),
                i < VARINT_MAX_BYTES ==> (value as nat) < pow128(i as nat),
            decreases n - i,
        {
            let byte = data[i];
            let low: u64 = (byte & 0x7F) as u64;
            let ghost before = value;
            proof {
                reveal_with_fuel(pow128, 11);
                assert(byte & 0x7F == byte % 128) by (bit_vector);
                assert((byte & 0x80 == 0) == (byte < 128)) by (bit_vector);
                lemma_varint_group(before, low, i as nat);
            }
            value = value | (low << (7 * i as u64));
            if byte & 0x80 == 0 {
                return Some(value);
            }
            i = i + 1;
        }
        proof {
            lemma_varint_end_bounds(data@, i as int);
        }
        None
    }

    /// The text shown for a variable-length integer at the start of `data`;
    /// empty where none can be read.
    pub fn decode_varint(data: &[u8]) -> (s: String)
        ensures
            s@ == DataType::VarInt.decoded(data@),
    {
        match Self::varint(data) {
            Some(v) => decimal_string(v),
            None => String::new(),
        }
    }

    /// The text shown for the bytes `data` read as this type. Never fails:
    /// where `data` is too short the text is empty.
    pub fn decode(&self, data: &[u8]) -> (s: String)
        ensures
            s@ == self.decoded(data@),
    {
        let n = data.len();
        match self {
            DataType::U8 => if n >= 1 {
                decimal_string(data[0] as u64)
            } else {
                String::new()
            },
            DataType::Hex => {
                let mut s = String::new();
                if n >= 1 {
                    push_hex2(&mut s, data[0]);
                }
                s
            },
            DataType::Binary => {
                let mut s = String::new();
                if n >= 1 {
                    push_binary8(&mut s, data[0]);
                }
                s
            },
            DataType::Ascii => {
                let mut s = String::new();
                if n >= 1 {
                    let v = data[0];
                    if 0x20 <= v && v <= 0x7E {
                        push_char(&mut s, v as char);
                    } else {
                        push_char(&mut s, '\\');
                        push_char(&mut s, 'x');
                        push_hex2(&mut s, v);
                    }
                    assert(s@ =~= ascii_text(v));
                }
                s
            },
            DataType::U16Le => if n >= 2 {
                decimal_string(data[0] as u64 + 0x100 * (data[1] as u64))
            } else {
                String::new()
            },
            DataType::U16Be => if n >= 2 {
                decimal_string(data[1] as u64 + 0x100 * (data[0] as u64))
            } else {
                String::new()
            },
            DataType::U32Le => if n >= 4 {
                decimal_string(
                    data[0] as u64 + 0x100 * (data[1] as u64) + 0x1_0000 * (data[2] as u64)
                        + 0x100_0000 * (data[3] as u64),
                )
            } else {
                String::new()
            },
            DataType::U32Be => if n >= 4 {
                decimal_string(
                    data[3] as u64 + 0x100 * (data[2] as u64) + 0x1_0000 * (data[1] as u64)
                        + 0x100_0000 * (data[0] as u64),
                )
            } else {
                String::new()
            },
            DataType::VarInt => Self::decode_varint(data),
        }
    }
}

/// The end of a variable-length integer lies at or behind where the

/// search began, every byte before it has its high bit set, and the byte

/// at it, where there is one, has it clear.
pub proof fn lemma_varint_end_bounds(data: Seq<u8>, i: int)
    requires
        0 <= i <= data.len(),
    ensures
        i <= varint_end(data, i) <= data.len(),
        forall|k: int| i <= k < varint_end(data, i) ==> data[k] >= 128,
        varint_end(data, i) < data.len() ==> data[varint_end(data, i)] < 128,
    decreases data.len() - i,
{
    if i < data.len() && data[i] >= 128 {
        lemma_varint_end_bounds(data, i + 1);
    }
}

/// Putting the `k`-th group of seven bits into place by a shift and a
/// bitwise or adds the group times 128 to the `k`, cut to 64 bits.
proof fn lemma_varint_group(value: u64, low: u64, k: nat)
    requires
        k < 10,
        low < 128,
        (value as nat) < pow128(k),
    ensures
        (value | (low << (7 * k) as u64)) as nat == (value as nat + low as nat * pow128(k))
            % 0x1_0000_0000_0000_0000,
        k < 9 ==> ((value | (low << (7 * k) as u64)) as nat) < pow128(k + 1),
        k < 9 ==> (value | (low << (7 * k) as u64)) as nat == value as nat + low as nat * pow128(k),
{
    reveal_with_fuel(pow128, 11);
    if k == 0 {
        assert(value < 1 && low < 128 ==> (value | (low << 0u64)) == value + low * 1 && (value | (
        low << 0u64)) < 0x80) by (bit_vector);
    } else if k == 1 {
        assert(value < 0x80 && low < 128 ==> (value | (low << 7u64)) == value + low * 0x80 && (value
            | (low << 7u64)) < 0x4000) by (bit_vector);
    } else if k == 2 {
        assert(value < 0x4000 && low < 128 ==> (value | (low << 14u64)) == value + low * 0x4000 && (
        value | (low << 14u64)) < 0x20_0000) by (bit_vector);
    } else if k == 3 {
        assert(value < 0x20_0000 && low < 128 ==> (value | (low << 21u64)) == value + low
            * 0x20_0000 && (value | (low << 21u64)) < 0x1000_0000) by (bit_vector);
    } else if k == 4 {
        assert(value < 0x1000_0000 && low < 128 ==> (value | (low << 28u64)) == value + low
            * 0x1000_0000 && (value | (low << 28u64)) < 0x8_0000_0000) by (bit_vector);
    } else if k == 5 {
        assert(value < 0x8_0000_0000 && low < 128 ==> (value | (low << 35u64)) == value + low
            * 0x8_0000_0000 && (value | (low << 35u64)) < 0x400_0000_0000) by (bit_vector);
    } else if k == 6 {
        assert(value < 0x400_0000_0000 && low < 128 ==> (value | (low << 42u64)) == value + low
            * 0x400_0000_0000 && (value | (low << 42u64)) < 0x2_0000_0000_0000) by (bit_vector);
    } else if k == 7 {
        assert(value < 0x2_0000_0000_0000 && low < 128 ==> (value | (low << 49u64)) == value + low
            * 0x2_0000_0000_0000 && (value | (low << 49u64)) < 0x100_0000_0000_0000)
            by (bit_vector);
    } else if k == 8 {
        assert(value < 0x100_0000_0000_0000 && low < 128 ==> (value | (low << 56u64)) == value + low
            * 0x100_0000_0000_0000 && (value | (low << 56u64)) < 0x8000_0000_0000_0000)
            by (bit_vector);
    } else {
        assert(value < 0x8000_0000_0000_0000 && low < 128 ==> (value | (low << 63u64)) == (value
            + low * 0x8000_0000_0000_0000) % 0x1_0000_0000_0000_0000) by (bit_vector);
    }
}

/// Type cycling is a cyclic order over the nine types: nine steps forward
/// lead back to the start, no fewer do, and a step back undoes a step
/// forward and the other way round.
pub proof fn lemma_type_cycle(t: DataType)
    ensures
        t.advanced(9) == t,
        forall|n: nat| 0 < n < 9 ==> #[trigger] t.advanced(n) != t,
        t.successor().predecessor() == t,
        t.predecessor().successor() == t,
{
    lemma_advanced_index(t, 9);
    lemma_index_determines(t.advanced(9), t);
    assert forall|n: nat| 0 < n < 9 implies #[trigger] t.advanced(n) != t by {
        lemma_advanced_index(t, n);
    }
}

/// Two types at the same place of the cyclic order are the same type.
pub proof fn lemma_index_determines(a: DataType, b: DataType)
    requires
        a.index() == b.index(),
    ensures
        a == b,
{
}

/// `n` steps forward move the place in the cyclic order by `n`, modulo
/// nine.
pub proof fn lemma_advanced_index(t: DataType, n: nat)
    ensures
        t.advanced(n).index() == (t.index() + n) % 9,
    decreases n,
{
    if n > 0 {
        lemma_advanced_index(t, (n - 1) as nat);
    }
}

/// The nine type names differ from one another.
proof fn lemma_names_differ()
    ensures
        "u8"@.len() == 2,
        "hex"@.len() == 3,
        "u16le"@.len() == 5 && "u16le"@[0] == 'u' && "u16le"@[1] == '1' && "u16le"@[3] == 'l',
        "u16be"@.len() == 5 && "u16be"@[0] == 'u' && "u16be"@[1] == '1' && "u16be"@[3] == 'b',
        "u32le"@.len() == 5 && "u32le"@[0] == 'u' && "u32le"@[1] == '3' && "u32le"@[3] == 'l',
        "u32be"@.len() == 5 && "u32be"@[0] == 'u' && "u32be"@[1] == '3' && "u32be"@[3] == 'b',
        "ascii"@.len() == 5 && "ascii"@[0] == 'a',
        "varint"@.len() == 6 && "varint"@[0] == 'v',
        "binary"@.len() == 6 && "binary"@[0] == 'b',
{
    reveal_strlit("u8");
    reveal_strlit("u16le");
    reveal_strlit("u16be");
    reveal_strlit("u32le");
    reveal_strlit("u32be");
    reveal_strlit("varint");
    reveal_strlit("hex");
    reveal_strlit("binary");
    reveal_strlit("ascii");
}

/// Whether a character is a lower-case letter or a digit.
pub open spec fn is_plain(c: char) -> bool {
    ('a' <= c <= 'z') || ('0' <= c <= '9')
}

/// The type names are made of lower-case letters and digits.
pub proof fn lemma_names_plain(t: DataType)
    ensures
        t.name_text().len() >= 2,
        forall|k: int| 0 <= k < t.name_text().len() ==> is_plain(#[trigger] t.name_text()[k]),
{
    let name = t.name_text();
    match t {
        DataType::U8 => {
            reveal_strlit("u8");
            assert(name.len() == 2 && name[0] == 'u' && name[1] == '8');
        },
        DataType::U16Le => {
            reveal_strlit("u16le");
            assert(name.len() == 5 && name[0] == 'u' && name[1] == '1' && name[2] == '6' && name[3] == 'l' && name[4] == 'e');
        },
        DataType::U16Be => {
            reveal_strlit("u16be");
            assert(name.len() == 5 && name[0] == 'u' && name[1] == '1' && name[2] == '6' && name[3] == 'b' && name[4] == 'e');
        },
        DataType::U32Le => {
            reveal_strlit("u32le");
            assert(name.len() == 5 && name[0] == 'u' && name[1] == '3' && name[2] == '2' && name[3] == 'l' && name[4] == 'e');
        },
        DataType::U32Be => {
            reveal_strlit("u32be");
            assert(name.len() == 5 && name[0] == 'u' && name[1] == '3' && name[2] == '2' && name[3] == 'b' && name[4] == 'e');
        },
        DataType::VarInt => {
            reveal_strlit("varint");
            assert(name.len() == 6 && name[0] == 'v' && name[1] == 'a' && name[2] == 'r' && name[3] == 'i' && name[4] == 'n' && name[5] == 't');
        },
        DataType::Hex => {
            reveal_strlit("hex");
            assert(name.len() == 3 && name[0] == 'h' && name[1] == 'e' && name[2] == 'x');
        },
        DataType::Binary => {
            reveal_strlit("binary");
            assert(name.len() == 6 && name[0] == 'b' && name[1] == 'i' && name[2] == 'n' && name[3] == 'a' && name[4] == 'r' && name[5] == 'y');
        },
        DataType::Ascii => {
            reveal_strlit("ascii");
            assert(name.len() == 5 && name[0] == 'a' && name[1] == 's' && name[2] == 'c' && name[3] == 'i' && name[4] == 'i');
        },
    }
}

/// Every type is the one that its name denotes, and no other name denotes
/// it.
pub proof fn lemma_name_round_trip(t: DataType)
    ensures
        DataType::named(t.name_text()) == Some(t),
        forall|text: Seq<char>| DataType::named(text) == Some(t) ==> text == t.name_text(),
{
    lemma_names_differ();
}

/// Bytes without an end among the first ten hold no variable-length
/// integer, and are shown as the empty text.
pub proof fn lemma_varint_without_end(data: Seq<u8>)
    requires
        forall|k: int| 0 <= k < data.len() && k < VARINT_MAX_BYTES ==> #[trigger] data[k] >= 128,
    ensures
        varint_value(data).is_none(),
        DataType::VarInt.decoded(data) == Seq::<char>::empty(),
{
    lemma_varint_end_bounds(data, 0);
    let e = varint_end(data, 0);
    if e < data.len() && e < VARINT_MAX_BYTES {
        assert(data[e] >= 128);
    }
}

/// The encoding of a number as a variable-length integer: its groups of
/// seven bits, least significant first, the high bit set on all but the
/// last.
pub open spec fn varint_encoding(v: nat) -> Seq<u8>
    decreases v,
{
    if v < 128 {
        seq![v as u8]
    } else {
        seq![(128 + v % 128) as u8] + varint_encoding(v / 128)
    }
}

proof fn lemma_sum_behind(b: u8, rest: Seq<u8>, n: nat)
    requires
        n <= rest.len(),
    ensures
        varint_sum(seq![b] + rest, n + 1) == (b as nat % 128) + 128 * varint_sum(rest, n),
    decreases n,
{
    let s = seq![b] + rest;
    if n == 0 {
        assert(varint_sum(s, 0) == 0);
        assert(s[0] == b);
        assert(pow128(0) == 1);
        assert(varint_sum(s, 1) == varint_sum(s, 0) + (s[0] as nat % 128) * pow128(0));
    } else {
        lemma_sum_behind(b, rest, (n - 1) as nat);
        assert(s[n as int] == rest[n - 1]);
        let g = rest[n - 1] as nat % 128;
        let p = pow128((n - 1) as nat);
        assert(pow128(n) == 128 * p);
        assert(varint_sum(s, n + 1) == varint_sum(s, n) + g * pow128(n));
        assert(varint_sum(rest, n) == varint_sum(rest, (n - 1) as nat) + g * p);
        assert(g * (128 * p) == 128 * (g * p)) by (nonlinear_arith);
        assert(128 * (varint_sum(rest, (n - 1) as nat) + g * p) == 128 * varint_sum(
            rest,
            (n - 1) as nat,
        ) + 128 * (g * p)) by (nonlinear_arith);
    }
}

proof fn lemma_end_behind(b: u8, rest: Seq<u8>, i: int)
    requires
        0 <= i <= rest.len(),
    ensures
        varint_end(seq![b] + rest, i + 1) == varint_end(rest, i) + 1,
    decreases rest.len() - i,
{
    let s = seq![b] + rest;
    if i < rest.len() {
        assert(s[i + 1] == rest[i]);
        if rest[i] >= 128 {
            lemma_end_behind(b, rest, i + 1);
        }
    }
}

/// The encoding of a number ends with its only byte whose high bit is
/// clear, and its groups add up to the number.
pub proof fn lemma_varint_encoding(v: nat)
    ensures
        varint_encoding(v).len() >= 1,
        varint_end(varint_encoding(v), 0) == varint_encoding(v).len() - 1,
        varint_sum(varint_encoding(v), varint_encoding(v).len()) == v,
    decreases v,
{
    let e = varint_encoding(v);
    if v < 128 {
        assert(e[0] == v);
        assert(pow128(0) == 1);
        assert(varint_sum(e, 0) == 0);
        assert(varint_sum(e, 1) == varint_sum(e, 0) + (e[0] as nat % 128) * pow128(0));
    } else {
        let b = (128 + v % 128) as u8;
        let rest = varint_encoding(v / 128);
        lemma_varint_encoding(v / 128);
        assert(e == seq![b] + rest);
        assert(e[0] == b);
        lemma_end_behind(b, rest, 0);
        lemma_sum_behind(b, rest, rest.len());
        assert(e.len() == rest.len() + 1);
    }
}

/// A number below 128 to the `k` has an encoding of at most `k` bytes.
pub proof fn lemma_varint_encoding_len(v: nat, k: nat)
    requires
        k >= 1,
        v < pow128(k),
    ensures
        varint_encoding(v).len() <= k,
    decreases k,
{
    if v >= 128 {
        assert(pow128(1) == 128) by {
            reveal_with_fuel(pow128, 2);
        }
        assert(k >= 2);
        assert(pow128(k) == 128 * pow128((k - 1) as nat));
        lemma_varint_encoding_len(v / 128, (k - 1) as nat);
    }
}

/// Round trip: every 64-bit number is the value of its encoding as a
/// variable-length integer, and is shown as its decimal rendering.
pub proof fn lemma_varint_round_trip(v: u64)
    ensures
        varint_value(varint_encoding(v as nat)) == Some(v),
        DataType::VarInt.decoded(varint_encoding(v as nat)) == decimal(v as nat),
{
    lemma_varint_encoding(v as nat);
    assert(pow128(10) == 0x40_0000_0000_0000_0000) by {
        reveal_with_fuel(pow128, 11);
    }
    lemma_varint_encoding_len(v as nat, 10);
}

} // verus!
