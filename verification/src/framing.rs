//! Record framing: how a file is cut into records, and how records are
//! written back.
//!
//! In the length-prefixed format every record is preceded by its length as
//! two bytes, least significant first. In the line format every line that
//! is not blank is a record written in hexadecimal, two digits to the byte.

use crate::frequency::views;
use crate::scan::{
    lines, parse_hex_number, parse_hex_unsigned, split_lines, texts, trim, trimmed,
};
use crate::text::{push_char, push_decimal, str_chars};
use vstd::prelude::*;
use vstd::string::*;

verus! {

/// The length that the two bytes at the start of `bytes` give.
pub open spec fn prefix_length(bytes: Seq<u8>) -> int {
    bytes[0] as int + 0x100 * bytes[1] as int
}

/// Why bytes are no list of length-prefixed records.
#[derive(Debug, Clone, Copy, PartialEq, Eq, Structural)]
pub enum FrameError {
    /// A record is cut short: its prefix at byte `at` asks for `needed`
    /// bytes where `available` follow.
    Truncated { at: usize, needed: usize, available: usize },
}

/// The records that length-prefixed bytes hold, the bytes standing at
/// position `base` of their file; or the error of the first record that is
/// cut short: where its prefix stands, how many bytes the prefix asks for,
/// and how many follow it. Reading ends where fewer than two bytes are left.
pub open spec fn frames(bytes: Seq<u8>, base: int) -> Result<Seq<Seq<u8>>, FrameError>
    decreases bytes.len(),
{
    if bytes.len() < 2 {
        Ok(Seq::empty())
    } else {
        let n = prefix_length(bytes);
        if bytes.len() < 2 + n {
            Err(
                FrameError::Truncated {
                    at: base as usize,
                    needed: n as usize,
                    available: (bytes.len() - 2) as usize,
                },
            )
        } else {
            match frames(bytes.skip(2 + n), base + 2 + n) {
                Ok(rest) => Ok(seq![bytes.subrange(2, 2 + n)] + rest),
                Err(e) => Err(e),
            }
        }
    }
}

/// The records that the length-prefixed bytes of a file hold, or the error
/// of the first record that is cut short.
pub open spec fn framed_records(bytes: Seq<u8>) -> Result<Seq<Seq<u8>>, FrameError> {
    frames(bytes, 0)
}

/// Reads the records of length-prefixed bytes. Where a record is cut short
/// the error tells where its prefix stands, how many bytes the prefix asks
/// for, and how many follow it.
pub fn parse_length16(bytes: &[u8]) -> (r: Result<Vec<Vec<u8>>, FrameError>)
    ensures
        match r {
            Ok(records) => framed_records(bytes@) == Ok::<Seq<Seq<u8>>, FrameError>(
                views(records@),
            ),
            Err(e) => framed_records(bytes@) == Err::<Seq<Seq<u8>>, FrameError>(e),
        },
{
    let n = bytes.len();
    let mut records: Vec<Vec<u8>> = Vec::new();
    let mut i: usize = 0;
    assert(bytes@.skip(0) =~= bytes@);
    assert(views(records@) =~= Seq::<Seq<u8>>::empty());
    while n - i >= 2
        invariant
            i <= n,
            n == bytes@.len(),
            framed_records(bytes@) == match frames(bytes@.skip(i as int), i as int) {
                Ok(rest) => Ok::<Seq<Seq<u8>>, FrameError>(views(records@) + rest),
                Err(e) => Err::<Seq<Seq<u8>>, FrameError>(e),
            },
        decreases n - i,
    {
        let ghost rest_bytes = bytes@.skip(i as int);
        let len: usize = bytes[i] as usize + 0x100 * (bytes[i + 1] as usize);
        assert(len == prefix_length(rest_bytes));
        if n - i - 2 < len {
            return Err(FrameError::Truncated { at: i, needed: len, available: n - i - 2 });
        }
        let record = vstd::slice::slice_to_vec(
            vstd::slice::slice_subrange(bytes, i + 2, i + 2 + len),
        );
        proof {
            assert(record@ =~= rest_bytes.subrange(2, 2 + len));
            assert(rest_bytes.skip(2 + len) =~= bytes@.skip(i + 2 + len));
            assert(views(records@.push(record)) =~= views(records@).push(record@));
            match frames(bytes@.skip(i + 2 + len), i + 2 + len) {
                Ok(rest) => {
                    assert(views(records@).push(record@) + rest =~= views(records@) + (
                    seq![record@] + rest));
                },
                Err(_) => {},
            }
        }
        records.push(record);
        i = i + 2 + len;
    }
    assert(views(records@) + Seq::<Seq<u8>>::empty() =~= views(records@));
    Ok(records)
}

/// The length-prefixed bytes of a list of records. The prefix holds the
/// low sixteen bits of the length.
pub open spec fn framing(records: Seq<Seq<u8>>) -> Seq<u8>
    decreases records.len(),
{
    if records.len() == 0 {
        Seq::empty()
    } else {
        let record = records.last();
        framing(records.drop_last()) + seq![
            (record.len() % 0x100) as u8,
            ((record.len() / 0x100) % 0x100) as u8,
        ] + record
    }
}

/// Writes the records with their length prefixes.
pub fn frame_length16(records: &[&Vec<u8>]) -> (bytes: Vec<u8>)
    ensures
        bytes@ == framing(crate::records::ref_views(records@)),
{
    let ghost all = crate::records::ref_views(records@);
    let mut bytes: Vec<u8> = Vec::new();
    let mut i: usize = 0;
    while i < records.len()
        invariant
            i <= records@.len(),
            all == crate::records::ref_views(records@),
            bytes@ == framing(all.take(i as int)),
        decreases records@.len() - i,
    {
        let record = records[i];
        let len = record.len();
        let ghost before = bytes@;
        bytes.push((len % 0x100) as u8);
        bytes.push(((len / 0x100) % 0x100) as u8);
        let mut k: usize = 0;
        while k < len
            invariant
                k <= len,
                len == record@.len(),
                bytes@ == before + seq![(len % 0x100) as u8, ((len / 0x100) % 0x100) as u8]
                    + record@.take(k as int),
            decreases len - k,
        {
            bytes.push(record[k]);
            assert(record@.take(k + 1) =~= record@.take(k as int).push(record@[k as int]));
            k = k + 1;
        }
        proof {
            assert(record@.take(len as int) =~= record@);
            assert(all.take(i + 1).drop_last() =~= all.take(i as int));
            assert(all.take(i + 1).last() == record@);
        }
        i = i + 1;
    }
    assert(all.take(records@.len() as int) =~= all);
    bytes
}

/// The number of bytes that a list of records is written as.
pub proof fn lemma_framing_len(records: Seq<Seq<u8>>)
    requires
        records.len() > 0,
    ensures
        framing(records).len() == framing(records.drop_last()).len() + 2 + records.last().len(),
{
}

/// Records of fewer than 65536 bytes each are read back as they were
/// written.
pub proof fn lemma_framing_round_trip(records: Seq<Seq<u8>>)
    requires
        forall|i: int| 0 <= i < records.len() ==> (#[trigger] records[i]).len() < 0x1_0000,
    ensures
        framed_records(framing(records)) == Ok::<Seq<Seq<u8>>, FrameError>(records),
{
    lemma_framed_append(records, Seq::empty(), 0);
    assert(framing(records) + Seq::<u8>::empty() =~= framing(records));
    assert(records + Seq::<Seq<u8>>::empty() =~= records);
}

/// Reading what was written, with more bytes behind it, gives the records
/// written and then what the further bytes hold.
pub proof fn lemma_framed_append(records: Seq<Seq<u8>>, more: Seq<u8>, base: int)
    requires
        forall|i: int| 0 <= i < records.len() ==> (#[trigger] records[i]).len() < 0x1_0000,
    ensures
        frames(framing(records) + more, base) == match frames(
            more,
            base + framing(records).len(),
        ) {
            Ok(rest) => Ok::<Seq<Seq<u8>>, FrameError>(records + rest),
            Err(e) => Err::<Seq<Seq<u8>>, FrameError>(e),
        },
    decreases records.len(),
{
    if records.len() == 0 {
        assert(framing(records) + more =~= more);
        match frames(more, base) {
            Ok(rest) => {
                assert(records + rest =~= rest);
            },
            Err(_) => {},
        }
    } else {
        let record = records.last();
        let init = records.drop_last();
        let prefix = seq![(record.len() % 0x100) as u8, ((record.len() / 0x100) % 0x100) as u8];
        let tail = prefix + record + more;
        let behind = base + framing(init).len();
        lemma_framing_len(records);
        assert(framing(records) + more =~= framing(init) + tail);
        assert(prefix_length(tail) == record.len());
        assert(tail.subrange(2, 2 + record.len() as int) =~= record);
        assert(tail.skip(2 + record.len() as int) =~= more);
        assert(behind + 2 + record.len() == base + framing(records).len());
        lemma_framed_append(init, tail, base);
        match frames(more, base + framing(records).len()) {
            Ok(rest) => {
                assert(frames(tail, behind) == Ok::<Seq<Seq<u8>>, FrameError>(
                    seq![record] + rest,
                ));
                assert(init + (seq![record] + rest) =~= records + rest);
            },
            Err(e) => {
                assert(frames(tail, behind) == Err::<Seq<Seq<u8>>, FrameError>(e));
            },
        }
    }
}

/// Why a text is no list of records in hexadecimal.
#[derive(Debug, Clone, Copy, PartialEq, Eq, Structural)]
pub enum HexError {
    /// A line has an odd number of characters.
    OddLength,
    /// Two characters of a line are no byte in hexadecimal.
    InvalidDigit,
}

/// The byte that two characters stand for: two hexadecimal digits, or a
/// plus sign and one hexadecimal digit.
pub open spec fn byte_of_pair(high: char, low: char) -> Option<u8> {
    match parse_hex_unsigned(seq![high, low], 255) {
        Some(v) => Some(v as u8),
        None => None,
    }
}

/// The bytes that a line of hexadecimal stands for.
pub open spec fn hex_line(line: Seq<char>) -> Result<Seq<u8>, HexError>
    decreases line.len(),
{
    if line.len() == 0 {
        Ok(Seq::empty())
    } else if line.len() == 1 {
        Err(HexError::OddLength)
    } else {
        match hex_line(line.drop_last().drop_last()) {
            Err(e) => Err(e),
            Ok(bytes) => match byte_of_pair(line[line.len() - 2], line.last()) {
                Some(b) => Ok(bytes.push(b)),
                None => Err(HexError::InvalidDigit),
            },
        }
    }
}

/// The records of a list of lines: every line that is not blank, without
/// the white space at its ends, is a record in hexadecimal. The first
/// faulty line gives the error.
pub open spec fn hex_records(all: Seq<Seq<char>>) -> Result<Seq<Seq<u8>>, HexError>
    decreases all.len(),
{
    if all.len() == 0 {
        Ok(Seq::empty())
    } else {
        match hex_records(all.drop_last()) {
            Err(e) => Err(e),
            Ok(records) => {
                let line = trimmed(all.last());
                if line.len() == 0 {
                    Ok(records)
                } else {
                    match hex_line(line) {
                        Ok(bytes) => Ok(records.push(bytes)),
                        Err(e) => Err(e),
                    }
                }
            },
        }
    }
}

/// Reads the bytes of a line of hexadecimal. A line of odd length is no
/// record; in a line of even length the first faulty pair is the error.
pub fn parse_hex_line(line: &[char]) -> (r: Result<Vec<u8>, HexError>)
    ensures
        match r {
            Ok(bytes) => hex_line(line@) == Ok::<Seq<u8>, HexError>(bytes@),
            Err(e) => hex_line(line@) == Err::<Seq<u8>, HexError>(e),
        },
{
    let n = line.len();
    if n % 2 == 1 {
        proof {
            lemma_hex_line_odd(line@);
        }
        return Err(HexError::OddLength);
    }
    let mut bytes: Vec<u8> = Vec::new();
    let mut i: usize = 0;
    assert(line@.take(0) =~= Seq::<char>::empty());
    while i < n
        invariant
            i <= n,
            i % 2 == 0,
            n % 2 == 0,
            n == line@.len(),
            hex_line(line@.take(i as int)) == Ok::<Seq<u8>, HexError>(bytes@),
        decreases n - i,
    {
        let ghost next = line@.take(i + 2);
        proof {
            assert(next.drop_last().drop_last() =~= line@.take(i as int));
            assert(next[next.len() - 2] == line@[i as int]);
            assert(next.last() == line@[i + 1]);
        }
        let pair = vstd::slice::slice_subrange(line, i, i + 2);
        assert(pair@ =~= seq![line@[i as int], line@[i + 1]]);
        match parse_hex_number(pair, 255) {
            Some(v) => {
                bytes.push(v as u8);
            },
            None => {
                proof {
                    lemma_hex_line_error_stays(line@, i + 2);
                }
                return Err(HexError::InvalidDigit);
            },
        }
        i = i + 2;
    }
    assert(line@.take(n as int) =~= line@);
    Ok(bytes)
}

/// A line of odd length is no record.
pub proof fn lemma_hex_line_odd(line: Seq<char>)
    requires
        line.len() % 2 == 1,
    ensures
        hex_line(line) == Err::<Seq<u8>, HexError>(HexError::OddLength),
    decreases line.len(),
{
    if line.len() > 1 {
        lemma_hex_line_odd(line.drop_last().drop_last());
    }
}

/// Once a prefix of even length has an error, a line of even length has
/// that error.
pub proof fn lemma_hex_line_error_stays(line: Seq<char>, k: int)
    requires
        0 <= k <= line.len(),
        k % 2 == 0,
        line.len() % 2 == 0,
        hex_line(line.take(k)) is Err,
    ensures
        hex_line(line) == hex_line(line.take(k)),
    decreases line.len(),
{
    if k == line.len() {
        assert(line.take(k) =~= line);
    } else {
        let inner = line.drop_last().drop_last();
        assert(inner.take(k) =~= line.take(k));
        lemma_hex_line_error_stays(inner, k);
    }
}

/// Reads the records of a text in hexadecimal lines.
pub fn parse_hex_lines(text: &str) -> (r: Result<Vec<Vec<u8>>, HexError>)
    ensures
        match r {
            Ok(records) => hex_records(lines(text@)) == Ok::<Seq<Seq<u8>>, HexError>(
                views(records@),
            ),
            Err(e) => hex_records(lines(text@)) == Err::<Seq<Seq<u8>>, HexError>(e),
        },
{
    let chars = str_chars(text);
    let all = split_lines(chars.as_slice());
    let ghost all_lines = lines(text@);
    let mut records: Vec<Vec<u8>> = Vec::new();
    let mut i: usize = 0;
    assert(views(records@) =~= Seq::<Seq<u8>>::empty());
    while i < all.len()
        invariant
            i <= all@.len(),
            texts(all@) == all_lines,
            all_lines == lines(text@),
            hex_records(all_lines.take(i as int)) == Ok::<Seq<Seq<u8>>, HexError>(views(records@)),
        decreases all@.len() - i,
    {
        proof {
            assert(all_lines.take(i + 1).drop_last() =~= all_lines.take(i as int));
            assert(all_lines.take(i + 1).last() == all@[i as int]@);
        }
        let line = trim(all[i].as_slice());
        if line.len() > 0 {
            match parse_hex_line(line.as_slice()) {
                Ok(bytes) => {
                    assert(views(records@.push(bytes)) =~= views(records@).push(bytes@));
                    records.push(bytes);
                },
                Err(e) => {
                    proof {
                        lemma_hex_records_error_stays(all_lines, i + 1);
                    }
                    return Err(e);
                },
            }
        }
        i = i + 1;
    }
    assert(all_lines.take(all@.len() as int) =~= all_lines);
    Ok(records)
}

/// Once a prefix of the lines has an error, the whole text has that error.
pub proof fn lemma_hex_records_error_stays(all: Seq<Seq<char>>, k: int)
    requires
        0 <= k <= all.len(),
        hex_records(all.take(k)) is Err,
    ensures
        hex_records(all) == hex_records(all.take(k)),
    decreases all.len(),
{
    if k < all.len() {
        assert(all.drop_last().take(k) =~= all.take(k));
        lemma_hex_records_error_stays(all.drop_last(), k);
    } else {
        assert(all.take(k) =~= all);
    }
}

/// The text without the given two characters at its start, as often as
/// they stand there.
pub open spec fn without_leading(s: Seq<char>, a: char, b: char) -> Seq<char>
    decreases s.len(),
{
    if s.len() >= 2 && s[0] == a && s[1] == b {
        without_leading(s.skip(2), a, b)
    } else {
        s
    }
}

/// The byte that a hexadecimal value on the command line denotes: white
/// space at the ends, a leading `0x` and then a leading `0X`, each as often
/// as it stands there, are not read.
pub open spec fn hex_byte(s: Seq<char>) -> Option<u8> {
    match parse_hex_unsigned(without_leading(without_leading(trimmed(s), '0', 'x'), '0', 'X'), 255) {
        Some(v) => Some(v as u8),
        None => None,
    }
}

fn skip_leading(s: &[char], from: usize, a: char, b: char) -> (at: usize)
    requires
        from <= s@.len(),
    ensures
        from <= at <= s@.len(),
        s@.skip(at as int) == without_leading(s@.skip(from as int), a, b),
{
    let n = s.len();
    let mut at: usize = from;
    while n - at >= 2 && s[at] == a && s[at + 1] == b
        invariant
            from <= at <= n,
            n == s@.len(),
            without_leading(s@.skip(from as int), a, b) == without_leading(s@.skip(at as int), a, b),
        decreases n - at,
    {
        assert(s@.skip(at as int).skip(2) =~= s@.skip(at + 2));
        at = at + 2;
    }
    at
}

/// Reads a byte in hexadecimal, such as `21` or `0x21`.
pub fn parse_hex_value(s: &str) -> (r: Option<u8>)
    ensures
        r == hex_byte(s@),
{
    let chars = str_chars(s);
    let cut = trim(chars.as_slice());
    assert(cut@.skip(0) =~= cut@);
    let a = skip_leading(cut.as_slice(), 0, '0', 'x');
    let b = skip_leading(cut.as_slice(), a, '0', 'X');
    let digits = vstd::slice::slice_subrange(cut.as_slice(), b, cut.len());
    assert(digits@ =~= cut@.skip(b as int));
    match parse_hex_number(digits, 255) {
        Some(v) => Some(v as u8),
        None => None,
    }
}

/// The name of the file that the group at place `index` is written to:
/// `group_a.bin` to `group_z.bin`, then the letters again with the round
/// behind them.
pub open spec fn group_file(index: nat) -> Seq<char> {
    "group_"@ + seq![(97 + index % 26) as u8 as char] + if index >= 26 {
        crate::text::decimal(index / 26)
    } else {
        Seq::empty()
    } + ".bin"@
}

/// The name of the file that the group at place `index` is written to.
pub fn group_file_name(index: usize) -> (name: String)
    ensures
        name@ == group_file(index as nat),
{
    let mut name = String::from_str("group_");
    push_char(&mut name, (97u8 + (index % 26) as u8) as char);
    if index >= 26 {
        push_decimal(&mut name, (index / 26) as u64);
    }
    name.append(".bin");
    name
}

} // verus!
