//! Base85 with a choice of alphabet: five characters stand for four bytes,
//! most significant first.

use crate::outside::{char_debug, lowercase, lowercased, quoted_char};
use crate::text::{chars_are, str_chars};
use vstd::prelude::*;
use vstd::string::*;

verus! {

/// The ASCII85 alphabet: the characters from `!` to `u`.
pub open spec fn ascii85_alphabet() -> Seq<u8> {
    seq![
            33u8, 34u8, 35u8, 36u8, 37u8, 38u8, 39u8, 40u8, 41u8, 42u8, 43u8, 44u8, 45u8, 46u8, 47u8, 48u8, 49u8,
            50u8, 51u8, 52u8, 53u8, 54u8, 55u8, 56u8, 57u8, 58u8, 59u8, 60u8, 61u8, 62u8, 63u8, 64u8, 65u8, 66u8,
            67u8, 68u8, 69u8, 70u8, 71u8, 72u8, 73u8, 74u8, 75u8, 76u8, 77u8, 78u8, 79u8, 80u8, 81u8, 82u8, 83u8,
            84u8, 85u8, 86u8, 87u8, 88u8, 89u8, 90u8, 91u8, 92u8, 93u8, 94u8, 95u8, 96u8, 97u8, 98u8, 99u8, 100u8,
            101u8, 102u8, 103u8, 104u8, 105u8, 106u8, 107u8, 108u8, 109u8, 110u8, 111u8, 112u8, 113u8, 114u8, 115u8, 116u8, 117u8,
    ]
}

/// The ASCII85 alphabet: the characters from `!` to `u`.
pub fn ascii85() -> (alphabet: [u8; 85])
    ensures
        alphabet@ == ascii85_alphabet(),
{
    let alphabet: [u8; 85] = [
            33, 34, 35, 36, 37, 38, 39, 40, 41, 42, 43, 44, 45, 46, 47, 48, 49,
            50, 51, 52, 53, 54, 55, 56, 57, 58, 59, 60, 61, 62, 63, 64, 65, 66,
            67, 68, 69, 70, 71, 72, 73, 74, 75, 76, 77, 78, 79, 80, 81, 82, 83,
            84, 85, 86, 87, 88, 89, 90, 91, 92, 93, 94, 95, 96, 97, 98, 99, 100,
            101, 102, 103, 104, 105, 106, 107, 108, 109, 110, 111, 112, 113, 114, 115, 116, 117,
    ];
    assert(alphabet@ =~= ascii85_alphabet());
    alphabet
}

/// The Z85 alphabet.
pub open spec fn z85_alphabet() -> Seq<u8> {
    seq![
            48u8, 49u8, 50u8, 51u8, 52u8, 53u8, 54u8, 55u8, 56u8, 57u8, 97u8, 98u8, 99u8, 100u8, 101u8, 102u8, 103u8,
            104u8, 105u8, 106u8, 107u8, 108u8, 109u8, 110u8, 111u8, 112u8, 113u8, 114u8, 115u8, 116u8, 117u8, 118u8, 119u8, 120u8,
            121u8, 122u8, 65u8, 66u8, 67u8, 68u8, 69u8, 70u8, 71u8, 72u8, 73u8, 74u8, 75u8, 76u8, 77u8, 78u8, 79u8,
            80u8, 81u8, 82u8, 83u8, 84u8, 85u8, 86u8, 87u8, 88u8, 89u8, 90u8, 46u8, 45u8, 58u8, 43u8, 61u8, 94u8,
            33u8, 47u8, 42u8, 63u8, 38u8, 60u8, 62u8, 40u8, 41u8, 91u8, 93u8, 123u8, 125u8, 64u8, 37u8, 36u8, 35u8,
    ]
}

/// The Z85 alphabet.
pub fn z85() -> (alphabet: [u8; 85])
    ensures
        alphabet@ == z85_alphabet(),
{
    let alphabet: [u8; 85] = [
            48, 49, 50, 51, 52, 53, 54, 55, 56, 57, 97, 98, 99, 100, 101, 102, 103,
            104, 105, 106, 107, 108, 109, 110, 111, 112, 113, 114, 115, 116, 117, 118, 119, 120,
            121, 122, 65, 66, 67, 68, 69, 70, 71, 72, 73, 74, 75, 76, 77, 78, 79,
            80, 81, 82, 83, 84, 85, 86, 87, 88, 89, 90, 46, 45, 58, 43, 61, 94,
            33, 47, 42, 63, 38, 60, 62, 40, 41, 91, 93, 123, 125, 64, 37, 36, 35,
    ];
    assert(alphabet@ =~= z85_alphabet());
    alphabet
}

/// The alphabet of Borderlands 4 serials.
pub open spec fn bl4_alphabet() -> Seq<u8> {
    seq![
            48u8, 49u8, 50u8, 51u8, 52u8, 53u8, 54u8, 55u8, 56u8, 57u8, 65u8, 66u8, 67u8, 68u8, 69u8, 70u8, 71u8,
            72u8, 73u8, 74u8, 75u8, 76u8, 77u8, 78u8, 79u8, 80u8, 81u8, 82u8, 83u8, 84u8, 85u8, 86u8, 87u8, 88u8,
            89u8, 90u8, 97u8, 98u8, 99u8, 100u8, 101u8, 102u8, 103u8, 104u8, 105u8, 106u8, 107u8, 108u8, 109u8, 110u8, 111u8,
            112u8, 113u8, 114u8, 115u8, 116u8, 117u8, 118u8, 119u8, 120u8, 121u8, 122u8, 33u8, 35u8, 36u8, 37u8, 38u8, 40u8,
            41u8, 42u8, 43u8, 45u8, 59u8, 60u8, 61u8, 62u8, 63u8, 64u8, 94u8, 95u8, 96u8, 123u8, 47u8, 125u8, 126u8,
    ]
}

/// The alphabet of Borderlands 4 serials.
pub fn bl4() -> (alphabet: [u8; 85])
    ensures
        alphabet@ == bl4_alphabet(),
{
    let alphabet: [u8; 85] = [
            48, 49, 50, 51, 52, 53, 54, 55, 56, 57, 65, 66, 67, 68, 69, 70, 71,
            72, 73, 74, 75, 76, 77, 78, 79, 80, 81, 82, 83, 84, 85, 86, 87, 88,
            89, 90, 97, 98, 99, 100, 101, 102, 103, 104, 105, 106, 107, 108, 109, 110, 111,
            112, 113, 114, 115, 116, 117, 118, 119, 120, 121, 122, 33, 35, 36, 37, 38, 40,
            41, 42, 43, 45, 59, 60, 61, 62, 63, 64, 94, 95, 96, 123, 47, 125, 126,
    ];
    assert(alphabet@ =~= bl4_alphabet());
    alphabet
}

/// The alphabets by name.
#[derive(Debug, Clone, Copy, PartialEq, Eq, Structural)]
pub enum Charset {
    Ascii85,
    Z85,
    Bl4,
}

/// The alphabet that a lower-case name denotes.
pub open spec fn charset_named(name: Seq<char>) -> Option<Charset> {
    if name == "ascii85"@ || name == "standard"@ {
        Some(Charset::Ascii85)
    } else if name == "z85"@ || name == "zeromq"@ {
        Some(Charset::Z85)
    } else if name == "bl4"@ || name == "borderlands"@ || name == "borderlands4"@ {
        Some(Charset::Bl4)
    } else {
        None
    }
}

impl Charset {
    /// The characters of the alphabet, the digit of each its place.
    pub open spec fn alphabet_spec(self) -> Seq<u8> {
        match self {
            Charset::Ascii85 => ascii85_alphabet(),
            Charset::Z85 => z85_alphabet(),
            Charset::Bl4 => bl4_alphabet(),
        }
    }

    /// The characters of the alphabet, the digit of each its place.
    pub fn alphabet(&self) -> (alphabet: [u8; 85])
        ensures
            alphabet@ == self.alphabet_spec(),
    {
        match self {
            Charset::Ascii85 => ascii85(),
            Charset::Z85 => z85(),
            Charset::Bl4 => bl4(),
        }
    }

    /// The alphabet that a lower-case name denotes.
    pub fn from_lowercase(name: &[char]) -> (r: Option<Charset>)
        ensures
            r == charset_named(name@),
    {
        if chars_are(name, "ascii85") || chars_are(name, "standard") {
            Some(Charset::Ascii85)
        } else if chars_are(name, "z85") || chars_are(name, "zeromq") {
            Some(Charset::Z85)
        } else if chars_are(name, "bl4") || chars_are(name, "borderlands") || chars_are(
            name,
            "borderlands4",
        ) {
            Some(Charset::Bl4)
        } else {
            None
        }
    }

    /// The alphabet that a name denotes, whatever the case of its letters.
    pub fn named(name: &str) -> (r: Option<Charset>)
        ensures
            r == charset_named(lowercased(name@)),
    {
        let lower = lowercase(name);
        let chars = str_chars(lower.as_str());
        Self::from_lowercase(chars.as_slice())
    }
}

/// The alphabet that a name denotes, whatever the case of its letters:
/// `ascii85` or `standard`, `z85` or `zeromq`, `bl4`, `borderlands` or
/// `borderlands4`.
pub fn get(name: &str) -> (r: Option<[u8; 85]>)
    ensures
        match charset_named(lowercased(name@)) {
            Some(charset) => r matches Some(alphabet) && alphabet@ == charset.alphabet_spec(),
            None => r.is_none(),
        },
{
    match Charset::named(name) {
        Some(charset) => Some(charset.alphabet()),
        None => None,
    }
}

/// The digit that a character stands for in an alphabet: its place, the
/// last where it stands at several; none where it does not stand in it.
pub open spec fn digit_of(charset: Seq<u8>, c: u8, n: int) -> Option<int>
    decreases n,
{
    if n <= 0 {
        None
    } else if charset[n - 1] == c {
        Some(n - 1)
    } else {
        digit_of(charset, c, n - 1)
    }
}

/// The first character of a chunk that does not stand in the alphabet.
pub open spec fn first_invalid(charset: Seq<u8>, chunk: Seq<u8>) -> Option<u8>
    decreases chunk.len(),
{
    if chunk.len() == 0 {
        None
    } else if digit_of(charset, chunk[0], charset.len() as int).is_none() {
        Some(chunk[0])
    } else {
        first_invalid(charset, chunk.skip(1))
    }
}

/// The number that the first `k` of the five digits of a chunk make, most
/// significant first. A chunk of fewer than five characters is filled up
/// with the highest digit.
pub open spec fn chunk_value(charset: Seq<u8>, chunk: Seq<u8>, k: int) -> int
    decreases k,
{
    if k <= 0 {
        0
    } else {
        chunk_value(charset, chunk, k - 1) * 85 + if k - 1 < chunk.len() {
            match digit_of(charset, chunk[k - 1], charset.len() as int) {
                Some(d) => d,
                None => 0,
            }
        } else {
            84
        }
    }
}

/// The four bytes of the low 32 bits of a number, most significant first.
pub open spec fn low_bytes(value: int) -> Seq<u8> {
    seq![
        ((value / 0x100_0000) % 256) as u8,
        ((value / 0x1_0000) % 256) as u8,
        ((value / 0x100) % 256) as u8,
        (value % 256) as u8,
    ]
}

/// The bytes that a chunk of one to five characters stands for: one fewer
/// than it has characters.
pub open spec fn chunk_bytes(charset: Seq<u8>, chunk: Seq<u8>) -> Seq<u8> {
    low_bytes(chunk_value(charset, chunk, 5)).take(chunk.len() - 1)
}

/// The bytes that a text stands for, chunk by chunk, or the first
/// character that does not stand in the alphabet.
pub open spec fn decoded(charset: Seq<u8>, input: Seq<u8>) -> Result<Seq<u8>, u8>
    decreases input.len(),
{
    if input.len() == 0 {
        Ok(Seq::empty())
    } else {
        let n = if input.len() < 5 {
            input.len() as int
        } else {
            5
        };
        let chunk = input.take(n);
        match first_invalid(charset, chunk) {
            Some(c) => Err(c),
            None => match decoded(charset, input.skip(n)) {
                Ok(rest) => Ok(chunk_bytes(charset, chunk) + rest),
                Err(c) => Err(c),
            },
        }
    }
}

/// The message for a character that does not stand in the alphabet.
pub open spec fn invalid_character_text(c: u8) -> Seq<char> {
    "invalid base85 character: "@ + char_debug(c as char)
}

/// The digit that a character stands for in an alphabet.
pub fn digit(charset: &[u8; 85], c: u8) -> (r: Option<u8>)
    ensures
        match r {
            Some(d) => digit_of(charset@, c, 85) == Some(d as int) && d < 85,
            None => digit_of(charset@, c, 85).is_none(),
        },
{
    let mut n: usize = 85;
    while n > 0
        invariant
            n <= 85,
            digit_of(charset@, c, 85) == digit_of(charset@, c, n as int),
        decreases n,
    {
        if charset[n - 1] == c {
            return Some((n - 1) as u8);
        }
        n = n - 1;
    }
    None
}

/// Decodes base85 text over the given alphabet. Five characters give four
/// bytes; a shorter last chunk gives one byte fewer than it has
/// characters. Fails on the first character that is not in the alphabet.
pub fn decode(input: &str, charset: &[u8; 85]) -> (r: Result<Vec<u8>, String>)
    ensures
        match r {
            Ok(bytes) => decoded(charset@, input.spec_bytes()) == Ok::<Seq<u8>, u8>(bytes@),
            Err(message) => decoded(charset@, input.spec_bytes()) matches Err(c) && message@
                == invalid_character_text(c),
        },
{
    let bytes = input.as_bytes();
    match decode_bytes(bytes, charset) {
        Ok(out) => Ok(out),
        Err(c) => {
            let mut message = String::from_str("invalid base85 character: ");
            let quoted = quoted_char(c as char);
            message.append(quoted.as_str());
            Err(message)
        },
    }
}

/// The number that a chunk of one to five characters stands for, or its
/// first character that is not in the alphabet.
pub fn decode_chunk(chunk: &[u8], charset: &[u8; 85]) -> (r: Result<u64, u8>)
    requires
        1 <= chunk@.len() <= 5,
    ensures
        match r {
            Ok(value) => first_invalid(charset@, chunk@).is_none() && value == chunk_value(
                charset@,
                chunk@,
                5,
            ) && value < pow85(5),
            Err(c) => first_invalid(charset@, chunk@) == Some(c),
        },
{
    let len = chunk.len();
    let mut acc: u64 = 0;
    let mut j: usize = 0;
    assert(chunk@.skip(0) =~= chunk@);
    while j < 5
        invariant
            j <= 5,
            len == chunk@.len(),
            1 <= len <= 5,
            acc == chunk_value(charset@, chunk@, j as int),
            acc < pow85(j as int),
            first_invalid(charset@, chunk@) == first_invalid(
                charset@,
                chunk@.skip(
                    if j < len {
                        j as int
                    } else {
                        len as int
                    },
                ),
            ),
        decreases 5 - j,
    {
        let mut d: u64 = 84;
        if j < len {
            let c = chunk[j];
            assert(chunk@.skip(j as int)[0] == c);
            assert(chunk@.skip(j as int).skip(1) =~= chunk@.skip(j + 1));
            match digit(charset, c) {
                Some(v) => {
                    d = v as u64;
                },
                None => {
                    return Err(c);
                },
            }
        }
        proof {
            reveal_with_fuel(pow85, 7);
        }
        acc = acc * 85 + d;
        j = j + 1;
    }
    assert(chunk@.skip(len as int) =~= Seq::<u8>::empty());
    Ok(acc)
}

/// Appends the first `count` of the four low bytes of `value`.
pub fn push_low_bytes(out: &mut Vec<u8>, value: u64, count: usize)
    requires
        count <= 4,
    ensures
        final(out)@ == old(out)@ + low_bytes(value as int).take(count as int),
{
    let b0: u8 = ((value / 0x100_0000) % 256) as u8;
    let b1: u8 = ((value / 0x1_0000) % 256) as u8;
    let b2: u8 = ((value / 0x100) % 256) as u8;
    let b3: u8 = (value % 256) as u8;
    if count >= 1 {
        out.push(b0);
    }
    if count >= 2 {
        out.push(b1);
    }
    if count >= 3 {
        out.push(b2);
    }
    if count >= 4 {
        out.push(b3);
    }
    assert(out@ =~= old(out)@ + low_bytes(value as int).take(count as int));
}

/// Decodes base85 bytes over the given alphabet.
pub fn decode_bytes(bytes: &[u8], charset: &[u8; 85]) -> (r: Result<Vec<u8>, u8>)
    ensures
        match r {
            Ok(out) => decoded(charset@, bytes@) == Ok::<Seq<u8>, u8>(out@),
            Err(c) => decoded(charset@, bytes@) == Err::<Seq<u8>, u8>(c),
        },
{
    let n = bytes.len();
    let mut result: Vec<u8> = Vec::new();
    let mut i: usize = 0;
    assert(bytes@.skip(0) =~= bytes@);
    while i < n
        invariant
            i <= n,
            n == bytes@.len(),
            decoded(charset@, bytes@) == match decoded(charset@, bytes@.skip(i as int)) {
                Ok(rest) => Ok::<Seq<u8>, u8>(result@ + rest),
                Err(c) => Err::<Seq<u8>, u8>(c),
            },
        decreases n - i,
    {
        let chunk_len: usize = if n - i < 5 {
            n - i
        } else {
            5
        };
        let chunk = vstd::slice::slice_subrange(bytes, i, i + chunk_len);
        let ghost rest_input = bytes@.skip(i as int);
        proof {
            assert(chunk@ =~= rest_input.take(chunk_len as int));
            assert(rest_input.skip(chunk_len as int) =~= bytes@.skip(i + chunk_len));
        }
        let value = match decode_chunk(chunk, charset) {
            Ok(v) => v,
            Err(c) => {
                return Err(c);
            },
        };
        let ghost before = result@;
        push_low_bytes(&mut result, value, chunk_len - 1);
        proof {
            match decoded(charset@, bytes@.skip(i + chunk_len)) {
                Ok(rest) => {
                    assert((before + chunk_bytes(charset@, chunk@)) + rest =~= before + (
                    chunk_bytes(charset@, chunk@) + rest));
                },
                Err(_) => {},
            }
        }
        i = i + chunk_len;
    }
    assert(bytes@.skip(n as int) =~= Seq::<u8>::empty());
    assert(result@ + Seq::<u8>::empty() =~= result@);
    Ok(result)
}

/// 85 to the power `k`.
pub open spec fn pow85(k: int) -> int
    decreases k,
{
    if k <= 0 {
        1
    } else {
        85 * pow85(k - 1)
    }
}

} // verus!
