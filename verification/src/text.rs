//! Text building blocks: decimal, hexadecimal and binary renderings of
//! integers, padding, and the small scanners the line formats are read with.
//!
//! Scanners work on character slices; a string is turned into its characters
//! once and scanned by index afterwards.

use vstd::prelude::*;
use vstd::string::*;

verus! {

// ---------------------------------------------------------------------------
// Rendering numbers
// ---------------------------------------------------------------------------

/// The decimal digit character for a value below ten.
pub open spec fn digit_char(d: int) -> char {
    (48 + d) as u8 as char
}

/// The lower-case hexadecimal digit character for a value below sixteen.
pub open spec fn hex_digit_char(d: int) -> char {
    if d < 10 {
        (48 + d) as u8 as char
    } else {
        (87 + d) as u8 as char
    }
}

/// The decimal rendering of a natural number, without leading zeros.
pub open spec fn decimal(n: nat) -> Seq<char>
    decreases n,
{
    if n < 10 {
        seq![digit_char(n as int)]
    } else {
        decimal(n / 10).push(digit_char((n % 10) as int))
    }
}

/// Two lower-case hexadecimal digits, high nibble first.
pub open spec fn hex2(b: u8) -> Seq<char> {
    seq![hex_digit_char(b as int / 16), hex_digit_char(b as int % 16)]
}

/// Eight binary digits, most significant bit first.
pub open spec fn binary8(b: u8) -> Seq<char> {
    Seq::new(8, |i: int| digit_char((b as int / pow2_small(7 - i)) % 2))
}

/// Two to the power `e` for the exponents a byte needs; one elsewhere.
pub open spec fn pow2_small(e: int) -> int {
    if e == 1 {
        2
    } else if e == 2 {
        4
    } else if e == 3 {
        8
    } else if e == 4 {
        16
    } else if e == 5 {
        32
    } else if e == 6 {
        64
    } else if e == 7 {
        128
    } else {
        1
    }
}

/// `text` right-aligned in a column of `width` characters; text that is
/// already as wide or wider is left as it is.
pub open spec fn pad_left(text: Seq<char>, width: nat) -> Seq<char> {
    if text.len() >= width {
        text
    } else {
        Seq::new((width - text.len()) as nat, |i: int| ' ') + text
    }
}

/// The number of decimal digits of `n`.
pub open spec fn decimal_width(n: nat) -> nat
    decreases n,
{
    if n < 10 {
        1
    } else {
        decimal_width(n / 10) + 1
    }
}

/// The decimal rendering of a number has as many characters as the number

/// has digits, and at least one.
pub proof fn lemma_decimal_len(n: nat)
    ensures
        decimal(n).len() == decimal_width(n),
        1 <= decimal_width(n),
    decreases n,
{
    if n >= 10 {
        lemma_decimal_len(n / 10);
    }
}

/// A 64-bit number has at most twenty decimal digits.
pub proof fn lemma_decimal_width_bound(n: nat)
    requires
        n <= u64::MAX,
    ensures
        decimal_width(n) <= 20,
{
    reveal_with_fuel(decimal_width, 21);
}

/// `String::push`: the text grows by exactly the given character, at its end.
#[verifier::external_body]
pub(crate) fn push_char(s: &mut String, c: char)
    ensures
        final(s)@ == old(s)@.push(c),
{
    s.push(c)
}

/// Appends the decimal rendering of `n` to `s`.
pub fn push_decimal(s: &mut String, n: u64)
    ensures
        final(s)@ == old(s)@ + decimal(n as nat),
    decreases n,
{
    if n >= 10 {
        push_decimal(s, n / 10);
    }
    let d: u8 = (n % 10) as u8;
    push_char(s, (48u8 + d) as char);
}

/// Appends the decimal rendering of the number after `n` to `s`.
pub fn push_decimal_successor(s: &mut String, n: u64)
    ensures
        final(s)@ == old(s)@ + decimal((n + 1) as nat),
{
    if n < u64::MAX {
        push_decimal(s, n + 1);
    } else {
        // one more than the greatest 64-bit number
        push_decimal(s, 1844674407370955161);
        push_char(s, '6');
        assert(decimal(18446744073709551616nat) == decimal(1844674407370955161nat).push(
            digit_char(6),
        ));
    }
}

/// The decimal rendering of `n` as a fresh string.
pub fn decimal_string(n: u64) -> (s: String)
    ensures
        s@ == decimal(n as nat),
{
    let mut s = String::new();
    push_decimal(&mut s, n);
    s
}

/// The number of decimal digits of `n`.
pub fn decimal_digits(n: u64) -> (w: usize)
    ensures
        w == decimal_width(n as nat),
        1 <= w <= 20,
{
    proof {
        lemma_decimal_width_bound(n as nat);
        lemma_decimal_len(n as nat);
    }
    let mut w: usize = 1;
    let mut rest: u64 = n;
    while rest >= 10
        invariant
            decimal_width(n as nat) == decimal_width(rest as nat) + w - 1,
            decimal_width(n as nat) <= 20,
            w >= 1,
        decreases rest,
    {
        proof {
            lemma_decimal_len((rest / 10) as nat);
        }
        rest = rest / 10;
        w = w + 1;
    }
    w
}

fn hex_digit(d: u8) -> (c: char)
    requires
        d < 16,
    ensures
        c == hex_digit_char(d as int),
{
    if d < 10 {
        (48u8 + d) as char
    } else {
        (87u8 + d) as char
    }
}

/// Appends two lower-case hexadecimal digits for `b` to `s`.
pub fn push_hex2(s: &mut String, b: u8)
    ensures
        final(s)@ == old(s)@ + hex2(b),
{
    push_char(s, hex_digit(b / 16));
    push_char(s, hex_digit(b % 16));
    assert(s@ =~= old(s)@ + hex2(b));
}

/// Appends eight binary digits for `b` to `s`, most significant bit first.
pub fn push_binary8(s: &mut String, b: u8)
    ensures
        final(s)@ == old(s)@ + binary8(b),
{
    let mut i: u8 = 0;
    let mut div: u8 = 128;
    while i < 8
        invariant
            i <= 8,
            i < 8 ==> div as int == pow2_small(7 - i),
            s@ == old(s)@ + binary8(b).take(i as int),
        decreases 8 - i,
    {
        let bit: u8 = (b / div) % 2;
        push_char(s, (48u8 + bit) as char);
        assert(s@ =~= old(s)@ + binary8(b).take(i as int + 1));
        i = i + 1;
        if i < 8 {
            div = div / 2;
        }
    }
    assert(binary8(b).take(8) =~= binary8(b));
}

/// `text` right-aligned in a column of `width` characters.
pub fn pad_left_string(text: &str, width: usize) -> (s: String)
    ensures
        s@ == pad_left(text@, width as nat),
{
    let len = text.unicode_len();
    let mut s = String::new();
    if len < width {
        let fill = width - len;
        let mut i: usize = 0;
        while i < fill
            invariant
                i <= fill,
                s@ == Seq::new(i as nat, |k: int| ' '),
            decreases fill - i,
        {
            push_char(&mut s, ' ');
            assert(s@ =~= Seq::new((i + 1) as nat, |k: int| ' '));
            i = i + 1;
        }
    }
    s.append(text);
    assert(s@ =~= pad_left(text@, width as nat));
    s
}

// ---------------------------------------------------------------------------
// Characters of a string
// ---------------------------------------------------------------------------

/// The characters of `s`, in order.
pub fn str_chars(s: &str) -> (v: Vec<char>)
    ensures
        v@ == s@,
{
    let mut v: Vec<char> = Vec::new();
    for c in it: s.chars()
        invariant
            v@ == it.seq().take(it.index() as int),
            it.seq() == s@,
    {
        v.push(c);
    }
    v
}

/// Appends the characters `chars[from..to]` to `s`.
pub fn push_chars(s: &mut String, chars: &[char], from: usize, to: usize)
    requires
        from <= to <= chars@.len(),
    ensures
        final(s)@ == old(s)@ + chars@.subrange(from as int, to as int),
{
    let mut i: usize = from;
    while i < to
        invariant
            from <= i <= to <= chars@.len(),
            s@ == old(s)@ + chars@.subrange(from as int, i as int),
        decreases to - i,
    {
        push_char(s, chars[i]);
        assert(s@ =~= old(s)@ + chars@.subrange(from as int, i as int + 1));
        i = i + 1;
    }
}

/// The string made of the given characters.
pub fn string_from_chars(chars: &[char]) -> (s: String)
    ensures
        s@ == chars@,
{
    let mut s = String::new();
    push_chars(&mut s, chars, 0, chars.len());
    assert(chars@.subrange(0, chars@.len() as int) =~= chars@);
    s
}

/// A copy of `chars[from..to]`.
pub fn copy_range(chars: &[char], from: usize, to: usize) -> (v: Vec<char>)
    requires
        from <= to <= chars@.len(),
    ensures
        v@ == chars@.subrange(from as int, to as int),
{
    let mut v: Vec<char> = Vec::new();
    let mut i: usize = from;
    while i < to
        invariant
            from <= i <= to <= chars@.len(),
            v@ == chars@.subrange(from as int, i as int),
        decreases to - i,
    {
        v.push(chars[i]);
        assert(v@ =~= chars@.subrange(from as int, i as int + 1));
        i = i + 1;
    }
    v
}

/// Whether two character sequences are the same.
pub fn chars_eq(a: &[char], b: &[char]) -> (r: bool)
    ensures
        r == (a@ == b@),
{
    if a.len() != b.len() {
        return false;
    }
    let mut i: usize = 0;
    while i < a.len()
        invariant
            i <= a@.len(),
            a@.len() == b@.len(),
            forall|k: int| 0 <= k < i ==> a@[k] == b@[k],
        decreases a@.len() - i,
    {
        if a[i] != b[i] {
            return false;
        }
        i = i + 1;
    }
    assert(a@ =~= b@);
    true
}

/// Whether the characters spell exactly the given string.
pub fn chars_are(a: &[char], word: &str) -> (r: bool)
    ensures
        r == (a@ == word@),
{
    let w = str_chars(word);
    chars_eq(a, w.as_slice())
}

} // verus!
