//! Scanners over character sequences: lines, whitespace-separated words,
//! trimming, unsigned decimal numbers, and prefix, suffix and substring tests.

use vstd::prelude::*;

verus! {

/// Whether `c` is white space: the Unicode `White_Space` code points.
pub open spec fn is_space(c: char) -> bool {
    let u = c as u32;
    (0x09 <= u <= 0x0D) || u == 0x20 || u == 0x85 || u == 0xA0 || u == 0x1680 || (0x2000 <= u
        <= 0x200A) || u == 0x2028 || u == 0x2029 || u == 0x202F || u == 0x205F || u == 0x3000
}

/// Whether `c` is white space.
pub fn is_whitespace(c: char) -> (r: bool)
    ensures
        r == is_space(c),
{
    let u: u32 = c as u32;
    (0x09 <= u && u <= 0x0D) || u == 0x20 || u == 0x85 || u == 0xA0 || u == 0x1680 || (0x2000 <= u
        && u <= 0x200A) || u == 0x2028 || u == 0x2029 || u == 0x202F || u == 0x205F || u == 0x3000
}

/// The first index at or after `i` that holds white space, or the length.
pub open spec fn next_space(s: Seq<char>, i: int) -> int
    decreases s.len() - i,
{
    if i < 0 || i >= s.len() || is_space(s[i]) {
        i
    } else {
        next_space(s, i + 1)
    }
}

/// The first index at or after `i` that holds no white space, or the length.
pub open spec fn next_word(s: Seq<char>, i: int) -> int
    decreases s.len() - i,
{
    if i < 0 || i >= s.len() || !is_space(s[i]) {
        i
    } else {
        next_word(s, i + 1)
    }
}

/// The first index at or after `i` that holds a line feed, or the length.
pub open spec fn next_newline(s: Seq<char>, i: int) -> int
    decreases s.len() - i,
{
    if i < 0 || i >= s.len() || s[i] == '\n' {
        i
    } else {
        next_newline(s, i + 1)
    }
}

/// The next line feed lies at or behind where the search began, no line

/// feed stands before it, and one stands at it unless it is the end.
pub proof fn lemma_next_newline_bounds(s: Seq<char>, i: int)
    requires
        0 <= i <= s.len(),
    ensures
        i <= next_newline(s, i) <= s.len(),
        forall|k: int| i <= k < next_newline(s, i) ==> s[k] != '\n',
        next_newline(s, i) < s.len() ==> s[next_newline(s, i)] == '\n',
    decreases s.len() - i,
{
    if i < s.len() && s[i] != '\n' {
        lemma_next_newline_bounds(s, i + 1);
    }
}

/// The next white space stands where the text says it does: at `e`, when
/// no white space stands from `i` up to `e` and `e` is the end or holds
/// white space.
pub proof fn lemma_next_space_is(s: Seq<char>, i: int, e: int)
    requires
        0 <= i <= e <= s.len(),
        forall|k: int| i <= k < e ==> !is_space(#[trigger] s[k]),
        e == s.len() || is_space(s[e]),
    ensures
        next_space(s, i) == e,
    decreases e - i,
{
    if i < e {
        lemma_next_space_is(s, i + 1, e);
    }
}

/// The next white space lies at or behind where the search began.
pub proof fn lemma_next_space_from(s: Seq<char>, i: int)
    requires
        0 <= i <= s.len(),
    ensures
        i <= next_space(s, i) <= s.len(),
    decreases s.len() - i,
{
    if i < s.len() && !is_space(s[i]) {
        lemma_next_space_from(s, i + 1);
    }
}

/// The next word begins where the text says it does.
pub proof fn lemma_next_word_is(s: Seq<char>, i: int, e: int)
    requires
        0 <= i <= e <= s.len(),
        forall|k: int| i <= k < e ==> is_space(#[trigger] s[k]),
        e == s.len() || !is_space(s[e]),
    ensures
        next_word(s, i) == e,
    decreases e - i,
{
    if i < e {
        lemma_next_word_is(s, i + 1, e);
    }
}

/// The next line feed stands where the text says it does.
pub proof fn lemma_next_newline_is(s: Seq<char>, i: int, e: int)
    requires
        0 <= i <= e <= s.len(),
        forall|k: int| i <= k < e ==> #[trigger] s[k] != '\n',
        e == s.len() || s[e] == '\n',
    ensures
        next_newline(s, i) == e,
    decreases e - i,
{
    if i < e {
        lemma_next_newline_is(s, i + 1, e);
    }
}

/// Whether no character of a text is white space.
pub open spec fn no_space(s: Seq<char>) -> bool {
    forall|k: int| 0 <= k < s.len() ==> !is_space(#[trigger] s[k])
}

/// Three words with one blank between each two are the words of their
/// line.
pub proof fn lemma_words_of_three(a: Seq<char>, b: Seq<char>, c: Seq<char>)
    requires
        a.len() > 0 && no_space(a),
        b.len() > 0 && no_space(b),
        c.len() > 0 && no_space(c),
    ensures
        words(a + seq![' '] + b + seq![' '] + c) == seq![a, b, c],
{
    let s = a + seq![' '] + b + seq![' '] + c;
    let a_end = a.len() as int;
    let b_start = a_end + 1;
    let b_end = b_start + b.len();
    let c_start = b_end + 1;
    let c_end = c_start + c.len();
    assert(s.len() == c_end);
    assert forall|k: int| 0 <= k < a_end implies !is_space(#[trigger] s[k]) by {
        assert(s[k] == a[k]);
    }
    assert forall|k: int| b_start <= k < b_end implies !is_space(#[trigger] s[k]) by {
        assert(s[k] == b[k - b_start]);
    }
    assert forall|k: int| c_start <= k < c_end implies !is_space(#[trigger] s[k]) by {
        assert(s[k] == c[k - c_start]);
    }
    assert(s[a_end] == ' ' && s[b_end] == ' ');
    assert(s[0] == a[0] && s[b_start] == b[0] && s[c_start] == c[0]);
    lemma_next_word_is(s, 0, 0);
    lemma_next_space_is(s, 0, a_end);
    lemma_next_word_is(s, a_end, b_start);
    lemma_next_space_is(s, b_start, b_end);
    lemma_next_word_is(s, b_end, c_start);
    lemma_next_space_is(s, c_start, c_end);
    lemma_next_word_is(s, c_end, c_end);
    assert(words_from(s, c_end) =~= Seq::<Seq<char>>::empty());
    assert(s.subrange(c_start, c_end) =~= c);
    assert(words_from(s, b_end) =~= seq![c]);
    assert(s.subrange(b_start, b_end) =~= b);
    assert(words_from(s, a_end) =~= seq![b, c]);
    assert(s.subrange(0, a_end) =~= a);
    assert(words_from(s, 0) =~= seq![a, b, c]);
}

/// A line behind a text that is empty or ends with a line feed is one more
/// line of the whole.
pub proof fn lemma_lines_append(x: Seq<char>, line: Seq<char>)
    requires
        x.len() == 0 || x.last() == '\n',
        forall|k: int| 0 <= k < line.len() ==> #[trigger] line[k] != '\n',
    ensures
        lines(x + line + seq!['\n']) == lines(x).push(line),
{
    lemma_lines_append_from(x, line, 0);
}

proof fn lemma_lines_append_from(x: Seq<char>, line: Seq<char>, i: int)
    requires
        x.len() == 0 || x.last() == '\n',
        forall|k: int| 0 <= k < line.len() ==> #[trigger] line[k] != '\n',
        0 <= i <= x.len(),
    ensures
        lines_from(x + line + seq!['\n'], i) == lines_from(x, i).push(line),
    decreases x.len() - i,
{
    let s = x + line + seq!['\n'];
    if i == x.len() {
        let e: int = (x.len() + line.len()) as int;
        assert forall|k: int| i <= k < e implies #[trigger] s[k] != '\n' by {
            assert(s[k] == line[k - x.len()]);
        }
        assert(s[e] == '\n');
        lemma_next_newline_is(s, i, e);
        assert(s.subrange(i, e) =~= line);
        assert(lines_from(s, e + 1) =~= Seq::<Seq<char>>::empty());
        assert(lines_from(x, i) =~= Seq::<Seq<char>>::empty());
        assert(lines_from(s, i) =~= seq![line]);
    } else {
        lemma_next_newline_bounds(x, i);
        let e = next_newline(x, i);
        if e >= x.len() {
            // no line feed from i on: impossible in a text that ends with one
            assert(x[x.len() - 1] == '\n');
        }
        assert forall|k: int| i <= k < e implies #[trigger] s[k] != '\n' by {
            assert(s[k] == x[k]);
        }
        assert(s[e] == x[e]);
        lemma_next_newline_is(s, i, e);
        assert(s.subrange(i, e) =~= x.subrange(i, e));
        lemma_lines_append_from(x, line, e + 1);
        assert(lines_from(s, i) =~= seq![x.subrange(i, e)] + lines_from(s, e + 1));
        assert(lines_from(x, i) =~= seq![x.subrange(i, e)] + lines_from(x, e + 1));
    }
}

/// The decimal rendering of a number is made of digits and reads back as
/// the number.
pub proof fn lemma_decimal_reads_back(n: nat)
    ensures
        crate::text::decimal(n).len() >= 1,
        all_digits(crate::text::decimal(n)),
        digits_value(crate::text::decimal(n)) == n,
    decreases n,
{
    let d = crate::text::decimal(n);
    if n < 10 {
        assert(d.drop_last() =~= Seq::<char>::empty());
        assert(d.last() == crate::text::digit_char(n as int));
        assert(digits_value(d.drop_last()) == 0);
    } else {
        lemma_decimal_reads_back(n / 10);
        let init = crate::text::decimal(n / 10);
        assert(d.drop_last() =~= init);
        assert(d.last() == crate::text::digit_char((n % 10) as int));
        assert forall|i: int| 0 <= i < d.len() implies is_digit(#[trigger] d[i]) by {
            if i < d.len() - 1 {
                assert(d[i] == init[i]);
            }
        }
    }
}

/// The decimal rendering of a number within a limit is read as that
/// number; it holds no white space and begins with a digit.
pub proof fn lemma_parse_decimal(n: nat, max: nat)
    requires
        n <= max,
    ensures
        parse_unsigned(crate::text::decimal(n), max) == Some(n),
        no_space(crate::text::decimal(n)),
        crate::text::decimal(n).len() >= 1,
        is_digit(crate::text::decimal(n)[0]),
{
    lemma_decimal_reads_back(n);
    let d = crate::text::decimal(n);
    assert(is_digit(d[0]));
    assert(number_body(d) == d);
    assert forall|k: int| 0 <= k < d.len() implies !is_space(#[trigger] d[k]) by {
        assert(is_digit(d[k]));
    }
}

/// The lines of a text from index `i` on: the stretches between line feeds.
/// A line feed at the very end opens no further line.
pub open spec fn lines_from(s: Seq<char>, i: int) -> Seq<Seq<char>>
    decreases s.len() - i,
{
    if i < 0 || i >= s.len() {
        Seq::empty()
    } else {
        let e = next_newline(s, i);
        if i <= e < s.len() {
            seq![s.subrange(i, e)] + lines_from(s, e + 1)
        } else {
            seq![s.skip(i)]
        }
    }
}

/// The lines of a text.
pub open spec fn lines(s: Seq<char>) -> Seq<Seq<char>> {
    lines_from(s, 0)
}

/// The words of a text from index `i` on: the maximal stretches without
/// white space.
pub open spec fn words_from(s: Seq<char>, i: int) -> Seq<Seq<char>>
    decreases s.len() - i,
{
    let a = next_word(s, i);
    if i < 0 || a < i || a >= s.len() {
        Seq::empty()
    } else {
        let e = next_space(s, a);
        if a < e <= s.len() {
            seq![s.subrange(a, e)] + words_from(s, e)
        } else {
            Seq::empty()
        }
    }
}

/// The words of a text.
pub open spec fn words(s: Seq<char>) -> Seq<Seq<char>> {
    words_from(s, 0)
}

/// The text without white space at either end.
pub open spec fn trimmed(s: Seq<char>) -> Seq<char> {
    let a = next_word(s, 0);
    let e = trim_end(s, a);
    if 0 <= a <= e <= s.len() {
        s.subrange(a, e)
    } else {
        Seq::empty()
    }
}

/// The end of the text once trailing white space is cut, never before `from`.
pub open spec fn trim_end(s: Seq<char>, from: int) -> int
    decreases s.len(),
{
    if s.len() <= from || s.len() == 0 || !is_space(s.last()) {
        s.len() as int
    } else {
        trim_end(s.drop_last(), from)
    }
}

/// The views of a list of character vectors.
pub open spec fn texts(v: Seq<Vec<char>>) -> Seq<Seq<char>> {
    Seq::new(v.len(), |i: int| v[i]@)
}

fn copy_span(s: &[char], from: usize, to: usize) -> (v: Vec<char>)
    requires
        from <= to <= s@.len(),
    ensures
        v@ == s@.subrange(from as int, to as int),
{
    crate::text::copy_range(s, from, to)
}

/// Splits a text into its lines.
pub fn split_lines(s: &[char]) -> (out: Vec<Vec<char>>)
    ensures
        texts(out@) == lines(s@),
{
    let mut out: Vec<Vec<char>> = Vec::new();
    let mut i: usize = 0;
    let n = s.len();
    while i < n
        invariant
            n == s@.len(),
            i <= n,
            lines(s@) == texts(out@) + lines_from(s@, i as int),
        decreases n - i,
    {
        let mut e: usize = i;
        while e < n && s[e] != '\n'
            invariant
                i <= e <= n,
                n == s@.len(),
                next_newline(s@, i as int) == next_newline(s@, e as int),
            decreases n - e,
        {
            e = e + 1;
        }
        let line = copy_span(s, i, e);
        proof {
            assert(next_newline(s@, i as int) == e);
            let prev = texts(out@);
            assert(texts(out@.push(line)) =~= prev + seq![s@.subrange(i as int, e as int)]);
            assert(s@.skip(i as int) =~= s@.subrange(i as int, n as int));
            assert(lines_from(s@, i as int) =~= seq![s@.subrange(i as int, e as int)] + lines_from(
                s@,
                e + 1,
            ));
            assert(prev + lines_from(s@, i as int) =~= (prev + seq![
                s@.subrange(i as int, e as int),
            ]) + lines_from(s@, e + 1));
        }
        out.push(line);
        if e < n {
            i = e + 1;
        } else {
            i = n;
        }
    }
    assert(lines_from(s@, n as int) =~= Seq::<Seq<char>>::empty());
    assert(texts(out@) + Seq::<Seq<char>>::empty() =~= texts(out@));
    out
}

/// Splits a text into its words.
pub fn split_words(s: &[char]) -> (out: Vec<Vec<char>>)
    ensures
        texts(out@) == words(s@),
{
    let mut out: Vec<Vec<char>> = Vec::new();
    let mut i: usize = 0;
    let n = s.len();
    loop
        invariant_except_break
            n == s@.len(),
            i <= n,
            words(s@) == texts(out@) + words_from(s@, i as int),
        ensures
            texts(out@) == words(s@),
        decreases n - i,
    {
        let mut a: usize = i;
        while a < n && is_whitespace(s[a])
            invariant
                i <= a <= n,
                n == s@.len(),
                next_word(s@, i as int) == next_word(s@, a as int),
            decreases n - a,
        {
            a = a + 1;
        }
        assert(next_word(s@, i as int) == a);
        if a >= n {
            assert(words_from(s@, i as int) =~= Seq::<Seq<char>>::empty());
            assert(texts(out@) + Seq::<Seq<char>>::empty() =~= texts(out@));
            break;
        }
        let mut e: usize = a + 1;
        assert(next_space(s@, a as int) == next_space(s@, a + 1));
        while e < n && !is_whitespace(s[e])
            invariant
                a < e <= n,
                n == s@.len(),
                next_space(s@, a as int) == next_space(s@, e as int),
            decreases n - e,
        {
            e = e + 1;
        }
        let word = copy_span(s, a, e);
        proof {
            assert(next_space(s@, a as int) == e);
            let prev = texts(out@);
            assert(texts(out@.push(word)) =~= prev + seq![s@.subrange(a as int, e as int)]);
            assert(words_from(s@, i as int) == seq![s@.subrange(a as int, e as int)] + words_from(
                s@,
                e as int,
            ));
            assert(prev + words_from(s@, i as int) =~= (prev + seq![
                s@.subrange(a as int, e as int),
            ]) + words_from(s@, e as int));
        }
        out.push(word);
        i = e;
    }
    out
}

/// The text without white space at either end.
pub fn trim(s: &[char]) -> (v: Vec<char>)
    ensures
        v@ == trimmed(s@),
{
    let n = s.len();
    let mut a: usize = 0;
    while a < n && is_whitespace(s[a])
        invariant
            a <= n,
            n == s@.len(),
            next_word(s@, 0) == next_word(s@, a as int),
        decreases n - a,
    {
        a = a + 1;
    }
    assert(next_word(s@, 0) == a);
    let mut e: usize = n;
    assert(s@.take(n as int) =~= s@);
    while e > a && is_whitespace(s[e - 1])
        invariant
            a <= e <= n,
            n == s@.len(),
            trim_end(s@, a as int) == trim_end(s@.take(e as int), a as int),
        decreases e,
    {
        assert(s@.take(e as int).drop_last() =~= s@.take(e - 1));
        e = e - 1;
    }
    assert(trim_end(s@.take(e as int), a as int) == e);
    copy_span(s, a, e)
}

// ---------------------------------------------------------------------------
// Unsigned decimal numbers
// ---------------------------------------------------------------------------

/// Whether `c` is one of the ten ASCII digits.
pub open spec fn is_digit(c: char) -> bool {
    '0' <= c <= '9'
}

/// The value of a run of ASCII digits read as a decimal number.
pub open spec fn digits_value(s: Seq<char>) -> nat
    decreases s.len(),
{
    if s.len() == 0 {
        0
    } else {
        digits_value(s.drop_last()) * 10 + (s.last() as u32 - 48) as nat
    }
}

/// Whether every character is an ASCII digit.
pub open spec fn all_digits(s: Seq<char>) -> bool {
    forall|i: int| 0 <= i < s.len() ==> is_digit(#[trigger] s[i])
}

/// The digits of a number text: the text itself, or what follows one
/// leading plus sign.
pub open spec fn number_body(s: Seq<char>) -> Seq<char> {
    if s.len() > 0 && s[0] == '+' {
        s.skip(1)
    } else {
        s
    }
}

/// The number a text denotes, when it is an unsigned decimal number of at
/// most `max`: an optional plus sign, then one or more ASCII digits.
pub open spec fn parse_unsigned(s: Seq<char>, max: nat) -> Option<nat> {
    let body = number_body(s);
    if body.len() > 0 && all_digits(body) && digits_value(body) <= max {
        Some(digits_value(body))
    } else {
        None
    }
}

/// The first digits of a number are worth no more than the number.
pub proof fn lemma_digits_value_prefix(s: Seq<char>, k: int)
    requires
        0 <= k <= s.len(),
    ensures
        digits_value(s.take(k)) <= digits_value(s),
    decreases s.len(),
{
    if k < s.len() {
        assert(s.drop_last().take(k) =~= s.take(k));
        lemma_digits_value_prefix(s.drop_last(), k);
    } else {
        assert(s.take(k) =~= s);
    }
}

/// Reads an unsigned decimal number that fits in 64 bits and is at most `max`.
pub fn parse_number(s: &[char], max: u64) -> (r: Option<u64>)
    ensures
        r.is_some() == parse_unsigned(s@, max as nat).is_some(),
        r matches Some(v) ==> parse_unsigned(s@, max as nat) == Some(v as nat),
{
    let n = s.len();
    let start: usize = if n > 0 && s[0] == '+' {
        1
    } else {
        0
    };
    let ghost body = number_body(s@);
    assert(body =~= s@.subrange(start as int, n as int));
    if start >= n {
        return None;
    }
    let mut i: usize = start;
    let mut value: u64 = 0;
    while i < n
        invariant
            start <= i <= n,
            n == s@.len(),
            body == s@.subrange(start as int, n as int),
            body == number_body(s@),
            all_digits(body.take(i - start)),
            value as nat == digits_value(body.take(i - start)),
            value <= max,
        decreases n - i,
    {
        let c = s[i];
        let ghost next = body.take(i - start + 1);
        proof {
            assert(next.drop_last() =~= body.take(i - start));
            assert(next.last() == c);
            lemma_digits_value_prefix(body, i - start + 1);
        }
        if !('0' <= c && c <= '9') {
            assert(!is_digit(body[i - start]));
            return None;
        }
        let d: u64 = (c as u32 - 48) as u64;
        let grown = match value.checked_mul(10) {
            Some(m) => m.checked_add(d),
            None => None,
        };
        match grown {
            Some(g) => {
                if g > max {
                    return None;
                }
                value = g;
            },
            None => {
                return None;
            },
        }
        assert(all_digits(next)) by {
            assert forall|k: int| 0 <= k < next.len() implies is_digit(#[trigger] next[k]) by {
                if k < next.len() - 1 {
                    assert(body.take(i - start)[k] == next[k]);
                }
            }
        }
        i = i + 1;
    }
    assert(body.take(n - start) =~= body);
    Some(value)
}

// ---------------------------------------------------------------------------
// Unsigned hexadecimal numbers
// ---------------------------------------------------------------------------

/// The value of a hexadecimal digit, in either case.
pub open spec fn hex_digit_value(c: char) -> Option<nat> {
    if '0' <= c <= '9' {
        Some((c as u32 - 48) as nat)
    } else if 'a' <= c <= 'f' {
        Some((c as u32 - 87) as nat)
    } else if 'A' <= c <= 'F' {
        Some((c as u32 - 55) as nat)
    } else {
        None
    }
}

/// Whether every character is a hexadecimal digit.
pub open spec fn all_hex_digits(s: Seq<char>) -> bool {
    forall|i: int| 0 <= i < s.len() ==> hex_digit_value(#[trigger] s[i]).is_some()
}

/// The value of a run of hexadecimal digits.
pub open spec fn hex_value(s: Seq<char>) -> nat
    decreases s.len(),
{
    if s.len() == 0 {
        0
    } else {
        hex_value(s.drop_last()) * 16 + match hex_digit_value(s.last()) {
            Some(d) => d,
            None => 0,
        }
    }
}

/// The number a text denotes, when it is an unsigned hexadecimal number of
/// at most `max`: an optional plus sign, then one or more hexadecimal
/// digits.
pub open spec fn parse_hex_unsigned(s: Seq<char>, max: nat) -> Option<nat> {
    let body = number_body(s);
    if body.len() > 0 && all_hex_digits(body) && hex_value(body) <= max {
        Some(hex_value(body))
    } else {
        None
    }
}

/// The first digits of a hexadecimal number are worth no more than the

/// number.
pub proof fn lemma_hex_value_prefix(s: Seq<char>, k: int)
    requires
        0 <= k <= s.len(),
    ensures
        hex_value(s.take(k)) <= hex_value(s),
    decreases s.len(),
{
    if k < s.len() {
        assert(s.drop_last().take(k) =~= s.take(k));
        lemma_hex_value_prefix(s.drop_last(), k);
    } else {
        assert(s.take(k) =~= s);
    }
}

/// The value of a hexadecimal digit.
pub fn hex_digit(c: char) -> (r: Option<u8>)
    ensures
        match r {
            Some(d) => hex_digit_value(c) == Some(d as nat) && d < 16,
            None => hex_digit_value(c).is_none(),
        },
{
    if '0' <= c && c <= '9' {
        Some((c as u32 - 48) as u8)
    } else if 'a' <= c && c <= 'f' {
        Some((c as u32 - 87) as u8)
    } else if 'A' <= c && c <= 'F' {
        Some((c as u32 - 55) as u8)
    } else {
        None
    }
}

/// Reads an unsigned hexadecimal number that fits in 64 bits and is at
/// most `max`.
pub fn parse_hex_number(s: &[char], max: u64) -> (r: Option<u64>)
    ensures
        r.is_some() == parse_hex_unsigned(s@, max as nat).is_some(),
        r matches Some(v) ==> parse_hex_unsigned(s@, max as nat) == Some(v as nat),
{
    let n = s.len();
    let start: usize = if n > 0 && s[0] == '+' {
        1
    } else {
        0
    };
    let ghost body = number_body(s@);
    assert(body =~= s@.subrange(start as int, n as int));
    if start >= n {
        return None;
    }
    let mut i: usize = start;
    let mut value: u64 = 0;
    while i < n
        invariant
            start <= i <= n,
            n == s@.len(),
            body == s@.subrange(start as int, n as int),
            body == number_body(s@),
            all_hex_digits(body.take(i - start)),
            value as nat == hex_value(body.take(i - start)),
            value <= max,
        decreases n - i,
    {
        let c = s[i];
        let ghost next = body.take(i - start + 1);
        proof {
            assert(next.drop_last() =~= body.take(i - start));
            assert(next.last() == c);
            lemma_hex_value_prefix(body, i - start + 1);
        }
        let d: u64 = match hex_digit(c) {
            Some(d) => d as u64,
            None => {
                assert(hex_digit_value(body[i - start]).is_none());
                return None;
            },
        };
        let grown = match value.checked_mul(16) {
            Some(m) => m.checked_add(d),
            None => None,
        };
        match grown {
            Some(g) => {
                if g > max {
                    return None;
                }
                value = g;
            },
            None => {
                return None;
            },
        }
        assert(all_hex_digits(next)) by {
            assert forall|k: int| 0 <= k < next.len() implies hex_digit_value(
                #[trigger] next[k],
            ).is_some() by {
                if k < next.len() - 1 {
                    assert(body.take(i - start)[k] == next[k]);
                }
            }
        }
        i = i + 1;
    }
    assert(body.take(n - start) =~= body);
    Some(value)
}

// ---------------------------------------------------------------------------
// Prefix, suffix, substring
// ---------------------------------------------------------------------------

/// Whether `text` begins with `pat`.
pub open spec fn has_prefix(text: Seq<char>, pat: Seq<char>) -> bool {
    pat.len() <= text.len() && text.take(pat.len() as int) == pat
}

/// Whether `text` ends with `pat`.
pub open spec fn has_suffix(text: Seq<char>, pat: Seq<char>) -> bool {
    pat.len() <= text.len() && text.skip(text.len() - pat.len()) == pat
}

/// Whether `pat` occurs in `text` at index `at`.
pub open spec fn occurs_at(text: Seq<char>, pat: Seq<char>, at: int) -> bool {
    0 <= at && at + pat.len() <= text.len() && text.subrange(at, at + pat.len()) == pat
}

/// Whether `pat` occurs somewhere in `text`.
pub open spec fn has_substring(text: Seq<char>, pat: Seq<char>) -> bool {
    exists|at: int| occurs_at(text, pat, at)
}

/// Whether `pat` occurs in `text` at index `at`.
pub fn matches_at(text: &[char], pat: &[char], at: usize) -> (r: bool)
    ensures
        r == occurs_at(text@, pat@, at as int),
{
    if pat.len() > text.len() || at > text.len() - pat.len() {
        return false;
    }
    let mut k: usize = 0;
    let n = text.len();
    while k < pat.len()
        invariant
            k <= pat@.len(),
            n == text@.len(),
            at + pat@.len() <= text@.len(),
            forall|j: int| 0 <= j < k ==> text@[at + j] == pat@[j],
        decreases pat@.len() - k,
    {
        if text[at + k] != pat[k] {
            assert(text@.subrange(at as int, at + pat@.len())[k as int] != pat@[k as int]);
            return false;
        }
        k = k + 1;
    }
    assert(text@.subrange(at as int, at + pat@.len()) =~= pat@);
    true
}

/// Whether `text` begins with `pat`.
pub fn starts_with(text: &[char], pat: &[char]) -> (r: bool)
    ensures
        r == has_prefix(text@, pat@),
{
    let r = matches_at(text, pat, 0);
    proof {
        if pat@.len() <= text@.len() {
            assert(text@.take(pat@.len() as int) =~= text@.subrange(0, pat@.len() as int));
        }
    }
    r
}

/// Whether `text` ends with `pat`.
pub fn ends_with(text: &[char], pat: &[char]) -> (r: bool)
    ensures
        r == has_suffix(text@, pat@),
{
    if pat.len() > text.len() {
        return false;
    }
    let at = text.len() - pat.len();
    let r = matches_at(text, pat, at);
    proof {
        assert(text@.skip(text@.len() - pat@.len()) =~= text@.subrange(
            at as int,
            at + pat@.len(),
        ));
    }
    r
}

/// Whether `pat` occurs somewhere in `text`.
pub fn contains(text: &[char], pat: &[char]) -> (r: bool)
    ensures
        r == has_substring(text@, pat@),
{
    if pat.len() > text.len() {
        assert forall|at: int| !occurs_at(text@, pat@, at) by {}
        return false;
    }
    let last = text.len() - pat.len();
    let mut at: usize = 0;
    loop
        invariant_except_break
            at <= last,
            last == text@.len() - pat@.len(),
            forall|j: int| 0 <= j < at ==> !occurs_at(text@, pat@, j),
        ensures
            !has_substring(text@, pat@),
        decreases last - at,
    {
        if matches_at(text, pat, at) {
            return true;
        }
        if at == last {
            assert forall|j: int| !occurs_at(text@, pat@, j) by {}
            break;
        }
        at = at + 1;
    }
    false
}

} // verus!
