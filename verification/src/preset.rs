//! Structured presets: how the records of a format are delimited, how the
//! format is recognised, and how a record is transformed for display.

use crate::base85_charsets::{charset_named, decode, decoded, invalid_character_text, Charset};
use crate::outside::{
    base64_decode, base64_standard, hex_encode, hex_text, lossy_text, lowercased, regex_captured,
    regex_captures, regex_is_match, regex_verdict, utf8_lossy, Captured, CapturedView,
};
use crate::records::{record_views, ref_views};
use crate::sampling::{is_sample_of, take_sample};
use crate::scan::{
    contains, ends_with, has_prefix, has_substring, has_suffix, starts_with, trim, trimmed,
};
use crate::text::{chars_are, push_char, str_chars, string_from_chars};
use vstd::prelude::*;
use vstd::string::*;
use vstd::utf8::encode_utf8;

verus! {

/// The name and description of a preset.
#[derive(Debug, Clone)]
pub struct PresetMeta {
    pub name: String,
    pub description: String,
}

impl Default for PresetMeta {
    fn default() -> (meta: PresetMeta)
        ensures
            meta.name@ == Seq::<char>::empty(),
            meta.description@ == Seq::<char>::empty(),
    {
        PresetMeta { name: String::new(), description: String::new() }
    }
}

/// How the records are delimited in the input.
#[derive(Debug, Clone)]
pub enum RecordFormat {
    /// Text lines.
    Lines,
    /// Binary with a 16-bit length before each record.
    Length16,
    /// Binary with a 32-bit length before each record.
    Length32,
    /// Boundaries given by a pattern.
    Custom { pattern: String },
}

impl Default for RecordFormat {
    fn default() -> (format: RecordFormat)
        ensures
            format is Lines,
    {
        RecordFormat::Lines
    }
}

/// A rule by which a preset recognises its records.
#[derive(Debug, Clone)]
#[allow(inconsistent_fields)]
pub enum DetectRule {
    StartsWith { value: String },
    EndsWith { value: String },
    Contains { value: String },
    Regex { pattern: String },
    MinLength { value: usize },
    MaxLength { value: usize },
    ByteEquals { position: usize, value: u8 },
}

impl DetectRule {
    /// What the pattern of a pattern rule says of a text; none for the
    /// other rules, and for a pattern that is no regular expression.
    pub open spec fn verdict_on(self, text: Seq<char>) -> Option<bool> {
        match self {
            DetectRule::Regex { pattern } => regex_verdict(pattern@, text),
            _ => None,
        }
    }

    /// Whether the rule holds of a record, given the record as text and
    /// what the rule's pattern says of that text.
    pub open spec fn holds(self, record: Seq<u8>, text: Seq<char>, verdict: Option<bool>) -> bool {
        match self {
            DetectRule::StartsWith { value } => has_prefix(text, value@),
            DetectRule::EndsWith { value } => has_suffix(text, value@),
            DetectRule::Contains { value } => has_substring(text, value@),
            DetectRule::Regex { pattern } => verdict == Some(true),
            DetectRule::MinLength { value } => record.len() >= value,
            DetectRule::MaxLength { value } => record.len() <= value,
            DetectRule::ByteEquals { position, value } => position < record.len()
                && record[position as int] == value,
        }
    }

    /// Whether the rule holds of a record. The text rules read the record
    /// as text, invalid sequences replaced.
    pub open spec fn matches_spec(self, record: Seq<u8>) -> bool {
        self.holds(record, utf8_lossy(record), self.verdict_on(utf8_lossy(record)))
    }

    /// Whether the rule holds of a record, given the record as text and
    /// what the rule's pattern says of that text.
    pub fn holds_given(&self, record: &[u8], text: &[char], verdict: Option<bool>) -> (r: bool)
        ensures
            r == self.holds(record@, text@, verdict),
    {
        let len = record.len();
        match self {
            DetectRule::StartsWith { value } => {
                let pat = str_chars(value.as_str());
                starts_with(text, pat.as_slice())
            },
            DetectRule::EndsWith { value } => {
                let pat = str_chars(value.as_str());
                ends_with(text, pat.as_slice())
            },
            DetectRule::Contains { value } => {
                let pat = str_chars(value.as_str());
                contains(text, pat.as_slice())
            },
            DetectRule::Regex { pattern } => match verdict {
                Some(found) => found,
                None => false,
            },
            DetectRule::MinLength { value } => len >= *value,
            DetectRule::MaxLength { value } => len <= *value,
            DetectRule::ByteEquals { position, value } => *position < len && record[*position]
                == *value,
        }
    }

    /// Whether the rule holds of a record. A pattern that is no regular
    /// expression holds of no record.
    pub fn matches(&self, record: &[u8]) -> (r: bool)
        ensures
            r == self.matches_spec(record@),
    {
        match self {
            DetectRule::MinLength { .. } | DetectRule::MaxLength { .. } | DetectRule::ByteEquals {
                ..
            } => {
                let none: Vec<char> = Vec::new();
                self.holds_given(record, none.as_slice(), None)
            },
            DetectRule::Regex { pattern } => {
                let text = lossy_text(record);
                let verdict = regex_is_match(pattern.as_str(), text.as_str());
                let chars = str_chars(text.as_str());
                self.holds_given(record, chars.as_slice(), verdict)
            },
            _ => {
                let text = lossy_text(record);
                let chars = str_chars(text.as_str());
                self.holds_given(record, chars.as_slice(), None)
            },
        }
    }
}

/// Whether every rule of the list holds of a record.
pub open spec fn all_rules_hold(rules: Seq<DetectRule>, record: Seq<u8>) -> bool {
    forall|i: int| 0 <= i < rules.len() ==> (#[trigger] rules[i]).matches_spec(record)
}

/// How many of the samples every rule of the list holds of.
pub open spec fn rule_match_count(rules: Seq<DetectRule>, samples: Seq<Seq<u8>>) -> nat
    decreases samples.len(),
{
    if samples.len() == 0 {
        0
    } else {
        rule_match_count(rules, samples.drop_last()) + if all_rules_hold(rules, samples.last()) {
            1nat
        } else {
            0nat
        }
    }
}

/// Whether every rule of the list holds of a record.
pub fn all_rules_match(rules: &[DetectRule], record: &[u8]) -> (r: bool)
    ensures
        r == all_rules_hold(rules@, record@),
{
    let mut i: usize = 0;
    while i < rules.len()
        invariant
            i <= rules@.len(),
            forall|k: int| 0 <= k < i ==> (#[trigger] rules@[k]).matches_spec(record@),
        decreases rules@.len() - i,
    {
        if !rules[i].matches(record) {
            return false;
        }
        i = i + 1;
    }
    true
}

/// How many of the samples every rule of the list holds of.
pub fn count_rule_matches(rules: &[DetectRule], samples: &[&Vec<u8>]) -> (count: usize)
    ensures
        count == rule_match_count(rules@, ref_views(samples@)),
        count <= samples@.len(),
{
    let ghost all = ref_views(samples@);
    let mut count: usize = 0;
    let mut i: usize = 0;
    while i < samples.len()
        invariant
            i <= samples@.len(),
            all == ref_views(samples@),
            count <= i,
            count == rule_match_count(rules@, all.take(i as int)),
        decreases samples@.len() - i,
    {
        proof {
            assert(all.take(i + 1).drop_last() =~= all.take(i as int));
            assert(all.take(i + 1).last() == samples@[i as int]@);
        }
        if all_rules_match(rules, samples[i].as_slice()) {
            count = count + 1;
        }
        i = i + 1;
    }
    assert(all.take(samples@.len() as int) =~= all);
    count
}

/// What went wrong in a transform.
#[derive(Debug, Clone, Copy, PartialEq, Eq, Structural)]
pub enum GlossErrorKind {
    /// The segment pattern is no regular expression.
    InvalidSegment,
    /// The text is no base85 over the chosen alphabet.
    Base85,
    /// The text is no base64.
    Base64,
    /// The transform has no such name.
    UnknownTransform,
}

/// An error of a transform: its kind, and the detail that its message
/// ends with.
#[derive(Debug)]
pub struct GlossError {
    pub kind: GlossErrorKind,
    pub detail: String,
}

/// The message of an error.
pub open spec fn gloss_error_text(kind: GlossErrorKind, detail: Seq<char>) -> Seq<char> {
    match kind {
        GlossErrorKind::InvalidSegment => "invalid segment pattern: "@ + detail,
        GlossErrorKind::Base85 => "base85 decode error: "@ + detail,
        GlossErrorKind::Base64 => "base64 decode error"@,
        GlossErrorKind::UnknownTransform => "unknown transform: "@ + detail,
    }
}

impl GlossError {
    /// The message of the error.
    pub fn message(&self) -> (text: String)
        ensures
            text@ == gloss_error_text(self.kind, self.detail@),
    {
        match self.kind {
            GlossErrorKind::InvalidSegment => {
                let mut text = String::from_str("invalid segment pattern: ");
                text.append(self.detail.as_str());
                text
            },
            GlossErrorKind::Base85 => {
                let mut text = String::from_str("base85 decode error: ");
                text.append(self.detail.as_str());
                text
            },
            GlossErrorKind::Base64 => String::from_str("base64 decode error"),
            GlossErrorKind::UnknownTransform => {
                let mut text = String::from_str("unknown transform: ");
                text.append(self.detail.as_str());
                text
            },
        }
    }
}

/// A transform result as plain values: the text, or the kind and detail of
/// the error.
pub type GlossResult = Result<Seq<char>, (GlossErrorKind, Seq<char>)>;

/// Whether an executable result is the given plain one.
pub open spec fn is_result(r: Result<String, GlossError>, expected: GlossResult) -> bool {
    match r {
        Ok(text) => expected == Ok::<Seq<char>, (GlossErrorKind, Seq<char>)>(text@),
        Err(e) => expected == Err::<Seq<char>, (GlossErrorKind, Seq<char>)>((e.kind, e.detail@)),
    }
}

/// How a record is transformed for display.
#[derive(Debug, Clone)]
pub struct GlossConfig {
    /// A built-in transform: `base85`, `base64`, `hex` or `none`.
    pub transform: Option<String>,
    /// The base85 alphabet by name.
    pub base85_charset: Option<String>,
    /// A command to run for the transform.
    pub command: Option<Vec<String>>,
    /// A pattern whose first group, or whole match, is the part of the
    /// record that is transformed.
    pub segment: Option<String>,
    /// The transform to fall back on when the command fails.
    pub fallback: Option<String>,
    /// Whether results are cached.
    pub cache: bool,
}

/// The text without blanks, line feeds and carriage returns.
pub open spec fn without_breaks(text: Seq<char>) -> Seq<char> {
    text.filter(|c: char| c != ' ' && c != '\n' && c != '\r')
}

/// The text without blanks, line feeds and carriage returns.
pub fn strip_breaks(text: &[char]) -> (s: String)
    ensures
        s@ == without_breaks(text@),
{
    let ghost keep = |c: char| c != ' ' && c != '\n' && c != '\r';
    let mut s = String::new();
    let mut i: usize = 0;
    assert(text@.take(0).filter(keep) =~= Seq::<char>::empty()) by {
        reveal(Seq::filter);
    }
    while i < text.len()
        invariant
            i <= text@.len(),
            keep == |c: char| c != ' ' && c != '\n' && c != '\r',
            s@ == text@.take(i as int).filter(keep),
        decreases text@.len() - i,
    {
        let c = text[i];
        proof {
            reveal(Seq::filter);
            assert(text@.take(i + 1).drop_last() =~= text@.take(i as int));
        }
        if c != ' ' && c != '\n' && c != '\r' {
            push_char(&mut s, c);
        }
        i = i + 1;
    }
    assert(text@.take(text@.len() as int) =~= text@);
    s
}

/// What a transform begins with: it is done, or a command is to be run on
/// a text.
#[derive(Debug)]
pub enum GlossStep {
    Done(Result<String, GlossError>),
    Run { command: Vec<String>, input: String },
}

/// A copy of a list of words.
pub fn copy_words(words: &Vec<String>) -> (out: Vec<String>)
    ensures
        out@ == words@,
{
    let mut out: Vec<String> = Vec::new();
    let mut i: usize = 0;
    while i < words.len()
        invariant
            i <= words@.len(),
            out@ == words@.take(i as int),
        decreases words@.len() - i,
    {
        out.push(words[i].clone());
        assert(out@ =~= words@.take(i + 1));
        i = i + 1;
    }
    assert(words@.take(words@.len() as int) =~= words@);
    out
}

/// What a transform begins with, as plain values.
pub enum StepView {
    Done(GlossResult),
    Run(Seq<char>),
}

/// Whether an executable step is the given plain one.
pub open spec fn is_step(step: GlossStep, expected: StepView) -> bool {
    match step {
        GlossStep::Done(r) => expected matches StepView::Done(result) && is_result(r, result),
        GlossStep::Run { command, input } => expected == StepView::Run(input@),
    }
}

impl GlossConfig {
    /// The base85 alphabet that is configured, or `default` where none is
    /// or the name denotes none.
    pub open spec fn charset_or(self, default: Charset) -> Charset {
        match self.base85_charset {
            Some(name) => match charset_named(lowercased(name@)) {
                Some(charset) => charset,
                None => default,
            },
            None => default,
        }
    }

    /// What a built-in transform makes of a record.
    pub open spec fn builtin(self, transform: Seq<char>, record: Seq<char>) -> GlossResult {
        if transform == "base85"@ {
            match decoded(self.charset_or(Charset::Ascii85).alphabet_spec(), encode_utf8(record)) {
                Ok(bytes) => Ok(hex_text(bytes)),
                Err(c) => Err((GlossErrorKind::Base85, invalid_character_text(c))),
            }
        } else if transform == "base64"@ {
            match base64_standard(record) {
                Some(bytes) => Ok(hex_text(bytes)),
                None => Err((GlossErrorKind::Base64, Seq::empty())),
            }
        } else if transform == "hex"@ {
            Ok(without_breaks(record))
        } else if transform == "none"@ || transform == ""@ {
            Ok(record)
        } else {
            Err((GlossErrorKind::UnknownTransform, transform))
        }
    }

    /// What the fallback makes of a text when the command has failed.
    pub open spec fn fallen_back(self, fallback: Seq<char>, input: Seq<char>) -> GlossResult {
        if fallback == "input"@ {
            Ok(input)
        } else if fallback == "hex"@ {
            match decoded(self.charset_or(Charset::Bl4).alphabet_spec(), encode_utf8(input)) {
                Ok(bytes) => Ok("[hex] "@ + hex_text(bytes)),
                Err(_) => Ok("[raw] "@ + input),
            }
        } else if fallback == "base85"@ || fallback == "base64"@ {
            self.builtin(fallback, input)
        } else {
            Ok(input)
        }
    }

    /// The part of a record that a segment pattern selects: what the first
    /// group of the first match captured, else the whole match, and the
    /// record itself where the pattern does not match.
    pub open spec fn segment_of(captured: CapturedView, record: Seq<char>) -> GlossResult {
        match captured {
            CapturedView::Invalid(why) => Err((GlossErrorKind::InvalidSegment, why)),
            CapturedView::NoMatch => Ok(record),
            CapturedView::Match { whole, first } => Ok(
                match first {
                    Some(group) => group,
                    None => whole,
                },
            ),
        }
    }

    /// The text that is transformed: the segment of the record, or the
    /// record where no segment pattern is configured.
    pub open spec fn input_of(self, record: Seq<char>) -> GlossResult {
        match self.segment {
            Some(pattern) => Self::segment_of(regex_captured(pattern@, record), record),
            None => Ok(record),
        }
    }

    /// The configured charset or a default.
    fn charset(&self, default: Charset) -> (charset: Charset)
        ensures
            charset == self.charset_or(default),
    {
        match &self.base85_charset {
            Some(name) => match Charset::named(name.as_str()) {
                Some(charset) => charset,
                None => default,
            },
            None => default,
        }
    }

    /// Applies a built-in transform to a record: `base85` and `base64`
    /// decode and show the bytes in hexadecimal, `hex` takes blanks and
    /// line breaks out, `none` and the empty name leave the record as it
    /// is. Any other name is an error.
    pub fn apply_builtin(&self, transform: &str, record: &str) -> (r: Result<String, GlossError>)
        ensures
            is_result(r, self.builtin(transform@, record@)),
    {
        let name = str_chars(transform);
        if chars_are(name.as_slice(), "base85") {
            let alphabet = self.charset(Charset::Ascii85).alphabet();
            match decode(record, &alphabet) {
                Ok(bytes) => Ok(hex_encode(bytes.as_slice())),
                Err(why) => Err(GlossError { kind: GlossErrorKind::Base85, detail: why }),
            }
        } else if chars_are(name.as_slice(), "base64") {
            match base64_decode(record) {
                Ok(bytes) => Ok(hex_encode(bytes.as_slice())),
                Err(_) => Err(GlossError { kind: GlossErrorKind::Base64, detail: String::new() }),
            }
        } else if chars_are(name.as_slice(), "hex") {
            let chars = str_chars(record);
            Ok(strip_breaks(chars.as_slice()))
        } else if chars_are(name.as_slice(), "none") || chars_are(name.as_slice(), "") {
            Ok(String::from_str(record))
        } else {
            Err(
                GlossError {
                    kind: GlossErrorKind::UnknownTransform,
                    detail: String::from_str(transform),
                },
            )
        }
    }

    /// Applies the fallback to a text when the command has failed: `input`
    /// gives the text itself, `hex` its base85 decoding in hexadecimal
    /// marked `[hex]`, or the text marked `[raw]` where it does not decode,
    /// `base85` and `base64` the built-in transform, any other name the
    /// text itself.
    pub fn apply_fallback(&self, fallback: &str, input: &str) -> (r: Result<String, GlossError>)
        ensures
            is_result(r, self.fallen_back(fallback@, input@)),
    {
        let name = str_chars(fallback);
        if chars_are(name.as_slice(), "input") {
            Ok(String::from_str(input))
        } else if chars_are(name.as_slice(), "hex") {
            let alphabet = self.charset(Charset::Bl4).alphabet();
            match decode(input, &alphabet) {
                Ok(bytes) => {
                    let mut text = String::from_str("[hex] ");
                    let hex = hex_encode(bytes.as_slice());
                    text.append(hex.as_str());
                    Ok(text)
                },
                Err(_) => {
                    let mut text = String::from_str("[raw] ");
                    text.append(input);
                    Ok(text)
                },
            }
        } else if chars_are(name.as_slice(), "base85") || chars_are(name.as_slice(), "base64") {
            self.apply_builtin(fallback, input)
        } else {
            Ok(String::from_str(input))
        }
    }

    /// Chooses the segment of a record from what a pattern captured.
    pub fn choose_segment(captured: Captured, record: &str) -> (r: Result<String, GlossError>)
        ensures
            is_result(r, Self::segment_of(captured@, record@)),
    {
        match captured {
            Captured::Invalid(why) => Err(
                GlossError { kind: GlossErrorKind::InvalidSegment, detail: why },
            ),
            Captured::NoMatch => Ok(String::from_str(record)),
            Captured::Match { whole, first } => Ok(
                match first {
                    Some(group) => group,
                    None => whole,
                },
            ),
        }
    }

    /// What a field pattern takes out of a text: what the first group of
    /// the first match captured, else the whole match; nothing where the
    /// pattern does not match or is no regular expression.
    pub open spec fn field_of(captured: CapturedView) -> Option<Seq<char>> {
        match captured {
            CapturedView::Match { whole, first } => Some(
                match first {
                    Some(group) => group,
                    None => whole,
                },
            ),
            _ => None,
        }
    }

    /// Chooses the value of a field from what its pattern captured.
    pub fn choose_field(captured: Captured) -> (r: Option<String>)
        ensures
            crate::interactive::text_of(r) == Self::field_of(captured@),
    {
        match captured {
            Captured::Match { whole, first } => Some(
                match first {
                    Some(group) => group,
                    None => whole,
                },
            ),
            _ => None,
        }
    }

    /// The value that a field pattern takes out of a text.
    pub fn extract_field(pattern: &str, text: &str) -> (r: Option<String>)
        ensures
            crate::interactive::text_of(r) == Self::field_of(regex_captured(pattern@, text@)),
    {
        Self::choose_field(regex_captures(pattern, text))
    }

    /// The part of a record that the pattern selects.
    pub fn extract_segment(&self, pattern: &str, record: &str) -> (r: Result<String, GlossError>)
        ensures
            is_result(r, Self::segment_of(regex_captured(pattern@, record@), record@)),
    {
        Self::choose_segment(regex_captures(pattern, record), record)
    }

    /// What the transform begins with once the text to transform is
    /// chosen: the result, or the text that the command is to be run on.
    pub open spec fn begun_with(self, input: Seq<char>) -> StepView {
        match self.transform {
            Some(transform) => StepView::Done(self.builtin(transform@, input)),
            None => match self.command {
                Some(command) => if command@.len() == 0 {
                    StepView::Done(Ok(input))
                } else {
                    StepView::Run(input)
                },
                None => StepView::Done(Ok(input)),
            },
        }
    }

    /// What the transform of a record begins with.
    pub open spec fn begun(self, record: Seq<char>) -> StepView {
        match self.input_of(record) {
            Err(e) => StepView::Done(Err(e)),
            Ok(input) => self.begun_with(input),
        }
    }

    /// The text of a record that is transformed.
    pub fn choose_input(&self, record: &str) -> (r: Result<String, GlossError>)
        ensures
            is_result(r, self.input_of(record@)),
    {
        match &self.segment {
            Some(pattern) => self.extract_segment(pattern.as_str(), record),
            None => Ok(String::from_str(record)),
        }
    }

    /// Begins the transform of a chosen text.
    pub fn begin_with(&self, input: String) -> (step: GlossStep)
        ensures
            is_step(step, self.begun_with(input@)),
            step matches GlossStep::Run { command, .. } ==> self.command matches Some(configured)
                && command@ == configured@,
    {
        match &self.transform {
            Some(transform) => GlossStep::Done(
                self.apply_builtin(transform.as_str(), input.as_str()),
            ),
            None => match &self.command {
                Some(command) => {
                    if command.len() == 0 {
                        GlossStep::Done(Ok(input))
                    } else {
                        GlossStep::Run { command: copy_words(command), input }
                    }
                },
                None => GlossStep::Done(Ok(input)),
            },
        }
    }

    /// Begins the transform of a record. The segment is taken where a
    /// pattern is configured. A configured built-in transform is applied
    /// and the transform is done. Else a configured command is to be run on
    /// the text, and `finish` takes what it gave. Without either, and with
    /// a command of no words, the text itself is the result.
    pub fn begin(&self, record: &str) -> (step: GlossStep)
        ensures
            is_step(step, self.begun(record@)),
            step matches GlossStep::Run { command, .. } ==> self.command matches Some(configured)
                && command@ == configured@,
    {
        match self.choose_input(record) {
            Ok(input) => self.begin_with(input),
            Err(e) => GlossStep::Done(Err(e)),
        }
    }

    /// What the transform comes to once the command has run on `input`.
    pub open spec fn finished(self, input: Seq<char>, output: Option<Seq<char>>) -> GlossResult {
        match output {
            Some(text) => Ok(text),
            None => match self.fallback {
                Some(fallback) => self.fallen_back(fallback@, input),
                None => Ok("[decode failed] "@ + input),
            },
        }
    }

    /// Ends a transform whose command has run: `output` is what the
    /// command printed, or nothing where it failed. On failure the fallback
    /// is applied, and without one the text is marked as not decoded.
    pub fn finish(&self, input: &str, output: Option<String>) -> (r: Result<String, GlossError>)
        ensures
            is_result(
                r,
                self.finished(
                    input@,
                    match output {
                        Some(text) => Some(text@),
                        None => None,
                    },
                ),
            ),
    {
        match output {
            Some(text) => Ok(text),
            None => match &self.fallback {
                Some(fallback) => self.apply_fallback(fallback.as_str(), input),
                None => {
                    let mut text = String::from_str("[decode failed] ");
                    text.append(input);
                    Ok(text)
                },
            },
        }
    }
}

/// What a command printed, as the text that is shown: read as text,
/// invalid sequences replaced, without white space at its ends.
pub fn command_output(stdout: &[u8]) -> (text: String)
    ensures
        text@ == trimmed(utf8_lossy(stdout@)),
{
    let raw = lossy_text(stdout);
    let chars = str_chars(raw.as_str());
    let cut = trim(chars.as_slice());
    string_from_chars(cut.as_slice())
}

/// A rule for colouring output.
#[derive(Debug, Clone)]
pub struct ColorRule {
    /// The pattern to match.
    pub pattern: String,
    /// The style, such as `red` or `green bold`.
    pub style: String,
}

/// A field taken out of a record for display.
#[derive(Debug, Clone)]
pub struct FieldExtractor {
    /// The name of the field.
    pub name: String,
    /// The pattern whose group is the field.
    pub pattern: String,
    /// Whether the field is taken from the transformed text.
    pub from_gloss: bool,
}

/// A preset.
#[derive(Debug, Clone)]
pub struct Preset {
    pub preset: PresetMeta,
    pub records: RecordFormat,
    pub detect: Vec<DetectRule>,
    pub gloss: Option<GlossConfig>,
    pub color: Vec<ColorRule>,
    pub fields: Vec<FieldExtractor>,
}

/// A preset under the name it is kept by.
pub struct NamedPreset {
    pub name: Seq<char>,
    pub preset: Preset,
}

/// Whether two strings are the same text.
pub fn same_text(a: &String, b: &String) -> (r: bool)
    ensures
        r == (a@ == b@),
{
    *a == *b
}

/// A preset under the name it is kept by.
#[derive(Debug)]
struct Entry {
    name: String,
    preset: Preset,
}

/// The first index at or after `i` of an entry with the given name, or the
/// length.
pub open spec fn place_of(entries: Seq<NamedPreset>, name: Seq<char>, i: int) -> int
    decreases entries.len() - i,
{
    if i < 0 || i >= entries.len() || entries[i].name == name {
        i
    } else {
        place_of(entries, name, i + 1)
    }
}

/// The preset kept under a name, if any.
pub open spec fn preset_named(entries: Seq<NamedPreset>, name: Seq<char>) -> Option<Preset> {
    let k = place_of(entries, name, 0);
    if 0 <= k < entries.len() {
        Some(entries[k].preset)
    } else {
        None
    }
}

/// The entries with a preset put under a name: in the place of the preset
/// that was kept under that name, and else at the end.
pub open spec fn with_preset(entries: Seq<NamedPreset>, name: Seq<char>, preset: Preset) -> Seq<
    NamedPreset,
> {
    let k = place_of(entries, name, 0);
    if 0 <= k < entries.len() {
        entries.update(k, NamedPreset { name, preset })
    } else {
        entries.push(NamedPreset { name, preset })
    }
}

/// Whether no name occurs twice.
pub open spec fn distinct_names(entries: Seq<NamedPreset>) -> bool {
    forall|i: int, j: int|
        0 <= i < j < entries.len() ==> (#[trigger] entries[i]).name != (#[trigger] entries[j]).name
}

/// The name that a loaded preset is kept under: its own, or the stem of
/// its file where it has none.
pub open spec fn key_of(file_stem: Seq<char>, preset: Preset) -> Seq<char> {
    if preset.preset.name@.len() == 0 {
        file_stem
    } else {
        preset.preset.name@
    }
}

/// The entries after a list of loaded presets was put in, one after the
/// other.
pub open spec fn with_all(entries: Seq<NamedPreset>, loaded: Seq<(String, Preset)>) -> Seq<
    NamedPreset,
>
    decreases loaded.len(),
{
    if loaded.len() == 0 {
        entries
    } else {
        let before = with_all(entries, loaded.drop_last());
        with_preset(before, key_of(loaded.last().0@, loaded.last().1), loaded.last().1)
    }
}

/// The place of a name lies at or behind where the search began, no entry

/// before it has the name, and the entry at it, where there is one, has it.
pub proof fn lemma_place_of(entries: Seq<NamedPreset>, name: Seq<char>, i: int)
    requires
        0 <= i <= entries.len(),
    ensures
        i <= place_of(entries, name, i) <= entries.len(),
        forall|k: int| i <= k < place_of(entries, name, i) ==> (#[trigger] entries[k]).name != name,
        place_of(entries, name, i) < entries.len() ==> entries[place_of(entries, name, i)].name
            == name,
    decreases entries.len() - i,
{
    if i < entries.len() && entries[i].name != name {
        lemma_place_of(entries, name, i + 1);
    }
}

/// Putting a preset under a name leaves no name twice.
pub proof fn lemma_with_preset_distinct(entries: Seq<NamedPreset>, name: Seq<char>, preset: Preset)
    requires
        distinct_names(entries),
    ensures
        distinct_names(with_preset(entries, name, preset)),
        preset_named(with_preset(entries, name, preset), name) == Some(preset),
{
    lemma_place_of(entries, name, 0);
    let out = with_preset(entries, name, preset);
    lemma_place_of(out, name, 0);
    let k = place_of(entries, name, 0);
    assert(out[k].name == name);
    assert forall|j: int| 0 <= j < k implies (#[trigger] out[j]).name != name by {
        assert(out[j] == entries[j]);
    }
}

/// The best preset found so far: its place in the list and the number of
/// samples it matches.
pub struct BestMatch {
    pub place: int,
    pub matches: nat,
}

/// The preset that fits the samples best: of the presets that have
/// detection rules and match at least four fifths of the samples, the one
/// that matches most; of several such, the first.
pub open spec fn best_entry(entries: Seq<NamedPreset>, samples: Seq<Seq<u8>>) -> Option<BestMatch>
    decreases entries.len(),
{
    if entries.len() == 0 {
        None
    } else {
        let before = best_entry(entries.drop_last(), samples);
        let rules = entries.last().preset.detect@;
        let matches = rule_match_count(rules, samples);
        if rules.len() == 0 || matches < crate::config::threshold(samples.len()) {
            before
        } else {
            match before {
                Some(best) => if matches > best.matches {
                    Some(BestMatch { place: entries.len() - 1, matches })
                } else {
                    before
                },
                None => Some(BestMatch { place: entries.len() - 1, matches }),
            }
        }
    }
}

/// The preset that is detected for the samples; none where there is no
/// sample or no preset fits.
pub open spec fn detected_preset(entries: Seq<NamedPreset>, samples: Seq<Seq<u8>>) -> Option<
    Preset,
> {
    if samples.len() == 0 {
        None
    } else {
        match best_entry(entries, samples) {
            Some(best) => Some(entries[best.place].preset),
            None => None,
        }
    }
}

/// The best preset is one of the presets.
pub proof fn lemma_best_entry_in_range(entries: Seq<NamedPreset>, samples: Seq<Seq<u8>>)
    ensures
        best_entry(entries, samples) matches Some(best) ==> 0 <= best.place < entries.len(),
    decreases entries.len(),
{
    if entries.len() > 0 {
        lemma_best_entry_in_range(entries.drop_last(), samples);
    }
}

/// The presets that are loaded, each under its name, in the order in which
/// the names first came; and the directories that presets are looked for
/// in.
#[derive(Debug)]
pub struct PresetManager {
    entries: Vec<Entry>,
    search_paths: Vec<String>,
}

impl PresetManager {
    /// The presets with their names.
    pub closed spec fn entries(&self) -> Seq<NamedPreset> {
        Seq::new(
            self.entries@.len(),
            |i: int| NamedPreset { name: self.entries@[i].name@, preset: self.entries@[i].preset },
        )
    }

    /// The directories that presets are looked for in, first the one
    /// looked in first.
    pub closed spec fn paths(&self) -> Seq<String> {
        self.search_paths@
    }

    /// The directories that presets are looked for in by default: the
    /// user's, under the home directory and under the configuration
    /// directory where these are known, and the system's.
    pub open spec fn default_paths(home: Option<Seq<char>>, config_home: Option<Seq<char>>) -> Seq<
        Seq<char>,
    > {
        (match home {
            Some(dir) => seq![dir + "/.config/linewise/presets"@],
            None => Seq::empty(),
        }) + (match config_home {
            Some(dir) => seq![dir + "/linewise/presets"@],
            None => Seq::empty(),
        }) + seq!["/etc/linewise/presets"@, "/usr/share/linewise/presets"@]
    }

    /// The texts of the search paths.
    pub open spec fn path_texts(&self) -> Seq<Seq<char>> {
        Seq::new(self.paths().len(), |i: int| self.paths()[i]@)
    }

    /// A manager without presets that looks in the default directories.
    pub fn new(home: Option<&str>, config_home: Option<&str>) -> (manager: PresetManager)
        ensures
            manager.entries() == Seq::<NamedPreset>::empty(),
            manager.path_texts() == Self::default_paths(
                match home {
                    Some(dir) => Some(dir@),
                    None => None,
                },
                match config_home {
                    Some(dir) => Some(dir@),
                    None => None,
                },
            ),
    {
        let mut search_paths: Vec<String> = Vec::new();
        match home {
            Some(dir) => {
                let mut path = String::from_str(dir);
                path.append("/.config/linewise/presets");
                search_paths.push(path);
            },
            None => {},
        }
        match config_home {
            Some(dir) => {
                let mut path = String::from_str(dir);
                path.append("/linewise/presets");
                search_paths.push(path);
            },
            None => {},
        }
        search_paths.push(String::from_str("/etc/linewise/presets"));
        search_paths.push(String::from_str("/usr/share/linewise/presets"));
        let manager = PresetManager { entries: Vec::new(), search_paths };
        assert(manager.entries() =~= Seq::<NamedPreset>::empty());
        assert(manager.path_texts() =~= Self::default_paths(
            match home {
                Some(dir) => Some(dir@),
                None => None,
            },
            match config_home {
                Some(dir) => Some(dir@),
                None => None,
            },
        ));
        manager
    }

    /// Puts a directory before all others that presets are looked for in.
    pub fn add_search_path(&mut self, path: String)
        ensures
            final(self).paths() == old(self).paths().insert(0, path),
            final(self).entries() == old(self).entries(),
    {
        self.search_paths.insert(0, path);
        assert(self.entries() =~= old(self).entries());
    }

    /// The directories that presets are looked for in.
    pub fn search_paths(&self) -> (paths: &Vec<String>)
        ensures
            paths@ == self.paths(),
    {
        &self.search_paths
    }

    /// Keeps a preset under a name, in the place of the one that was kept
    /// under that name before.
    pub fn insert(&mut self, name: String, preset: Preset)
        ensures
            final(self).entries() == with_preset(old(self).entries(), name@, preset),
            final(self).paths() == old(self).paths(),
    {
        let ghost before = self.entries();
        let mut k: usize = 0;
        while k < self.entries.len() && !same_text(&self.entries[k].name, &name)
            invariant
                k <= self.entries@.len(),
                self.entries@ == old(self).entries@,
                self.search_paths@ == old(self).search_paths@,
                before == self.entries(),
                place_of(before, name@, 0) == place_of(before, name@, k as int),
            decreases self.entries@.len() - k,
        {
            assert(before[k as int].name != name@);
            k = k + 1;
        }
        assert(k < before.len() ==> before[k as int].name == name@);
        assert(place_of(before, name@, 0) == k);
        let entry = Entry { name, preset };
        if k < self.entries.len() {
            self.entries.set(k, entry);
        } else {
            self.entries.push(entry);
        }
        assert(self.entries() =~= with_preset(before, name@, preset));
    }

    /// Keeps a preset that was loaded from a file: under its own name, or
    /// under the stem of the file's name where it has none.
    pub fn load_preset(&mut self, file_stem: &str, preset: Preset)
        ensures
            final(self).entries() == with_preset(
                old(self).entries(),
                key_of(file_stem@, preset),
                preset,
            ),
            final(self).paths() == old(self).paths(),
    {
        let name = if preset.preset.name.as_str().unicode_len() == 0 {
            String::from_str(file_stem)
        } else {
            preset.preset.name.clone()
        };
        self.insert(name, preset);
    }

    /// Keeps the presets that were loaded from the files of the search
    /// directories, each with the stem of its file's name, in the order
    /// given: of two presets of one name the later stays.
    pub fn load_all(&mut self, loaded: Vec<(String, Preset)>)
        ensures
            final(self).entries() == with_all(old(self).entries(), loaded@),
            final(self).paths() == old(self).paths(),
    {
        let ghost all = loaded@;
        let ghost start = self.entries();
        let ghost paths = self.paths();
        for entry in it: loaded
            invariant
                it.seq() == all,
                self.entries() == with_all(start, all.take(it.index() as int)),
                self.paths() == paths,
        {
            proof {
                let next = all.take(it.index() + 1);
                assert(next.drop_last() =~= all.take(it.index() as int));
                assert(next.last() == entry);
            }
            let (stem, preset) = entry;
            self.load_preset(stem.as_str(), preset);
        }
        assert(all.take(all.len() as int) =~= all);
    }

    /// The preset kept under a name.
    pub fn get(&self, name: &str) -> (r: Option<&Preset>)
        ensures
            match r {
                Some(preset) => preset_named(self.entries(), name@) == Some(*preset),
                None => preset_named(self.entries(), name@).is_none(),
            },
    {
        let ghost all = self.entries();
        let wanted = String::from_str(name);
        let mut k: usize = 0;
        while k < self.entries.len()
            invariant
                k <= self.entries@.len(),
                all == self.entries(),
                wanted@ == name@,
                place_of(all, name@, 0) == place_of(all, name@, k as int),
            decreases self.entries@.len() - k,
        {
            let same = self.entries[k].name == wanted;
            assert(same == (all[k as int].name == name@));
            if same {
                return Some(&self.entries[k].preset);
            }
            k = k + 1;
        }
        None
    }

    /// The names of the presets, in the order in which they first came.
    pub fn list(&self) -> (names: Vec<&str>)
        ensures
            names@.len() == self.entries().len(),
            forall|i: int| 0 <= i < names@.len() ==> (#[trigger] names@[i])@ == self.entries()[i].name,
    {
        let mut names: Vec<&str> = Vec::new();
        let mut i: usize = 0;
        while i < self.entries.len()
            invariant
                i <= self.entries@.len(),
                names@.len() == i,
                forall|k: int|
                    0 <= k < i ==> (#[trigger] names@[k])@ == self.entries()[k].name,
            decreases self.entries@.len() - i,
        {
            names.push(self.entries[i].name.as_str());
            i = i + 1;
        }
        names
    }

    /// The number of presets.
    pub fn len(&self) -> (n: usize)
        ensures
            n == self.entries().len(),
    {
        self.entries.len()
    }

    /// The preset that fits the given samples best.
    pub fn detect_in(&self, samples: &[&Vec<u8>]) -> (r: Option<&Preset>)
        ensures
            match r {
                Some(preset) => detected_preset(self.entries(), ref_views(samples@)) == Some(
                    *preset,
                ),
                None => detected_preset(self.entries(), ref_views(samples@)).is_none(),
            },
    {
        if samples.len() == 0 {
            return None;
        }
        let ghost all = self.entries();
        let ghost s = ref_views(samples@);
        let mut best: Option<(usize, usize)> = None;
        let mut i: usize = 0;
        while i < self.entries.len()
            invariant
                i <= self.entries@.len(),
                all == self.entries(),
                s == ref_views(samples@),
                match best {
                    Some((place, matches)) => best_entry(all.take(i as int), s) == Some(
                        BestMatch { place: place as int, matches: matches as nat },
                    ),
                    None => best_entry(all.take(i as int), s).is_none(),
                },
            decreases self.entries@.len() - i,
        {
            let rules = &self.entries[i].preset.detect;
            proof {
                assert(all.take(i + 1).drop_last() =~= all.take(i as int));
                assert(all.take(i + 1).last().preset.detect == rules);
            }
            if rules.len() > 0 {
                let matches = count_rule_matches(rules.as_slice(), samples);
                if crate::config::reaches_threshold(matches, samples.len()) {
                    match best {
                        Some((_, most)) => {
                            if matches > most {
                                best = Some((i, matches));
                            }
                        },
                        None => {
                            best = Some((i, matches));
                        },
                    }
                }
            }
            i = i + 1;
        }
        proof {
            assert(all.take(self.entries@.len() as int) =~= all);
            lemma_best_entry_in_range(all, s);
        }
        match best {
            Some((place, _)) => Some(&self.entries[place].preset),
            None => None,
        }
    }

    /// Proposes a preset for the records: the one that fits a sample of
    /// them best. The sample is all records where there are at most
    /// `sample_size`, and else `sample_size` of them drawn at random, so
    /// that the proposal may differ from call to call. None where there is
    /// no record or no preset.
    pub fn detect(&self, records: &[Vec<u8>], sample_size: usize) -> (r: Option<&Preset>)
        ensures
            records@.len() == 0 || self.entries().len() == 0 ==> r.is_none(),
            records@.len() <= sample_size ==> match r {
                Some(preset) => detected_preset(self.entries(), record_views(records@)) == Some(
                    *preset,
                ),
                None => detected_preset(self.entries(), record_views(records@)).is_none(),
            },
            records@.len() > sample_size ==> exists|samples: Seq<Seq<u8>>|
                #![trigger detected_preset(self.entries(), samples)]
                samples.len() == sample_size && is_sample_of(samples, record_views(records@))
                    && match r {
                    Some(preset) => detected_preset(self.entries(), samples) == Some(*preset),
                    None => detected_preset(self.entries(), samples).is_none(),
                },
    {
        if records.len() == 0 || self.entries.len() == 0 {
            proof {
                if records@.len() == 0 {
                    assert(record_views(records@).len() == 0);
                } else {
                    assert(self.entries() =~= Seq::<NamedPreset>::empty());
                }
                if records@.len() > sample_size {
                    let samples = record_views(records@).take(sample_size as int);
                    crate::config::lemma_take_is_sample(record_views(records@), sample_size as int);
                    assert(detected_preset(self.entries(), samples).is_none());
                }
            }
            return None;
        }
        let samples = take_sample(records, sample_size);
        self.detect_in(samples.as_slice())
    }
}

} // verus!
