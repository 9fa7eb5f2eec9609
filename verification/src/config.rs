//! Detection rules kept with the line presets: a preset may say which
//! records it is meant for, and the preset whose rules fit a sample of the
//! records best is proposed at the start.
//!
//! A rule is a line `byte_equals <position> <value>`, `min_length <length>`
//! or `max_length <length>`. In a preset file the rules follow a line
//! `@rules`; lines that begin with `#` are comments.

use crate::records::ref_views;
use crate::sampling::{is_sample_of, take_sample};
use crate::scan::{lines, parse_number, parse_unsigned, split_lines, split_words, texts, trim, trimmed, words};
use crate::text::{chars_are, str_chars, string_from_chars};
use vstd::prelude::*;
use vstd::string::*;

verus! {

/// A detection rule as plain values.
pub struct RuleView {
    pub rule_type: Seq<char>,
    pub position: Option<usize>,
    pub value: Option<u8>,
    pub length: Option<usize>,
}

/// A detection rule: its kind by name, and the numbers that the kind
/// reads. A number that could not be read is absent.
#[derive(Debug, Clone)]
pub struct Rule {
    pub rule_type: String,
    pub position: Option<usize>,
    pub value: Option<u8>,
    pub length: Option<usize>,
}

impl View for Rule {
    type V = RuleView;

    open spec fn view(&self) -> RuleView {
        RuleView {
            rule_type: self.rule_type@,
            position: self.position,
            value: self.value,
            length: self.length,
        }
    }
}

/// The number that a word denotes, where it is an unsigned decimal number
/// of at most `max`.
pub open spec fn number_of(word: Seq<char>, max: nat) -> Option<usize> {
    match parse_unsigned(word, max) {
        Some(v) => Some(v as usize),
        None => None,
    }
}

/// The rule that a line with these words holds, if any. A rule of the kind
/// `byte_equals` takes three words, the other kinds two.
pub open spec fn rule_of_words(w: Seq<Seq<char>>) -> Option<RuleView> {
    if w.len() == 0 {
        None
    } else if w[0] == "byte_equals"@ {
        if w.len() < 3 {
            None
        } else {
            Some(
                RuleView {
                    rule_type: w[0],
                    position: number_of(w[1], usize::MAX as nat),
                    value: match parse_unsigned(w[2], 255) {
                        Some(v) => Some(v as u8),
                        None => None,
                    },
                    length: None,
                },
            )
        }
    } else if w[0] == "min_length"@ || w[0] == "max_length"@ {
        if w.len() < 2 {
            None
        } else {
            Some(
                RuleView {
                    rule_type: w[0],
                    position: None,
                    value: None,
                    length: number_of(w[1], usize::MAX as nat),
                },
            )
        }
    } else {
        None
    }
}

/// The rule that a line holds, if any.
pub open spec fn parsed_rule(line: Seq<char>) -> Option<RuleView> {
    rule_of_words(words(line))
}

/// Whether a rule holds of a record. A position or value that is absent
/// counts as zero, an absent least length as zero, an absent greatest
/// length as no limit. A rule of unknown kind holds of no record.
pub open spec fn rule_holds(rule: RuleView, record: Seq<u8>) -> bool {
    if rule.rule_type == "byte_equals"@ {
        let pos = match rule.position {
            Some(p) => p,
            None => 0,
        };
        let val = match rule.value {
            Some(v) => v,
            None => 0,
        };
        pos < record.len() && record[pos as int] == val
    } else if rule.rule_type == "min_length"@ {
        match rule.length {
            Some(l) => record.len() >= l,
            None => true,
        }
    } else if rule.rule_type == "max_length"@ {
        match rule.length {
            Some(l) => record.len() <= l,
            None => record.len() <= usize::MAX,
        }
    } else {
        false
    }
}

/// The views of a list of rules.
pub open spec fn rule_views(rules: Seq<Rule>) -> Seq<RuleView> {
    Seq::new(rules.len(), |i: int| rules[i]@)
}

/// Whether every rule of the list holds of a record.
pub open spec fn all_hold(rules: Seq<RuleView>, record: Seq<u8>) -> bool {
    forall|i: int| 0 <= i < rules.len() ==> rule_holds(#[trigger] rules[i], record)
}

/// How many of the samples every rule of the list holds of.
pub open spec fn match_count(rules: Seq<RuleView>, samples: Seq<Seq<u8>>) -> nat
    decreases samples.len(),
{
    if samples.len() == 0 {
        0
    } else {
        match_count(rules, samples.drop_last()) + if all_hold(rules, samples.last()) {
            1nat
        } else {
            0nat
        }
    }
}

/// The number of matching samples from which a preset counts as fitting:
/// four fifths of the samples, rounded down.
pub open spec fn threshold(samples: nat) -> nat {
    (samples * 80) / 100
}

impl Rule {
    /// Reads a rule from a line such as `byte_equals 0 33` or
    /// `min_length 30`. None where the line is empty, names no kind of
    /// rule, or has too few words for its kind.
    pub fn from_line(line: &str) -> (r: Option<Rule>)
        ensures
            r.is_some() == parsed_rule(line@).is_some(),
            r matches Some(rule) ==> parsed_rule(line@) == Some(rule@),
    {
        let chars = str_chars(line);
        Self::from_chars(chars.as_slice())
    }

    /// Reads a rule from the characters of a line.
    pub fn from_chars(line: &[char]) -> (r: Option<Rule>)
        ensures
            r.is_some() == parsed_rule(line@).is_some(),
            r matches Some(rule) ==> parsed_rule(line@) == Some(rule@),
    {
        let parts = split_words(line);
        let ghost w = words(line@);
        assert(texts(parts@) == w);
        if parts.len() == 0 {
            return None;
        }
        assert(w[0] == parts@[0]@);
        let kind = parts[0].as_slice();
        if chars_are(kind, "byte_equals") {
            if parts.len() < 3 {
                return None;
            }
            assert(w[1] == parts@[1]@ && w[2] == parts@[2]@);
            let position = match parse_number(parts[1].as_slice(), usize::MAX as u64) {
                Some(v) => Some(v as usize),
                None => None,
            };
            let value = match parse_number(parts[2].as_slice(), 255) {
                Some(v) => Some(v as u8),
                None => None,
            };
            Some(Rule { rule_type: string_from_chars(kind), position, value, length: None })
        } else if chars_are(kind, "min_length") || chars_are(kind, "max_length") {
            if parts.len() < 2 {
                return None;
            }
            assert(w[1] == parts@[1]@);
            let length = match parse_number(parts[1].as_slice(), usize::MAX as u64) {
                Some(v) => Some(v as usize),
                None => None,
            };
            Some(Rule { rule_type: string_from_chars(kind), position: None, value: None, length })
        } else {
            None
        }
    }

    /// Whether the rule holds of a record.
    pub fn matches(&self, record: &[u8]) -> (r: bool)
        ensures
            r == rule_holds(self@, record@),
    {
        let kind = str_chars(self.rule_type.as_str());
        let len = record.len();
        if chars_are(kind.as_slice(), "byte_equals") {
            let pos = match self.position {
                Some(p) => p,
                None => 0,
            };
            let val = match self.value {
                Some(v) => v,
                None => 0,
            };
            pos < len && record[pos] == val
        } else if chars_are(kind.as_slice(), "min_length") {
            match self.length {
                Some(l) => len >= l,
                None => true,
            }
        } else if chars_are(kind.as_slice(), "max_length") {
            match self.length {
                Some(l) => len <= l,
                None => true,
            }
        } else {
            false
        }
    }
}

/// Whether every rule of the list holds of a record.
pub fn all_match(rules: &[Rule], record: &[u8]) -> (r: bool)
    ensures
        r == all_hold(rule_views(rules@), record@),
{
    let mut i: usize = 0;
    while i < rules.len()
        invariant
            i <= rules@.len(),
            forall|k: int| 0 <= k < i ==> rule_holds(#[trigger] rule_views(rules@)[k], record@),
        decreases rules@.len() - i,
    {
        if !rules[i].matches(record) {
            assert(!rule_holds(rule_views(rules@)[i as int], record@));
            return false;
        }
        i = i + 1;
    }
    true
}

/// How many of the samples every rule of the list holds of.
pub fn count_matches(rules: &[Rule], samples: &[&Vec<u8>]) -> (count: usize)
    ensures
        count == match_count(rule_views(rules@), ref_views(samples@)),
        count <= samples@.len(),
{
    let ghost all = ref_views(samples@);
    let mut count: usize = 0;
    let mut i: usize = 0;
    while i < samples.len()
        invariant
            i <= samples@.len(),
            all == ref_views(samples@),
            count <= i,
            count == match_count(rule_views(rules@), all.take(i as int)),
        decreases samples@.len() - i,
    {
        proof {
            assert(all.take(i + 1).drop_last() =~= all.take(i as int));
            assert(all.take(i + 1).last() == samples@[i as int]@);
        }
        if all_match(rules, samples[i].as_slice()) {
            count = count + 1;
        }
        i = i + 1;
    }
    assert(all.take(samples@.len() as int) =~= all);
    count
}

/// Whether `matches` of `samples` samples reach the threshold.
pub fn reaches_threshold(matches: usize, samples: usize) -> (r: bool)
    ensures
        r == (matches >= threshold(samples as nat)),
{
    matches as u128 >= (samples as u128 * 80) / 100
}

/// The rules of a named preset, as plain values.
pub struct PresetRulesView {
    pub name: Seq<char>,
    pub rules: Seq<RuleView>,
}

/// The rules of a named preset.
#[derive(Debug, Clone)]
pub struct PresetRules {
    pub name: String,
    pub rules: Vec<Rule>,
}

impl View for PresetRules {
    type V = PresetRulesView;

    open spec fn view(&self) -> PresetRulesView {
        PresetRulesView { name: self.name@, rules: rule_views(self.rules@) }
    }
}

/// The views of a list of presets.
pub open spec fn preset_views(presets: Seq<PresetRules>) -> Seq<PresetRulesView> {
    Seq::new(presets.len(), |i: int| presets[i]@)
}

/// What the lines read so far come to: whether the rules section has
/// begun, and the rules read.
pub struct RulesSoFar {
    pub in_rules: bool,
    pub rules: Seq<RuleView>,
}

/// The rules that a list of lines holds. A line `@rules` opens the rules
/// section; in it every line that is not empty, no comment and a rule
/// counts. White space at the ends of a line is not read.
pub open spec fn rules_of_lines(all: Seq<Seq<char>>) -> RulesSoFar
    decreases all.len(),
{
    if all.len() == 0 {
        RulesSoFar { in_rules: false, rules: Seq::empty() }
    } else {
        let before = rules_of_lines(all.drop_last());
        let line = trimmed(all.last());
        if line.len() == 0 {
            before
        } else if line == "@rules"@ {
            RulesSoFar { in_rules: true, ..before }
        } else if before.in_rules && line[0] != '#' {
            match parsed_rule(line) {
                Some(rule) => RulesSoFar { rules: before.rules.push(rule), ..before },
                None => before,
            }
        } else {
            before
        }
    }
}

/// The rules that the text of a preset file holds.
pub open spec fn rules_of_text(content: Seq<char>) -> Seq<RuleView> {
    rules_of_lines(lines(content)).rules
}

/// Reads the detection rules from the text of the preset file `name`.
pub fn parse_preset_rules(name: &str, content: &str) -> (preset: PresetRules)
    ensures
        preset@.name == name@,
        preset@.rules == rules_of_text(content@),
{
    let chars = str_chars(content);
    let all = split_lines(chars.as_slice());
    let ghost all_lines = lines(content@);
    let mut rules: Vec<Rule> = Vec::new();
    let mut in_rules = false;
    let mut i: usize = 0;
    assert(rule_views(rules@) =~= Seq::<RuleView>::empty());
    while i < all.len()
        invariant
            i <= all@.len(),
            texts(all@) == all_lines,
            all_lines == lines(content@),
            rules_of_lines(all_lines.take(i as int)) == (RulesSoFar {
                in_rules,
                rules: rule_views(rules@),
            }),
        decreases all@.len() - i,
    {
        proof {
            assert(all_lines.take(i + 1).drop_last() =~= all_lines.take(i as int));
            assert(all_lines.take(i + 1).last() == all@[i as int]@);
        }
        let line = trim(all[i].as_slice());
        if line.len() == 0 {
        } else if chars_are(line.as_slice(), "@rules") {
            in_rules = true;
        } else if in_rules && line[0] != '#' {
            match Rule::from_chars(line.as_slice()) {
                Some(rule) => {
                    assert(rule_views(rules@.push(rule)) =~= rule_views(rules@).push(rule@));
                    rules.push(rule);
                },
                None => {},
            }
        }
        i = i + 1;
    }
    assert(all_lines.take(all@.len() as int) =~= all_lines);
    PresetRules { name: String::from_str(name), rules }
}

/// The presets that detection chooses among.
#[derive(Debug, Clone)]
pub struct Config {
    pub presets: Vec<PresetRules>,
}

impl View for Config {
    type V = Seq<PresetRulesView>;

    open spec fn view(&self) -> Seq<PresetRulesView> {
        preset_views(self.presets@)
    }
}

/// The best preset found so far: its place in the list and the number of
/// samples it matches.
pub struct Best {
    pub place: int,
    pub matches: nat,
}

/// The preset that fits the samples best: of the presets that have rules
/// and match at least the threshold of the samples, the one that matches
/// most; of several such, the first.
pub open spec fn best_preset(presets: Seq<PresetRulesView>, samples: Seq<Seq<u8>>) -> Option<Best>
    decreases presets.len(),
{
    if presets.len() == 0 {
        None
    } else {
        let before = best_preset(presets.drop_last(), samples);
        let preset = presets.last();
        let matches = match_count(preset.rules, samples);
        if preset.rules.len() == 0 || matches < threshold(samples.len()) {
            before
        } else {
            match before {
                Some(best) => if matches > best.matches {
                    Some(Best { place: presets.len() - 1, matches })
                } else {
                    before
                },
                None => Some(Best { place: presets.len() - 1, matches }),
            }
        }
    }
}

/// The name of the preset that fits the samples best; none where there is
/// no sample or no preset fits.
pub open spec fn detected(presets: Seq<PresetRulesView>, samples: Seq<Seq<u8>>) -> Option<
    Seq<char>,
> {
    if samples.len() == 0 {
        None
    } else {
        match best_preset(presets, samples) {
            Some(best) => Some(presets[best.place].name),
            None => None,
        }
    }
}

/// The best preset is one of the presets.
pub proof fn lemma_best_in_range(presets: Seq<PresetRulesView>, samples: Seq<Seq<u8>>)
    ensures
        best_preset(presets, samples) matches Some(best) ==> 0 <= best.place < presets.len(),
    decreases presets.len(),
{
    if presets.len() > 0 {
        lemma_best_in_range(presets.drop_last(), samples);
    }
}

impl Default for Config {
    fn default() -> (config: Config)
        ensures
            config@ == Seq::<PresetRulesView>::empty(),
    {
        let config = Config { presets: Vec::new() };
        assert(config@ =~= Seq::<PresetRulesView>::empty());
        config
    }
}

impl Config {
    /// The name of the preset that fits the given samples best.
    pub fn detect_in(&self, samples: &[&Vec<u8>]) -> (name: Option<String>)
        ensures
            crate::interactive::text_of(name) == detected(self@, ref_views(samples@)),
    {
        if samples.len() == 0 {
            return None;
        }
        let ghost all = self@;
        let ghost s = ref_views(samples@);
        let mut best: Option<(usize, usize)> = None;
        let mut i: usize = 0;
        while i < self.presets.len()
            invariant
                i <= self.presets@.len(),
                all == self@,
                s == ref_views(samples@),
                match best {
                    Some((place, matches)) => best_preset(all.take(i as int), s) == Some(
                        Best { place: place as int, matches: matches as nat },
                    ),
                    None => best_preset(all.take(i as int), s).is_none(),
                },
            decreases self.presets@.len() - i,
        {
            let preset = &self.presets[i];
            proof {
                assert(all.take(i + 1).drop_last() =~= all.take(i as int));
                assert(all.take(i + 1).last() == preset@);
            }
            if preset.rules.len() > 0 {
                let matches = count_matches(preset.rules.as_slice(), samples);
                if reaches_threshold(matches, samples.len()) {
                    match best {
                        Some((_, most)) => {
                            if matches > most {
                                best = Some((i, matches));
                            }
                        },
                        None => {
                            best = Some((i, matches));
                        },
                    }
                }
            }
            i = i + 1;
        }
        proof {
            assert(all.take(self.presets@.len() as int) =~= all);
            lemma_best_in_range(all, s);
        }
        match best {
            Some((place, _)) => Some(self.presets[place].name.clone()),
            None => None,
        }
    }

    /// Proposes a preset for the records: the one that fits a sample of
    /// them best. The sample is all records where there are at most
    /// `sample_size`, and else `sample_size` of them drawn at random, so
    /// that the proposal may differ from call to call. None where there is
    /// no record or no preset.
    pub fn detect_preset(&self, records: &[Vec<u8>], sample_size: usize) -> (name: Option<String>)
        ensures
            records@.len() == 0 || self@.len() == 0 ==> name.is_none(),
            records@.len() <= sample_size ==> crate::interactive::text_of(name) == detected(
                self@,
                crate::records::record_views(records@),
            ),
            records@.len() > sample_size ==> exists|samples: Seq<Seq<u8>>|
                #![trigger detected(self@, samples)]
                samples.len() == sample_size && is_sample_of(
                    samples,
                    crate::records::record_views(records@),
                ) && crate::interactive::text_of(name) == detected(self@, samples),
    {
        if records.len() == 0 || self.presets.len() == 0 {
            proof {
                assert(self@.len() == self.presets@.len());
                if records@.len() == 0 {
                    assert(crate::records::record_views(records@).len() == 0);
                } else {
                    assert(self@ =~= Seq::<PresetRulesView>::empty());
                }
                if records@.len() > sample_size {
                    // with no preset nothing is detected, whatever the sample
                    let samples = crate::records::record_views(records@).take(sample_size as int);
                    lemma_take_is_sample(crate::records::record_views(records@), sample_size as int);
                    assert(detected(self@, samples).is_none());
                }
            }
            return None;
        }
        let samples = take_sample(records, sample_size);
        self.detect_in(samples.as_slice())
    }
}

/// The first `n` records are a sample of the records.
pub proof fn lemma_take_is_sample(records: Seq<Seq<u8>>, n: int)
    requires
        0 <= n <= records.len(),
    ensures
        is_sample_of(records.take(n), records),
{
    let places = Seq::new(n as nat, |i: int| i);
    assert(places.len() == records.take(n).len());
    assert forall|i: int| 0 <= i < places.len() implies 0 <= #[trigger] places[i] < records.len()
        && records.take(n)[i] == records[places[i]] by {}
}

} // verus!
