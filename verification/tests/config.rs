use linewise::config::{
    all_match, count_matches, parse_preset_rules, reaches_threshold, Config, PresetRules, Rule,
};

#[test]
fn rule_from_line() {
    let rule = Rule::from_line("byte_equals 0 33").unwrap();
    assert_eq!(rule.rule_type, "byte_equals");
    assert_eq!(rule.position, Some(0));
    assert_eq!(rule.value, Some(33));
    assert_eq!(rule.length, None);
    let rule = Rule::from_line("  min_length   30  ").unwrap();
    assert_eq!(rule.rule_type, "min_length");
    assert_eq!(rule.length, Some(30));
    assert_eq!(rule.position, None);
    assert_eq!(rule.value, None);
    let rule = Rule::from_line("max_length 8 ignored").unwrap();
    assert_eq!(rule.rule_type, "max_length");
    assert_eq!(rule.length, Some(8));
}

#[test]
fn rule_from_line_without_a_rule() {
    assert!(Rule::from_line("").is_none());
    assert!(Rule::from_line("   ").is_none());
    assert!(Rule::from_line("starts_with @").is_none());
    assert!(Rule::from_line("byte_equals").is_none());
    assert!(Rule::from_line("byte_equals 0").is_none());
    assert!(Rule::from_line("min_length").is_none());
    assert!(Rule::from_line("max_length").is_none());
    assert!(Rule::from_line("# min_length 3").is_none());
}

#[test]
fn numbers_that_cannot_be_read_are_absent() {
    let rule = Rule::from_line("byte_equals x 256").unwrap();
    assert_eq!(rule.position, None);
    assert_eq!(rule.value, None);
    let rule = Rule::from_line("byte_equals 3 255").unwrap();
    assert_eq!(rule.position, Some(3));
    assert_eq!(rule.value, Some(255));
    let rule = Rule::from_line("min_length -1").unwrap();
    assert_eq!(rule.length, None);
}

fn rule(rule_type: &str, position: Option<usize>, value: Option<u8>, length: Option<usize>) -> Rule {
    Rule { rule_type: rule_type.to_string(), position, value, length }
}

#[test]
fn rule_matches() {
    let r = rule("byte_equals", Some(1), Some(0x21), None);
    assert!(r.matches(&[0, 0x21]));
    assert!(!r.matches(&[0x21, 0]));
    assert!(!r.matches(&[0]));
    let absent = rule("byte_equals", None, None, None);
    assert!(absent.matches(&[0, 5]));
    assert!(!absent.matches(&[5]));
    assert!(!absent.matches(&[]));
    let r = rule("min_length", None, None, Some(2));
    assert!(r.matches(&[1, 2]));
    assert!(!r.matches(&[1]));
    assert!(rule("min_length", None, None, None).matches(&[]));
    let r = rule("max_length", None, None, Some(2));
    assert!(r.matches(&[1, 2]));
    assert!(!r.matches(&[1, 2, 3]));
    assert!(rule("max_length", None, None, None).matches(&[0; 100]));
    assert!(!rule("starts_with", Some(0), Some(0), Some(0)).matches(&[0]));
    assert!(!rule("", None, None, None).matches(&[]));
}

#[test]
fn rules_of_a_preset_file() {
    let text = "# Locked fields: offset length type\n0 1 u8\nmin_length 99\n\n  @rules  \n# byte_equals 0 1\nbyte_equals 0 33\n\nmin_length 30\nnonsense here\n0 1 u8\n";
    let preset = parse_preset_rules("items", text);
    assert_eq!(preset.name, "items");
    assert_eq!(preset.rules.len(), 2);
    assert_eq!(preset.rules[0].rule_type, "byte_equals");
    assert_eq!(preset.rules[0].position, Some(0));
    assert_eq!(preset.rules[0].value, Some(33));
    assert_eq!(preset.rules[1].rule_type, "min_length");
    assert_eq!(preset.rules[1].length, Some(30));
    assert!(parse_preset_rules("none", "min_length 3\n# @rules\n").rules.is_empty());
    assert!(parse_preset_rules("empty", "").rules.is_empty());
}

#[test]
fn counting_matches() {
    let rules = vec![rule("min_length", None, None, Some(2)), rule("byte_equals", Some(0), Some(1), None)];
    assert!(all_match(&rules, &[1, 2]));
    assert!(!all_match(&rules, &[1]));
    assert!(!all_match(&rules, &[2, 2]));
    assert!(all_match(&[], &[]));
    let a = vec![1, 2];
    let b = vec![1];
    let c = vec![1, 5, 6];
    assert_eq!(count_matches(&rules, &[&a, &b, &c]), 2);
    assert_eq!(count_matches(&rules, &[]), 0);
}

#[test]
fn threshold_is_four_fifths_rounded_down() {
    assert!(reaches_threshold(0, 0));
    assert!(reaches_threshold(0, 1));
    assert!(reaches_threshold(8, 10));
    assert!(!reaches_threshold(7, 10));
    assert!(reaches_threshold(3, 4));
    assert!(!reaches_threshold(2, 4));
    assert!(reaches_threshold(39, 49));
    assert!(!reaches_threshold(38, 49));
    assert!(reaches_threshold(usize::MAX, usize::MAX));
}

fn config() -> Config {
    Config {
        presets: vec![
            PresetRules { name: "empty".to_string(), rules: vec![] },
            PresetRules {
                name: "long".to_string(),
                rules: vec![rule("min_length", None, None, Some(3))],
            },
            PresetRules {
                name: "marked".to_string(),
                rules: vec![rule("byte_equals", Some(0), Some(b'@'), None)],
            },
            PresetRules {
                name: "marked-too".to_string(),
                rules: vec![rule("byte_equals", Some(0), Some(b'@'), None), rule("min_length", None, None, Some(1))],
            },
        ],
    }
}

#[test]
fn detects_the_best_preset() {
    let cfg = config();
    let records: Vec<Vec<u8>> =
        vec![b"@abc".to_vec(), b"@de".to_vec(), b"@f".to_vec(), b"@gh".to_vec(), b"@ijk".to_vec()];
    assert_eq!(cfg.detect_preset(&records, 50), Some("marked".to_string()));
    assert_eq!(cfg.detect_preset(&records, 5), Some("marked".to_string()));
    // with more records than the sample holds the sample is drawn at
    // random; here every sample gives the same
    let short: Vec<Vec<u8>> = vec![b"@a".to_vec(), b"@b".to_vec(), b"@c".to_vec(), b"@d".to_vec()];
    for _ in 0..20 {
        assert_eq!(cfg.detect_preset(&short, 2), Some("marked".to_string()));
    }
    let long: Vec<Vec<u8>> = vec![b"abcd".to_vec(), b"xyz".to_vec(), b"@z".to_vec(), b"123".to_vec(), b"1234".to_vec()];
    assert_eq!(cfg.detect_preset(&long, 50), Some("long".to_string()));
    let none: Vec<Vec<u8>> = vec![b"a".to_vec(), b"b".to_vec()];
    assert_eq!(cfg.detect_preset(&none, 50), None);
    assert_eq!(cfg.detect_preset(&[], 50), None);
    assert_eq!(Config::default().detect_preset(&records, 50), None);
    assert!(Config::default().presets.is_empty());
    let refs: Vec<&Vec<u8>> = records.iter().collect();
    assert_eq!(cfg.detect_in(&refs), Some("marked".to_string()));
    assert_eq!(cfg.detect_in(&[]), None);
}

#[test]
fn a_sample_is_drawn_from_the_records() {
    // one record in five is marked; samples of two hold it or not, and
    // detection follows the sample
    let cfg = Config {
        presets: vec![PresetRules {
            name: "marked".to_string(),
            rules: vec![rule("byte_equals", Some(0), Some(b'@'), None)],
        }],
    };
    let records: Vec<Vec<u8>> =
        vec![b"@".to_vec(), b"a".to_vec(), b"b".to_vec(), b"c".to_vec(), b"d".to_vec()];
    let mut seen_some = false;
    let mut seen_none = false;
    for _ in 0..400 {
        match cfg.detect_preset(&records, 2) {
            Some(name) => {
                assert_eq!(name, "marked");
                seen_some = true;
            }
            None => seen_none = true,
        }
    }
    assert!(seen_some && seen_none);
}
