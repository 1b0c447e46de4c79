use uarc_asm::config::{Capture, Config, NumFeedback, Rule, TagCreateRule, TagFeedback};
use uarc_asm::error::{AsmError, ConfigError, RunError};
use uarc_asm::parse::{assemble, OutputFormat, Parser};
use uarc_asm::shift_left_or_right;

fn nf(segment: usize, index: usize) -> NumFeedback {
    NumFeedback {
        negate: false,
        shift: 0,
        segment,
        index,
        fill: false,
        fill_offset: -1,
        align: false,
    }
}

fn tf(from_segment: usize, add_segment: usize, add_index: usize) -> TagFeedback {
    TagFeedback {
        from_segment,
        relative: false,
        shift: 0,
        add_segment,
        add_index,
        offset: 0,
    }
}

fn rule(regex: &str, segment_values: Vec<Vec<u64>>, captures: Vec<Capture>) -> Rule {
    Rule::new(regex.to_string(), segment_values, Vec::new(), captures)
}

fn config(widths: Vec<usize>, tag_regex: &str, rules: Vec<Rule>) -> Config {
    Config {
        segment_widths: widths,
        split_whitespace: true,
        tag_create: TagCreateRule::new(tag_regex.to_string()),
        rules,
    }
}

fn lines(text: &str) -> Vec<Vec<String>> {
    vec![text.lines().map(|l| l.to_string()).collect()]
}

fn number_config() -> Config {
    config(
        vec![1],
        r"^:(\w+)$",
        vec![rule(
            r"^(\d+)$",
            vec![vec![0]],
            vec![Capture::Num {
                base: 10,
                feedbacks: vec![nf(0, 0)],
            }],
        )],
    )
}

fn tagged_config(relative: bool) -> Config {
    let mut cfg = number_config();
    cfg.rules.push(rule(
        r"^@(\w+)$",
        vec![vec![0]],
        vec![Capture::Tag {
            feedbacks: vec![TagFeedback {
                from_segment: 0,
                relative,
                shift: 0,
                add_segment: 0,
                add_index: 0,
                offset: 0,
            }],
        }],
    ));
    cfg
}

#[test]
fn identity_emit() {
    let mut cfg = number_config();
    let out = assemble(&mut cfg, &lines("1 2 3"), OutputFormat::LittleEndian).unwrap();
    assert_eq!(out, vec![vec![1u8, 2, 3]]);
}

#[test]
fn forward_named_tag() {
    let mut cfg = tagged_config(false);
    let out = assemble(&mut cfg, &lines("@foo 7 :foo 9"), OutputFormat::LittleEndian).unwrap();
    assert_eq!(out, vec![vec![2u8, 7, 9]]);
}

#[test]
fn relative_tag_at_start() {
    let mut cfg = tagged_config(true);
    let out = assemble(&mut cfg, &lines("@foo 7 :foo"), OutputFormat::LittleEndian).unwrap();
    assert_eq!(out, vec![vec![2u8, 7]]);
}

#[test]
fn relative_tag_after_word() {
    let mut cfg = tagged_config(true);
    let out = assemble(&mut cfg, &lines("7 @foo :foo"), OutputFormat::LittleEndian).unwrap();
    assert_eq!(out, vec![vec![7u8, 1]]);
}

#[test]
fn plus_tag() {
    // The reference site of `@+` is the position its word will occupy,
    // which is 0 here, so the forward scan accepts the first `+` tag,
    // recorded at position 0, and the patch value is 0.
    let mut cfg = config(
        vec![1],
        r"^([+-]+)$",
        vec![rule(
            r"^@([+-]+)$",
            vec![vec![0]],
            vec![Capture::Tag {
                feedbacks: vec![tf(0, 0, 0)],
            }],
        )],
    );
    let out = assemble(&mut cfg, &lines("+ @+ +"), OutputFormat::LittleEndian).unwrap();
    assert_eq!(out, vec![vec![0u8]]);
}

#[test]
fn plus_tag_forward_site() {
    // With a word emitted first, the `@+` site is position 1; the first
    // `+` tag (position 0) no longer qualifies and the second (position 2)
    // is selected, giving patch value 2.
    let mut cfg = tagged_config(false);
    cfg.tag_create.regex_string = r"^([+-]+)$".to_string();
    cfg.rules[1].regex_string = r"^@([+-]+)$".to_string();
    let out = assemble(&mut cfg, &lines("+ 9 @+ +"), OutputFormat::LittleEndian).unwrap();
    assert_eq!(out, vec![vec![9u8, 2]]);
}

#[test]
fn minus_tag_backward() {
    let mut cfg = tagged_config(false);
    cfg.tag_create.regex_string = r"^([+-]+)$".to_string();
    cfg.rules[1].regex_string = r"^@([+-]+)$".to_string();
    // The `-` tag lies at position 1, strictly before the `@-` site at 2.
    let out = assemble(&mut cfg, &lines("9 - 8 @-"), OutputFormat::LittleEndian).unwrap();
    assert_eq!(out, vec![vec![9u8, 8, 1]]);
}

#[test]
fn fill_repeats_base_and_consumes_slot() {
    let mut cfg = config(
        vec![1],
        r"^:(\w+)$",
        vec![rule(
            r"^(\d+)$",
            vec![vec![5]],
            vec![Capture::Num {
                base: 10,
                feedbacks: vec![NumFeedback {
                    negate: false,
                    shift: 0,
                    segment: 0,
                    index: 0,
                    fill: true,
                    fill_offset: -1,
                    align: false,
                }],
            }],
        )],
    );
    // shifted value 3, count 3 + (-1) = 2: push 5 twice, commit nothing.
    let out = assemble(&mut cfg, &lines("3"), OutputFormat::LittleEndian).unwrap();
    assert_eq!(out, vec![vec![5u8, 5]]);
}

#[test]
fn fill_align_pads_to_absolute_length() {
    let mut cfg = number_config();
    cfg.rules.push(rule(
        r"^a(\d+)$",
        vec![vec![7]],
        vec![Capture::Num {
            base: 10,
            feedbacks: vec![NumFeedback {
                negate: false,
                shift: 0,
                segment: 0,
                index: 0,
                fill: true,
                fill_offset: -1,
                align: true,
            }],
        }],
    ));
    // After "9" the segment has length 1; "a4" pads with 7 up to length 3.
    let out = assemble(&mut cfg, &lines("9 a4"), OutputFormat::LittleEndian).unwrap();
    assert_eq!(out, vec![vec![9u8, 7, 7]]);
}

#[test]
fn hex_list_format() {
    let mut cfg = number_config();
    cfg.segment_widths = vec![2];
    // 171 is 0x00AB in a two-byte segment.
    let out = assemble(&mut cfg, &lines("171"), OutputFormat::HexList).unwrap();
    assert_eq!(out, vec![b"00AB\n".to_vec()]);
}

#[test]
fn big_endian_format() {
    let mut cfg = number_config();
    cfg.segment_widths = vec![2];
    let out = assemble(&mut cfg, &lines("258"), OutputFormat::BigEndian).unwrap();
    assert_eq!(out, vec![vec![1u8, 2]]);
}

#[test]
fn little_endian_format() {
    let mut cfg = number_config();
    cfg.segment_widths = vec![2];
    let out = assemble(&mut cfg, &lines("258"), OutputFormat::LittleEndian).unwrap();
    assert_eq!(out, vec![vec![2u8, 1]]);
}

#[test]
fn big_and_little_endian_reverse_each_other_at_width_8() {
    let mut cfg = number_config();
    cfg.segment_widths = vec![8];
    let le = assemble(&mut cfg, &lines("81985529216486895"), OutputFormat::LittleEndian).unwrap();
    let mut cfg2 = number_config();
    cfg2.segment_widths = vec![8];
    let be = assemble(&mut cfg2, &lines("81985529216486895"), OutputFormat::BigEndian).unwrap();
    let mut rev = le[0].clone();
    rev.reverse();
    assert_eq!(be[0], rev);
}

#[test]
fn str_capture_pushes_code_points() {
    let mut cfg = config(
        vec![1],
        r"^:(\w+)$",
        vec![rule(
            r"^s([a-z]+)$",
            vec![vec![]],
            vec![Capture::Str { add_segment: 0 }],
        )],
    );
    let out = assemble(&mut cfg, &lines("sab"), OutputFormat::LittleEndian).unwrap();
    assert_eq!(out, vec![vec![97u8, 98]]);
}

#[test]
fn self_reference_adds_position() {
    let mut cfg = config(
        vec![1],
        r"^:(\w+)$",
        vec![Rule::new(
            r"^x$".to_string(),
            vec![vec![10]],
            vec![tf(0, 0, 0)],
            Vec::new(),
        )],
    );
    let out = assemble(&mut cfg, &lines("x x x"), OutputFormat::LittleEndian).unwrap();
    assert_eq!(out, vec![vec![10u8, 11, 12]]);
}

#[test]
fn negate_is_twos_complement() {
    let mut cfg = number_config();
    cfg.segment_widths = vec![8];
    if let Capture::Num { feedbacks, .. } = &mut cfg.rules[0].captures[0] {
        feedbacks[0].negate = true;
    }
    let out = assemble(&mut cfg, &lines("1"), OutputFormat::LittleEndian).unwrap();
    assert_eq!(out, vec![vec![0xffu8; 8]]);
}

#[test]
fn feedback_shift_left_and_right() {
    let mut cfg = number_config();
    cfg.segment_widths = vec![2];
    if let Capture::Num { feedbacks, .. } = &mut cfg.rules[0].captures[0] {
        feedbacks[0].shift = 8;
    }
    let out = assemble(&mut cfg, &lines("1"), OutputFormat::LittleEndian).unwrap();
    assert_eq!(out, vec![vec![0u8, 1]]);

    let mut cfg2 = number_config();
    if let Capture::Num { feedbacks, .. } = &mut cfg2.rules[0].captures[0] {
        feedbacks[0].shift = -4;
    }
    let out2 = assemble(&mut cfg2, &lines("16"), OutputFormat::LittleEndian).unwrap();
    assert_eq!(out2, vec![vec![1u8]]);
}

#[test]
fn negative_number_wraps() {
    let mut cfg = number_config();
    cfg.rules[0].regex_string = r"^(-?\d+)$".to_string();
    let out = assemble(&mut cfg, &lines("-1"), OutputFormat::LittleEndian).unwrap();
    assert_eq!(out, vec![vec![0xffu8]]);
}

#[test]
fn comments_are_stripped() {
    let mut cfg = number_config();
    let out = assemble(&mut cfg, &lines("1 2 # 9 9\n3"), OutputFormat::LittleEndian).unwrap();
    assert_eq!(out, vec![vec![1u8, 2, 3]]);
}

#[test]
fn whole_line_matching_without_split() {
    let mut cfg = number_config();
    cfg.split_whitespace = false;
    let out = assemble(&mut cfg, &lines("1\n2"), OutputFormat::LittleEndian).unwrap();
    assert_eq!(out, vec![vec![1u8, 2]]);
}

#[test]
fn tabs_split_tokens() {
    let mut cfg = number_config();
    let out = assemble(&mut cfg, &lines("1\t2"), OutputFormat::LittleEndian).unwrap();
    assert_eq!(out, vec![vec![1u8, 2]]);
}

#[test]
fn multiple_buffers_extend_one_state() {
    let mut cfg = tagged_config(false);
    let buffers = vec![vec!["@foo 7".to_string()], vec![":foo 9".to_string()]];
    let out = assemble(&mut cfg, &buffers, OutputFormat::LittleEndian).unwrap();
    assert_eq!(out, vec![vec![2u8, 7, 9]]);
}

#[test]
fn two_segments_emit_in_parallel() {
    let mut cfg = config(
        vec![1, 2],
        r"^:(\w+)$",
        vec![rule(
            r"^(\d+)$",
            vec![vec![0], vec![7]],
            vec![Capture::Num {
                base: 10,
                feedbacks: vec![nf(0, 0)],
            }],
        )],
    );
    let out = assemble(&mut cfg, &lines("5"), OutputFormat::LittleEndian).unwrap();
    assert_eq!(out, vec![vec![5u8], vec![7u8, 0]]);
}

#[test]
fn determinism_across_runs() {
    let run = || {
        let mut cfg = tagged_config(true);
        assemble(&mut cfg, &lines("@a 7 :a 9 @a"), OutputFormat::HexList)
    };
    let a = run();
    let b = run();
    match (a, b) {
        (Ok(x), Ok(y)) => assert_eq!(x, y),
        (Err(_), Err(_)) => {}
        _ => panic!("two identical runs disagreed"),
    }
}

#[test]
fn unrecognized_token_is_fatal() {
    let mut cfg = number_config();
    let err = assemble(&mut cfg, &lines("1 what 2"), OutputFormat::LittleEndian).unwrap_err();
    match err {
        RunError::Assembly(AsmError::UnrecognizedToken { line, token }) => {
            assert_eq!(line, 1);
            assert_eq!(token, "what");
        }
        other => panic!("wrong error: {:?}", other),
    }
}

#[test]
fn number_parse_failure() {
    let mut cfg = number_config();
    cfg.rules[0].regex_string = r"^(\w+)$".to_string();
    let err = assemble(&mut cfg, &lines("zz"), OutputFormat::LittleEndian).unwrap_err();
    assert!(matches!(
        err,
        RunError::Assembly(AsmError::NumberParseFailure { line: 1, .. })
    ));
}

#[test]
fn duplicate_tag_is_fatal() {
    let mut cfg = number_config();
    let err = assemble(&mut cfg, &lines(":a\n:a"), OutputFormat::LittleEndian).unwrap_err();
    assert!(matches!(
        err,
        RunError::Assembly(AsmError::DuplicateTag { line: 2, .. })
    ));
}

#[test]
fn undefined_tag_is_fatal() {
    let mut cfg = tagged_config(false);
    let err = assemble(&mut cfg, &lines("@foo 7"), OutputFormat::LittleEndian).unwrap_err();
    assert!(matches!(
        err,
        RunError::Assembly(AsmError::UndefinedTag { line: 1, .. })
    ));
}

#[test]
fn negative_fill_is_fatal() {
    let mut cfg = config(
        vec![1],
        r"^:(\w+)$",
        vec![rule(
            r"^(\d+)$",
            vec![vec![5]],
            vec![Capture::Num {
                base: 10,
                feedbacks: vec![NumFeedback {
                    negate: false,
                    shift: 0,
                    segment: 0,
                    index: 0,
                    fill: true,
                    fill_offset: -1,
                    align: false,
                }],
            }],
        )],
    );
    let err = assemble(&mut cfg, &lines("0"), OutputFormat::LittleEndian).unwrap_err();
    assert!(matches!(
        err,
        RunError::Assembly(AsmError::NegativeFill { line: 1 })
    ));
}

#[test]
fn config_rejects_zero_width() {
    let mut cfg = number_config();
    cfg.segment_widths = vec![0];
    let err = assemble(&mut cfg, &lines(""), OutputFormat::LittleEndian).unwrap_err();
    assert!(matches!(
        err,
        RunError::Config(ConfigError::BadSegmentWidth { segment: 0 })
    ));
}

#[test]
fn config_rejects_oversize_width() {
    let mut cfg = number_config();
    cfg.segment_widths = vec![1, 9];
    let err = assemble(&mut cfg, &lines(""), OutputFormat::LittleEndian).unwrap_err();
    assert!(matches!(
        err,
        RunError::Config(ConfigError::BadSegmentWidth { segment: 1 })
    ));
}

#[test]
fn config_rejects_bad_tag_regex() {
    let mut cfg = number_config();
    cfg.tag_create.regex_string = "(".to_string();
    let err = assemble(&mut cfg, &lines(""), OutputFormat::LittleEndian).unwrap_err();
    assert!(matches!(err, RunError::Config(ConfigError::BadTagRegex)));
}

#[test]
fn config_rejects_tag_regex_without_group() {
    let mut cfg = number_config();
    cfg.tag_create.regex_string = r"^\w+$".to_string();
    let err = assemble(&mut cfg, &lines(""), OutputFormat::LittleEndian).unwrap_err();
    assert!(matches!(
        err,
        RunError::Config(ConfigError::TagRegexGroupCount)
    ));
}

#[test]
fn config_rejects_wrong_segment_value_count() {
    let mut cfg = number_config();
    cfg.rules[0].segment_values = vec![vec![0], vec![0]];
    let err = assemble(&mut cfg, &lines(""), OutputFormat::LittleEndian).unwrap_err();
    assert!(matches!(
        err,
        RunError::Config(ConfigError::SegmentValueCount { rule: 0 })
    ));
}

#[test]
fn config_rejects_bad_rule_regex() {
    let mut cfg = number_config();
    cfg.rules[0].regex_string = "[".to_string();
    let err = assemble(&mut cfg, &lines(""), OutputFormat::LittleEndian).unwrap_err();
    assert!(matches!(
        err,
        RunError::Config(ConfigError::BadRuleRegex { rule: 0 })
    ));
}

#[test]
fn config_rejects_capture_count_mismatch() {
    let mut cfg = number_config();
    cfg.rules[0].regex_string = r"^(\d+)(\d)$".to_string();
    let err = assemble(&mut cfg, &lines(""), OutputFormat::LittleEndian).unwrap_err();
    assert!(matches!(
        err,
        RunError::Config(ConfigError::CaptureCount { rule: 0 })
    ));
}

#[test]
fn config_rejects_bad_self_reference() {
    let mut cfg = number_config();
    cfg.rules[0].self_references = vec![tf(0, 1, 0)];
    let err = assemble(&mut cfg, &lines(""), OutputFormat::LittleEndian).unwrap_err();
    assert!(matches!(
        err,
        RunError::Config(ConfigError::BadSelfReference { rule: 0 })
    ));
}

#[test]
fn config_rejects_bad_tag_feedback() {
    let mut cfg = tagged_config(false);
    if let Capture::Tag { feedbacks } = &mut cfg.rules[1].captures[0] {
        feedbacks[0].add_index = 5;
    }
    let err = assemble(&mut cfg, &lines(""), OutputFormat::LittleEndian).unwrap_err();
    assert!(matches!(
        err,
        RunError::Config(ConfigError::BadTagFeedback { rule: 1 })
    ));
}

#[test]
fn config_rejects_bad_str_capture() {
    let mut cfg = number_config();
    cfg.rules[0].captures = vec![Capture::Str { add_segment: 3 }];
    let err = assemble(&mut cfg, &lines(""), OutputFormat::LittleEndian).unwrap_err();
    assert!(matches!(
        err,
        RunError::Config(ConfigError::BadStrCapture { rule: 0 })
    ));
}

#[test]
fn config_rejects_bad_base() {
    let mut cfg = number_config();
    if let Capture::Num { base, .. } = &mut cfg.rules[0].captures[0] {
        *base = 99;
    }
    let err = assemble(&mut cfg, &lines(""), OutputFormat::LittleEndian).unwrap_err();
    assert!(matches!(
        err,
        RunError::Config(ConfigError::BadNumBase { rule: 0 })
    ));
}

#[test]
fn config_rejects_bad_num_feedback() {
    let mut cfg = number_config();
    if let Capture::Num { feedbacks, .. } = &mut cfg.rules[0].captures[0] {
        feedbacks[0].index = 7;
    }
    let err = assemble(&mut cfg, &lines(""), OutputFormat::LittleEndian).unwrap_err();
    assert!(matches!(
        err,
        RunError::Config(ConfigError::BadNumFeedback { rule: 0 })
    ));
}

#[test]
fn base_sixteen_numbers() {
    let mut cfg = number_config();
    cfg.rules[0].regex_string = r"^0x([0-9a-fA-F]+)$".to_string();
    if let Capture::Num { base, .. } = &mut cfg.rules[0].captures[0] {
        *base = 16;
    }
    let out = assemble(&mut cfg, &lines("0xab"), OutputFormat::LittleEndian).unwrap();
    assert_eq!(out, vec![vec![0xabu8]]);
}

#[test]
fn tag_feedback_offset_and_shift() {
    let mut cfg = tagged_config(false);
    if let Capture::Tag { feedbacks } = &mut cfg.rules[1].captures[0] {
        feedbacks[0].offset = 3;
        feedbacks[0].shift = 4;
    }
    // Tag lands at position 2; patch = (2 + 3) << 4 = 80.
    let out = assemble(&mut cfg, &lines("@foo 7 :foo"), OutputFormat::LittleEndian).unwrap();
    assert_eq!(out, vec![vec![80u8, 7]]);
}

#[test]
fn shift_function_matches_both_directions() {
    assert_eq!(shift_left_or_right(1, 3), 8);
    assert_eq!(shift_left_or_right(0x10, -4), 1);
    assert_eq!(shift_left_or_right(1, 64), 0);
    assert_eq!(shift_left_or_right(u64::MAX, -64), 0);
    assert_eq!(shift_left_or_right(u64::MAX, 1), u64::MAX - 1);
    assert_eq!(shift_left_or_right(5, 0), 5);
}

#[test]
fn word_byte_encodings() {
    assert_eq!(
        uarc_asm::serialize::le_word_bytes(0x0102030405060708, 8),
        vec![8u8, 7, 6, 5, 4, 3, 2, 1]
    );
    assert_eq!(
        uarc_asm::serialize::be_word_bytes(0x0102030405060708, 8),
        vec![1u8, 2, 3, 4, 5, 6, 7, 8]
    );
    assert_eq!(uarc_asm::serialize::le_word_bytes(0x0102, 1), vec![2u8]);
    assert_eq!(uarc_asm::serialize::be_word_bytes(0xabcd, 2), vec![0xabu8, 0xcd]);
    assert_eq!(uarc_asm::serialize::hex_word_bytes(0xab, 2), b"00AB\n".to_vec());
    assert_eq!(uarc_asm::serialize::hex_word_bytes(0x1f, 1), b"1F\n".to_vec());
}

#[test]
fn parser_direct_use() {
    let mut cfg = number_config();
    cfg.consistency_check().unwrap();
    let mut parser = Parser::new(&cfg);
    parser.parse(&vec!["1 2".to_string()]).unwrap();
    parser.parse(&vec!["3".to_string()]).unwrap();
    parser.link().unwrap();
    let bytes = parser.output(OutputFormat::LittleEndian, 0);
    assert_eq!(bytes, vec![1u8, 2, 3]);
}

#[test]
fn parse_segment_direct_use() {
    let mut cfg = number_config();
    cfg.consistency_check().unwrap();
    let mut parser = Parser::new(&cfg);
    parser.parse_segment("7", 1).unwrap();
    assert!(parser.parse_segment("bogus", 2).is_err());
}

#[test]
fn failed_rule_emits_nothing() {
    // The second token's capture overflows an i64, so its rule fails
    // before emitting; only the first token's word is in the segment.
    let mut cfg = number_config();
    cfg.consistency_check().unwrap();
    let mut parser = Parser::new(&cfg);
    let err = parser
        .parse(&vec!["5 99999999999999999999 7".to_string()])
        .unwrap_err();
    assert!(matches!(err, AsmError::NumberParseFailure { line: 1, .. }));
    parser.link().unwrap();
    assert_eq!(parser.output(OutputFormat::LittleEndian, 0), vec![5u8]);
}

#[test]
fn partial_tag_match_is_not_a_tag() {
    // The tag-create regex matches inside the token but not the whole
    // token, so the token is not a tag definition; no rule matches it
    // either, so it is unrecognized.
    let mut cfg = number_config();
    cfg.tag_create.regex_string = r":(\w+)".to_string();
    let err = assemble(&mut cfg, &lines("x:foo"), OutputFormat::LittleEndian).unwrap_err();
    assert!(matches!(
        err,
        RunError::Assembly(AsmError::UnrecognizedToken { line: 1, .. })
    ));
}

#[test]
fn partial_rule_match_is_rejected() {
    // An unanchored rule regex matches a digit inside the token, but the
    // match does not cover the whole token, so the rule does not fire.
    let mut cfg = number_config();
    cfg.rules[0].regex_string = r"(\d+)".to_string();
    let err = assemble(&mut cfg, &lines("a1b"), OutputFormat::LittleEndian).unwrap_err();
    assert!(matches!(
        err,
        RunError::Assembly(AsmError::UnrecognizedToken { line: 1, .. })
    ));
    let mut cfg2 = number_config();
    cfg2.rules[0].regex_string = r"(\d+)".to_string();
    let out = assemble(&mut cfg2, &lines("7"), OutputFormat::LittleEndian).unwrap();
    assert_eq!(out, vec![vec![7u8]]);
}

#[test]
fn empty_tag_name_is_a_named_tag() {
    // A tag regex whose group can capture nothing: the empty name is a
    // named tag (a directional tag needs one or more characters), so a
    // second empty definition is a duplicate.
    let mut cfg = number_config();
    cfg.tag_create.regex_string = r"^:(\w*)$".to_string();
    let err = assemble(&mut cfg, &lines(": :"), OutputFormat::LittleEndian).unwrap_err();
    match err {
        RunError::Assembly(AsmError::DuplicateTag { line, tag }) => {
            assert_eq!(line, 1);
            assert_eq!(tag, "");
        }
        other => panic!("wrong error: {:?}", other),
    }
}
