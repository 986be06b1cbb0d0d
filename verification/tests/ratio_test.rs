use rust_chat::bot::allocate::allocatable;
use rust_chat::bot::{allocate, BotType, RatioSpec};

fn error_of(s: &str) -> String {
    RatioSpec::parse(s).unwrap_err()
}

#[test]
fn parse_default_ratio() {
    let spec = RatioSpec::parse(RatioSpec::DEFAULT).unwrap();
    assert_eq!(spec.entries.len(), 5);
    assert_eq!(spec.entries[0], (BotType::Normal, 40));
    assert_eq!(spec.entries[1], (BotType::Spammer, 20));
    assert_eq!(spec.entries[2], (BotType::Fickle, 20));
    assert_eq!(spec.entries[3], (BotType::GhostBot, 10));
    assert_eq!(spec.entries[4], (BotType::Quitter, 10));
}

#[test]
fn parse_single_entry() {
    let spec = RatioSpec::parse("normal:100").unwrap();
    assert_eq!(spec.entries, vec![(BotType::Normal, 100)]);
}

#[test]
fn parse_with_whitespace() {
    let spec = RatioSpec::parse("  normal:40 , spammer:20  ").unwrap();
    assert_eq!(spec.entries.len(), 2);
    assert_eq!(spec.entries[0], (BotType::Normal, 40));
    assert_eq!(spec.entries[1], (BotType::Spammer, 20));
}

#[test]
fn parse_whitespace_around_the_colon() {
    let spec = RatioSpec::parse("\tghost :\u{3000}+7\n").unwrap();
    assert_eq!(spec.entries, vec![(BotType::GhostBot, 7)]);
}

#[test]
fn parse_keeps_order_and_repetitions() {
    let spec = RatioSpec::parse("quitter:1,normal:2,quitter:3").unwrap();
    assert_eq!(
        spec.entries,
        vec![(BotType::Quitter, 1), (BotType::Normal, 2), (BotType::Quitter, 3)]
    );
}

#[test]
fn parse_empty_string() {
    assert!(RatioSpec::parse("").is_err());
}

#[test]
fn parse_whitespace_only() {
    assert!(RatioSpec::parse("   ").is_err());
}

#[test]
fn parse_bad_format_no_colon() {
    assert!(RatioSpec::parse("normal40").is_err());
}

#[test]
fn parse_zero_ratio() {
    assert!(RatioSpec::parse("normal:0").is_err());
}

#[test]
fn parse_invalid_bot_type() {
    assert!(RatioSpec::parse("unknown:10").is_err());
}

#[test]
fn parse_non_numeric_ratio() {
    assert!(RatioSpec::parse("normal:abc").is_err());
}

#[test]
fn parse_says_what_is_wrong() {
    assert_eq!(error_of(" "), "비율 문자열이 비어 있습니다");
    assert_eq!(error_of("normal40"), "잘못된 형식: 'normal40' ('타입:숫자' 형식이어야 합니다)");
    assert_eq!(error_of("normal:1,"), "잘못된 형식: '' ('타입:숫자' 형식이어야 합니다)");
    assert_eq!(error_of("unknown:10"), "유효하지 않은 봇 타입: 'unknown'");
    assert_eq!(error_of("normal: x1 "), "비율 값이 유효한 숫자가 아닙니다: 'x1'");
    assert_eq!(error_of("normal:"), "비율 값이 유효한 숫자가 아닙니다: ''");
    assert_eq!(error_of("normal:-1"), "비율 값이 유효한 숫자가 아닙니다: '-1'");
    assert_eq!(error_of("normal:4294967296"), "비율 값이 유효한 숫자가 아닙니다: '4294967296'");
    assert_eq!(error_of("normal:1:2"), "비율 값이 유효한 숫자가 아닙니다: '1:2'");
    assert_eq!(error_of("normal : 000"), "비율 값은 1 이상이어야 합니다: 'normal:0'");
}

#[test]
fn parse_reports_the_first_wrong_entry() {
    assert_eq!(error_of("normal:1,foo:2,bar:3"), "유효하지 않은 봇 타입: 'foo'");
}

#[test]
fn parse_takes_the_largest_ratio() {
    let spec = RatioSpec::parse("fickle:4294967295").unwrap();
    assert_eq!(spec.entries, vec![(BotType::Fickle, u32::MAX)]);
}

#[test]
fn written_ratios_are_read_back() {
    let spec = RatioSpec {
        entries: vec![
            (BotType::Spammer, 7),
            (BotType::Normal, 100),
            (BotType::GhostBot, u32::MAX),
        ],
    };
    assert_eq!(spec.to_string(), "spammer:7,normal:100,ghost:4294967295");
    assert_eq!(RatioSpec::parse(&spec.to_string()).unwrap(), spec);
    let default = RatioSpec::parse(RatioSpec::DEFAULT).unwrap();
    assert_eq!(default.to_string(), RatioSpec::DEFAULT);
}

#[test]
fn bot_type_roundtrip() {
    let types = [
        BotType::Normal,
        BotType::Fickle,
        BotType::Spammer,
        BotType::GhostBot,
        BotType::Quitter,
    ];
    for bt in &types {
        assert_eq!(BotType::from_str(bt.as_str()).unwrap(), *bt);
    }
}

#[test]
fn bot_type_invalid() {
    assert!(BotType::from_str("invalid").is_err());
    assert!(BotType::from_str("").is_err());
}

#[test]
fn bot_types_have_lower_case_names() {
    assert_eq!(BotType::GhostBot.as_str(), "ghost");
    assert_eq!(BotType::from_str("Normal").unwrap_err(), "유효하지 않은 봇 타입: 'Normal'");
}

#[test]
fn allocate_default_500() {
    let spec = RatioSpec::parse(RatioSpec::DEFAULT).unwrap();
    let result = allocate(500, &spec);
    let total: usize = result.iter().map(|(_, n)| *n).sum();
    assert_eq!(total, 500);
    assert_eq!(result[0], (BotType::Normal, 200));
    assert_eq!(result[1], (BotType::Spammer, 100));
    assert_eq!(result[2], (BotType::Fickle, 100));
    assert_eq!(result[3], (BotType::GhostBot, 50));
    assert_eq!(result[4], (BotType::Quitter, 50));
}

#[test]
fn allocate_default_501() {
    let spec = RatioSpec::parse(RatioSpec::DEFAULT).unwrap();
    let result = allocate(501, &spec);
    let total: usize = result.iter().map(|(_, n)| *n).sum();
    assert_eq!(total, 501);
    assert_eq!(result[0], (BotType::Normal, 201));
}

#[test]
fn allocate_default_499() {
    let spec = RatioSpec::parse(RatioSpec::DEFAULT).unwrap();
    let counts: Vec<usize> = allocate(499, &spec).iter().map(|(_, n)| *n).collect();
    assert_eq!(counts, vec![200, 100, 100, 50, 49]);
}

#[test]
fn allocate_fewer_bots_than_types() {
    let spec = RatioSpec::parse(RatioSpec::DEFAULT).unwrap();
    let result = allocate(3, &spec);
    let total: usize = result.iter().map(|(_, n)| *n).sum();
    assert_eq!(total, 3);
    let normal_count = result.iter().find(|(bt, _)| *bt == BotType::Normal).unwrap().1;
    assert!(normal_count >= 1, "비율이 가장 높은 normal은 최소 1개 배분");
}

#[test]
fn allocate_zero_bots() {
    let spec = RatioSpec::parse(RatioSpec::DEFAULT).unwrap();
    let result = allocate(0, &spec);
    let total: usize = result.iter().map(|(_, n)| *n).sum();
    assert_eq!(total, 0);
}

#[test]
fn allocate_one_bot() {
    let spec = RatioSpec::parse(RatioSpec::DEFAULT).unwrap();
    let result = allocate(1, &spec);
    let total: usize = result.iter().map(|(_, n)| *n).sum();
    assert_eq!(total, 1);
}

#[test]
fn allocate_serves_the_highest_ratio_first() {
    let spec = RatioSpec::parse("ghost:1,normal:3,quitter:3,fickle:2").unwrap();
    let counts: Vec<usize> = allocate(11, &spec).iter().map(|(_, n)| *n).collect();
    // 11 * ratio / 9 comes to 1, 3, 3 and 2; the two that are left go to the
    // two highest ratios.
    assert_eq!(counts, vec![1, 4, 4, 2]);
    let counts: Vec<usize> = allocate(1, &spec).iter().map(|(_, n)| *n).collect();
    assert_eq!(counts, vec![0, 1, 0, 0]);
}

#[test]
fn allocate_nothing_to_nobody() {
    let spec = RatioSpec { entries: vec![] };
    assert!(allocatable(5, &spec));
    assert_eq!(allocate(5, &spec), vec![]);
}

#[test]
fn allocations_out_of_range_are_told() {
    let zero = RatioSpec { entries: vec![(BotType::Normal, 0)] };
    assert!(!allocatable(5, &zero));
    let wide = RatioSpec { entries: vec![(BotType::Normal, u32::MAX), (BotType::Fickle, 1)] };
    assert!(!allocatable(5, &wide));
    let many = RatioSpec { entries: vec![(BotType::Normal, 2)] };
    assert!(!allocatable(usize::MAX, &many));
    assert!(allocatable(10_000, &many));
}
