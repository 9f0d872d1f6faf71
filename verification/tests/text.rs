//! Text formatting, number parsing and the small classification helpers.

use botcore::{
    is_transient_status, looks_like_html, status_is_error, u64_to_dec, with_comma_u64,
    CustomClientError, ErrorKind, GameMode, GameModeOption, GradeOption, Grade, Invoke, Mods,
    RateLimitedClient, ScoreOrder, Site, parse_invoke, CommandHandler, CommandFlags,
    PrefixCommand, PrefixCommandGroup, PrefixCommands, Stream,
};

#[test]
fn decimal_rendering() {
    assert_eq!(u64_to_dec(0), "0");
    assert_eq!(u64_to_dec(7), "7");
    assert_eq!(u64_to_dec(1234), "1234");
    assert_eq!(u64_to_dec(u64::MAX), "18446744073709551615");
}

#[test]
fn comma_grouping() {
    assert_eq!(with_comma_u64(0), "0");
    assert_eq!(with_comma_u64(999), "999");
    assert_eq!(with_comma_u64(1000), "1,000");
    assert_eq!(with_comma_u64(1234567), "1,234,567");
}

#[test]
fn status_classification() {
    assert!(is_transient_status(429));
    assert!(!is_transient_status(500));
    assert!(status_is_error(404));
    assert!(status_is_error(599));
    assert!(!status_is_error(200));
    assert!(!status_is_error(399));
}

#[test]
fn html_body_detection() {
    assert!(looks_like_html(&b"<html>junk".to_vec()));
    assert!(!looks_like_html(&b"osu file format v14".to_vec()));
    assert!(!looks_like_html(&b"<htm".to_vec()));
}

#[test]
fn grade_option_parsing() {
    assert_eq!(GradeOption::from_str("ss"), Ok(GradeOption::SS));
    assert_eq!(GradeOption::from_str("x"), Ok(GradeOption::SS));
    assert_eq!(GradeOption::from_str("a"), Ok(GradeOption::A));
    assert!(GradeOption::from_str("q").is_err());
    assert_eq!(Grade::from(GradeOption::SS), Grade::X);
    assert_eq!(GameMode::from(GameModeOption::Catch), GameMode::Catch);
    assert_eq!(GameModeOption::from(GameMode::Mania), GameModeOption::Mania);
}

#[test]
fn score_order_defaults_to_pp() {
    assert_eq!(ScoreOrder::default(), ScoreOrder::Pp);
}

#[test]
fn mods_set_operations() {
    let m = Mods { bits: 0 };
    assert!(m.is_empty());
    let m = m.with(0x40);
    assert!(m.contains(0x40));
    let m = m.without(0x40);
    assert!(!m.contains(0x40));
}

#[test]
fn upstream_error_variants() {
    let status = CustomClientError::Status { status: 404, url: String::from("u") };
    match status {
        CustomClientError::Status { status, .. } => assert_eq!(status, 404),
        _ => panic!("expected a status failure"),
    }
    let parsing = CustomClientError::Parsing {
        body: String::from("{"),
        kind: ErrorKind::Leaderboard,
    };
    assert!(matches!(parsing, CustomClientError::Parsing { .. }));
    assert!(matches!(CustomClientError::RetryLimit, CustomClientError::RetryLimit));
}

#[test]
fn numeric_suffix_overflow_is_ignored() {
    let mut cmds = PrefixCommands::new();
    cmds.register(PrefixCommand {
        names: vec![String::from("test")],
        desc: String::from("desc"),
        help: None,
        usage: None,
        examples: Vec::new(),
        group: PrefixCommandGroup::Utility,
        flags: CommandFlags { bits: 0 },
        handler: CommandHandler::Ping,
    })
    .unwrap();
    let mut stream = Stream::new("test99999999999999999999999");
    assert!(matches!(parse_invoke(&mut stream, &cmds), Invoke::NoMatch));
    let mut stream = Stream::new("test7");
    match parse_invoke(&mut stream, &cmds) {
        Invoke::Command { num, .. } => assert_eq!(num, Some(7)),
        Invoke::NoMatch => panic!("expected a numeric suffix"),
    }
}

#[test]
fn rate_limited_client_sites() {
    let mut client = RateLimitedClient::new(0);
    let g1 = client.acquire(Site::OsuHiddenApi, 0);
    let g2 = client.acquire(Site::OsuHiddenApi, g1);
    assert_eq!(g1, 0);
    assert_eq!(g2, 2500);
    // The map-file class has its own, faster bucket.
    let g3 = client.acquire(Site::OsuMapFile, g2);
    let g4 = client.acquire(Site::OsuMapFile, g3);
    assert_eq!(g3, 2500);
    assert_eq!(g4, 3000);
}
