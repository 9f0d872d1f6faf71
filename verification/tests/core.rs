//! The tokenizer, registry, rate limiter, retry policy and text helpers,
//! exercised on concrete values.

use botcore::{
    flag_url_svg, is_custom_emote, levenshtein_distance, parse_invoke, CommandFlags,
    CommandHandler, ExponentialBackoff, Invoke, PrefixCommand, PrefixCommandGroup, PrefixCommands,
    RetryState, RetryStep, SlashCommand, SlashCommands, Stream, TokenBucket,
};

fn descriptor(names: &[&str], handler: CommandHandler) -> PrefixCommand {
    PrefixCommand {
        names: names.iter().map(|n| n.to_string()).collect(),
        desc: String::from("desc"),
        help: None,
        usage: None,
        examples: Vec::new(),
        group: PrefixCommandGroup::AllModes,
        flags: CommandFlags { bits: 0 },
        handler,
    }
}

fn registry() -> PrefixCommands {
    let mut cmds = PrefixCommands::new();
    cmds.register(descriptor(&["help", "h"], CommandHandler::Help)).unwrap();
    cmds.register(descriptor(&["nationalleaderboard", "nlb"], CommandHandler::NationalLeaderboard))
        .unwrap();
    cmds.register(descriptor(&["ping"], CommandHandler::Ping)).unwrap();
    cmds.register(descriptor(&["test"], CommandHandler::Ping)).unwrap();
    cmds
}

#[test]
fn alias_lookup_returns_identical_descriptor() {
    let cmds = registry();
    let by_name = cmds.command("help").expect("name registered");
    let by_alias = cmds.command("h").expect("alias registered");
    assert_eq!(by_name.names, by_alias.names);
    assert_eq!(by_name.handler, by_alias.handler);
    assert!(cmds.command("nope").is_none());
}

#[test]
fn registering_shared_alias_fails() {
    let mut cmds = registry();
    let err = cmds
        .register(descriptor(&["hierarchy", "h"], CommandHandler::Ping))
        .expect_err("alias `h` already registered");
    assert_eq!(
        err,
        "command alias `h` of `hierarchy` is already registered for `help`"
    );
    // The registry is unchanged: the colliding command is absent.
    assert!(cmds.command("hierarchy").is_none());
}

#[test]
fn registering_duplicate_alias_within_one_command_fails() {
    let mut cmds = PrefixCommands::new();
    let err = cmds
        .register(descriptor(&["x", "x"], CommandHandler::Ping))
        .expect_err("duplicate alias");
    assert_eq!(err, "command `x` lists alias `x` twice");
}

#[test]
fn slash_registry_is_case_sensitive_exact() {
    let mut cmds = SlashCommands::new();
    cmds.register(SlashCommand {
        name: String::from("leaderboard"),
        desc: String::from("desc"),
        flags: CommandFlags { bits: 0 },
        handler: CommandHandler::Leaderboard,
    })
    .unwrap();
    assert!(cmds.command("leaderboard").is_some());
    assert!(cmds.command("Leaderboard").is_none());
    let err = cmds
        .register(SlashCommand {
            name: String::from("leaderboard"),
            desc: String::from("desc"),
            flags: CommandFlags { bits: 0 },
            handler: CommandHandler::Nlb,
        })
        .expect_err("name taken");
    assert!(err.contains("leaderboard"));
}

#[test]
fn tokenize_help_ping() {
    let cmds = registry();
    let text = "  !help ping";
    let mut stream = Stream::new(text);
    stream.skip_whitespace();
    assert!(stream.starts_with("!"));
    stream.advance(1);
    match parse_invoke(&mut stream, &cmds) {
        Invoke::Command { cmd, num } => {
            assert_eq!(cmd.names[0], "help");
            assert_eq!(num, None);
        }
        Invoke::NoMatch => panic!("expected the help command"),
    }
    // The remaining argument text.
    let rest = stream.take_until_whitespace();
    assert_eq!(rest, "ping");
}

#[test]
fn tokenize_numeric_suffix() {
    let cmds = registry();
    let mut stream = Stream::new("test123");
    match parse_invoke(&mut stream, &cmds) {
        Invoke::Command { cmd, num } => {
            assert_eq!(cmd.names[0], "test");
            assert_eq!(num, Some(123));
        }
        Invoke::NoMatch => panic!("expected the test command with suffix"),
    }
}

#[test]
fn tokenize_lowercases_and_ignores_unknown() {
    let cmds = registry();
    let mut stream = Stream::new("PING rest");
    match parse_invoke(&mut stream, &cmds) {
        Invoke::Command { cmd, num } => {
            assert_eq!(cmd.names[0], "ping");
            assert_eq!(num, None);
        }
        Invoke::NoMatch => panic!("lookup is case-insensitive"),
    }
    let mut stream = Stream::new("unknown42x");
    assert!(matches!(parse_invoke(&mut stream, &cmds), Invoke::NoMatch));
}

#[test]
fn rate_limiter_spaces_sequential_grants() {
    // Capacity one, one token per 100 ms, created (full) at t = 1000.
    let mut bucket = TokenBucket::new(1, 100, 1000);
    let mut now = 1000;
    let mut grants = Vec::new();
    for _ in 0..5 {
        let grant = bucket.acquire_at(now);
        grants.push(grant);
        now = grant;
    }
    assert_eq!(grants, vec![1000, 1100, 1200, 1300, 1400]);
    // Five sequential acquisitions took at least four intervals.
    assert!(grants[4] - grants[0] >= 4 * 100);
}

#[test]
fn rate_limiter_accumulates_up_to_capacity() {
    let mut bucket = TokenBucket::new(3, 100, 0);
    // Long idle: at most three tokens are available at once.
    assert_eq!(bucket.acquire_at(10_000), 10_000);
    assert_eq!(bucket.acquire_at(10_000), 10_000);
    assert_eq!(bucket.acquire_at(10_000), 10_000);
    assert!(bucket.acquire_at(10_000) > 10_000);
}

#[test]
fn backoff_doubles_and_caps() {
    let mut backoff = ExponentialBackoff::new(2).factor(500).max_delay(10_000);
    let delays: Vec<u64> = (0..10).map(|_| backoff.next()).collect();
    assert_eq!(
        delays,
        vec![1000, 2000, 4000, 8000, 10_000, 10_000, 10_000, 10_000, 10_000, 10_000]
    );
    for w in delays.windows(2) {
        assert!(w[0] <= w[1]);
        assert!(w[1] <= 10_000);
    }
}

#[test]
fn retry_gives_up_after_ten_attempts_without_an_eleventh() {
    let mut retry = RetryState::new(2, 500, 10_000, 10);
    let mut delays = Vec::new();
    let mut attempts = 0;
    loop {
        attempts += 1;
        match retry.on_response(true) {
            RetryStep::Retry { delay_ms } => delays.push(delay_ms),
            RetryStep::GiveUp => break,
            RetryStep::Done => panic!("transient responses never finish the call"),
        }
    }
    assert_eq!(attempts, 10);
    assert_eq!(delays.len(), 9);
    assert_eq!(delays[0], 1000);
    for w in delays.windows(2) {
        assert!(w[0] <= w[1]);
    }
    assert!(delays.iter().all(|&d| d <= 10_000));
}

#[test]
fn retry_stops_on_final_response() {
    let mut retry = RetryState::new(2, 500, 10_000, 10);
    assert!(matches!(retry.on_response(true), RetryStep::Retry { .. }));
    assert!(matches!(retry.on_response(false), RetryStep::Done));
}

#[test]
fn levenshtein_examples() {
    assert_eq!(levenshtein_distance("test", "test"), (0, 4));
    assert_eq!(levenshtein_distance("kitten", "sitting"), (3, 7));
    assert_eq!(levenshtein_distance("", "abc"), (3, 3));
    assert_eq!(levenshtein_distance("ab", ""), (2, 2));
    assert_eq!(levenshtein_distance("flag", "flaag"), (1, 5));
}

#[test]
fn emote_matching() {
    assert!(is_custom_emote("look at <:smile:12345> here"));
    assert!(is_custom_emote("<a:wave:9>"));
    assert!(!is_custom_emote("<:noid:>"));
    assert!(!is_custom_emote("<::12>"));
    assert!(!is_custom_emote("plain text"));
    assert!(!is_custom_emote("<:broken\nname:12>"));
}

#[test]
fn flag_url() {
    assert_eq!(
        flag_url_svg("us"),
        "https://osu.ppy.sh/assets/images/flags/1f1fa-1f1f8.svg"
    );
    assert_eq!(
        flag_url_svg("DE"),
        "https://osu.ppy.sh/assets/images/flags/1f1e9-1f1ea.svg"
    );
}
