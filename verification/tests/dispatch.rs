//! Dispatcher decisions, the guild-config cache, prefix updates and the
//! session state machine.

use botcore::{
    apply_prefix_update, check_policy, current_prefixes, decide_interaction, decide_message,
    help_suggestions, CommandFlags, CommandHandler, ErrorKind, GuildConfig, GuildConfigs,
    HowLongAgoDynamic, InteractionAction, MessageAction, PageChange, Pages, PaginationSession,
    PolicyCheck, PolicyError, PrefixAction, PrefixCommand, PrefixCommandGroup, PrefixCommands,
    SessionAction, SessionEvent, SlashCommand, SlashCommands, Stream,
};

fn descriptor(names: &[&str], flags: u8) -> PrefixCommand {
    PrefixCommand {
        names: names.iter().map(|n| n.to_string()).collect(),
        desc: String::from("desc"),
        help: None,
        usage: None,
        examples: Vec::new(),
        group: PrefixCommandGroup::Utility,
        flags: CommandFlags { bits: flags },
        handler: CommandHandler::Ping,
    }
}

fn registry() -> PrefixCommands {
    let mut cmds = PrefixCommands::new();
    cmds.register(descriptor(&["ping"], 0)).unwrap();
    cmds.register(descriptor(&["prefix"], 0x1 | 0x2 | 0x4)).unwrap();
    cmds.register(descriptor(&["help", "h"], 0)).unwrap();
    cmds
}

fn prefixes() -> Vec<String> {
    vec![String::from("<"), String::from("!")]
}

#[test]
fn bots_and_webhooks_are_ignored() {
    let cmds = registry();
    let mut stream = Stream::new("!ping");
    let action = decide_message(&mut stream, true, false, true, false, true, &prefixes(), &cmds);
    assert!(matches!(action, MessageAction::Ignore));
}

#[test]
fn guild_event_without_prefix_is_dropped() {
    let cmds = registry();
    let mut stream = Stream::new("ping");
    let action = decide_message(&mut stream, false, false, true, false, true, &prefixes(), &cmds);
    assert!(matches!(action, MessageAction::Ignore));
}

#[test]
fn direct_message_accepts_bare_command() {
    let cmds = registry();
    let mut stream = Stream::new("ping");
    let action = decide_message(&mut stream, false, false, false, false, true, &prefixes(), &cmds);
    match action {
        MessageAction::Run { cmd, num, defer } => {
            assert_eq!(cmd.names[0], "ping");
            assert_eq!(num, None);
            assert!(defer);
        }
        _ => panic!("expected the ping command to run"),
    }
}

#[test]
fn guild_only_command_in_dm_replies() {
    let cmds = registry();
    let mut stream = Stream::new("prefix add $");
    let action = decide_message(&mut stream, false, false, false, false, true, &prefixes(), &cmds);
    match action {
        MessageAction::ReplyError { cmd, error } => {
            assert_eq!(cmd.names[0], "prefix");
            assert_eq!(error, PolicyError::GuildOnly);
        }
        _ => panic!("expected a guild-only refusal"),
    }
}

#[test]
fn missing_post_permission_is_silent() {
    let cmds = registry();
    let mut stream = Stream::new("!ping");
    let action = decide_message(&mut stream, false, false, true, false, false, &prefixes(), &cmds);
    assert!(matches!(action, MessageAction::Ignore));
}

#[test]
fn policy_order_and_messages() {
    let flags = CommandFlags { bits: 0x1 | 0x2 };
    assert_eq!(
        check_policy(flags, false, false, true),
        PolicyCheck::Reject(PolicyError::GuildOnly)
    );
    assert_eq!(
        check_policy(flags, true, false, true),
        PolicyCheck::Reject(PolicyError::OwnerOnly)
    );
    assert_eq!(check_policy(flags, true, true, false), PolicyCheck::Silent);
    assert_eq!(check_policy(flags, true, true, true), PolicyCheck::Proceed);
    assert_eq!(
        PolicyError::GuildOnly.message(),
        "That command is only available in servers"
    );
    assert_eq!(
        PolicyError::OwnerOnly.message(),
        "That command can only be used by the bot owner"
    );
}

#[test]
fn skip_defer_flag_disables_acknowledgement() {
    let flags = CommandFlags { bits: 0x4 };
    assert!(!flags.defer());
    assert!(CommandFlags { bits: 0 }.defer());
}

#[test]
fn config_cache_read_and_write_paths() {
    let mut cache = GuildConfigs::new();
    // First reader pays the write cost: the default is synthesized.
    let (prefixes, must_persist) = cache.guild_prefixes(1);
    assert!(must_persist);
    assert_eq!(prefixes, vec![String::from("<")]);
    cache.insert(1, GuildConfig { prefixes });
    let (prefixes, must_persist) = cache.guild_prefixes(1);
    assert!(!must_persist);
    assert_eq!(prefixes, vec![String::from("<")]);
    assert_eq!(cache.guild_first_prefix(Some(1)), "<");
    assert_eq!(cache.guild_first_prefix(None), "<");
}

#[test]
fn prefix_add_sorts_dedups_and_truncates() {
    let config = GuildConfig { prefixes: vec![String::from("<")] };
    let args = vec![
        String::from("$"),
        String::from("!"),
        String::from("$"),
        String::from("~"),
        String::from("?"),
    ];
    let updated = apply_prefix_update(&config, PrefixAction::Add, &args);
    // The default sorts first, the rest follow in order, duplicates gone,
    // at most five kept.
    assert_eq!(
        updated.prefixes,
        vec![
            String::from("<"),
            String::from("!"),
            String::from("$"),
            String::from("?"),
            String::from("~"),
        ]
    );
}

#[test]
fn prefix_remove_keeps_last_prefix() {
    let config = GuildConfig {
        prefixes: vec![String::from("<"), String::from("!")],
    };
    let args = vec![String::from("!")];
    let updated = apply_prefix_update(&config, PrefixAction::Remove, &args);
    assert_eq!(updated.prefixes, vec![String::from("<")]);
    // Removing everything keeps the removed prefix as the only one.
    let args = vec![String::from("<"), String::from("!")];
    let updated = apply_prefix_update(&config, PrefixAction::Remove, &args);
    assert_eq!(updated.prefixes, vec![String::from("!")]);
}

#[test]
fn current_prefixes_listing() {
    let prefixes = vec![String::from("<"), String::from("!")];
    assert_eq!(
        current_prefixes(&prefixes),
        "Prefixes for this server: `<`, `!`"
    );
    assert_eq!(current_prefixes(&Vec::new()), "Prefixes for this server: ");
}

#[test]
fn help_suggestions_are_close_names() {
    let cmds = registry();
    let suggestions = help_suggestions("pong", &cmds);
    assert!(suggestions.contains(&String::from("ping")));
    // Listed by strictly ascending edit distance.
    let dists: Vec<usize> = suggestions
        .iter()
        .map(|s| botcore::levenshtein_distance("pong", s).0)
        .collect();
    for w in dists.windows(2) {
        assert!(w[0] < w[1]);
    }
    let none = help_suggestions("somethingveryfaraway", &cmds);
    assert!(none.is_empty());
}

fn session() -> PaginationSession {
    PaginationSession::new(1, 42, Pages { per_page: 10, total_pages: 6 }, None, false, 10, 5, 60_000, 0)
}

#[test]
fn cursor_stays_in_range_under_any_transitions() {
    let mut s = session();
    let changes = [
        PageChange::StepBack,
        PageChange::JumpEnd,
        PageChange::StepForward,
        PageChange::MultiStepForward,
        PageChange::JumpStart,
        PageChange::MultiStepBack,
        PageChange::StepForward,
        PageChange::JumpMarker,
    ];
    for (i, change) in changes.iter().enumerate() {
        s.on_event(SessionEvent::Reaction { user: 42, change: *change, now: i as u64 });
        assert!(s.cursor < s.pages.total_pages);
    }
}

#[test]
fn jump_marker_without_marker_is_a_no_op() {
    let mut s = session();
    s.on_event(SessionEvent::Reaction { user: 42, change: PageChange::StepForward, now: 1 });
    assert_eq!(s.cursor, 1);
    let action =
        s.on_event(SessionEvent::Reaction { user: 42, change: PageChange::JumpMarker, now: 2 });
    assert_eq!(action, SessionAction::Ignore);
    assert_eq!(s.cursor, 1);
}

#[test]
fn foreign_reactions_are_observed_and_ignored() {
    let mut s = session();
    let action =
        s.on_event(SessionEvent::Reaction { user: 7, change: PageChange::JumpEnd, now: 1 });
    assert_eq!(action, SessionAction::Ignore);
    assert_eq!(s.cursor, 0);
}

#[test]
fn idle_timeout_closes_for_good() {
    let mut s = session();
    // A check before the window does nothing.
    assert_eq!(s.on_event(SessionEvent::Idle { now: 59_999 }), SessionAction::Ignore);
    assert!(!s.closed);
    assert_eq!(s.on_event(SessionEvent::Idle { now: 60_000 }), SessionAction::RemoveControls);
    assert!(s.closed);
    // Closed is terminal.
    let action =
        s.on_event(SessionEvent::Reaction { user: 42, change: PageChange::JumpEnd, now: 60_001 });
    assert_eq!(action, SessionAction::Ignore);
    assert_eq!(s.cursor, 0);
}

#[test]
fn multi_step_only_offered_beyond_threshold() {
    let mut small = PaginationSession::new(
        1, 42, Pages { per_page: 10, total_pages: 6 }, None, false, 10, 5, 60_000, 0,
    );
    small.on_event(SessionEvent::Reaction {
        user: 42,
        change: PageChange::MultiStepForward,
        now: 1,
    });
    assert_eq!(small.cursor, 0);
    let mut large = PaginationSession::new(
        1, 42, Pages { per_page: 10, total_pages: 30 }, None, false, 10, 5, 60_000, 0,
    );
    large.on_event(SessionEvent::Reaction {
        user: 42,
        change: PageChange::MultiStepForward,
        now: 1,
    });
    assert_eq!(large.cursor, 5);
}

#[test]
fn interaction_dispatch_is_exact_and_policy_checked() {
    let mut cmds = SlashCommands::new();
    cmds.register(SlashCommand {
        name: String::from("nlb"),
        desc: String::from("desc"),
        flags: CommandFlags { bits: 0x1 },
        handler: CommandHandler::Nlb,
    })
    .unwrap();
    match decide_interaction("nlb", true, false, &cmds) {
        InteractionAction::Run { cmd, defer } => {
            assert_eq!(cmd.name, "nlb");
            assert!(defer);
        }
        _ => panic!("expected the command to run"),
    }
    match decide_interaction("nlb", false, false, &cmds) {
        InteractionAction::ReplyError { error, .. } => assert_eq!(error, PolicyError::GuildOnly),
        _ => panic!("expected a guild-only refusal"),
    }
    assert!(matches!(decide_interaction("NLB", true, false, &cmds), InteractionAction::Ignore));
}

#[test]
fn error_kinds_and_timestamps() {
    assert_eq!(ErrorKind::Leaderboard.text(), "leaderboard");
    assert_eq!(HowLongAgoDynamic::new(1_600_000_000).text(), "<t:1600000000:R>");
    assert_eq!(HowLongAgoDynamic::new(-5).text(), "<t:-5:R>");
}
