//! Dispatcher decisions: one terminal pass per inbound event.
//!
//! The runtime around the library reads the event, queries its caches, and
//! hands plain values in; the functions here decide — ignore the event,
//! reply with a fixed explanation, or run a handler (optionally after an
//! immediate acknowledgement) — and the runtime performs the I/O.

use vstd::prelude::*;

use crate::parse::{parse_invoke, peeled_base, peeled_digits, digit_suffix_len, Invoke};
use crate::registry::{CommandFlags, PrefixCommand, PrefixCommands, SlashCommand, SlashCommands};
use crate::stream::{drop_leading_ws, token_len, Stream};
use crate::text::{dec_value, lower_seq};

verus! {

/// Why a command was refused by policy.
#[derive(Clone, Copy, PartialEq, Eq, Structural, Debug)]
pub enum PolicyError {
    GuildOnly,
    OwnerOnly,
}

impl PolicyError {
    /// The fixed explanation sent back to the invoking user.
    pub fn message(self) -> (r: &'static str)
        ensures
            self is GuildOnly ==> r@ == "That command is only available in servers"@,
            self is OwnerOnly ==> r@ == "That command can only be used by the bot owner"@,
    {
        match self {
            PolicyError::GuildOnly => "That command is only available in servers",
            PolicyError::OwnerOnly => "That command can only be used by the bot owner",
        }
    }
}

/// Outcome of the policy checks of one command invocation.
#[derive(Clone, Copy, PartialEq, Eq, Structural, Debug)]
pub enum PolicyCheck {
    /// Run the handler.
    Proceed,
    /// Refuse, replying with a fixed explanation.
    Reject(PolicyError),
    /// Refuse silently: the bot cannot post in the target channel.
    Silent,
}

/// The policy decision, in short-circuit order: origin flags first, then
/// the bot's own permission to post (checked only inside a guild; callers
/// for whom that check does not apply pass `can_post = true`).
pub open spec fn spec_policy(
    flags: CommandFlags,
    in_guild: bool,
    is_owner: bool,
    can_post: bool,
) -> PolicyCheck {
    if flags.spec_guild_only() && !in_guild {
        PolicyCheck::Reject(PolicyError::GuildOnly)
    } else if flags.spec_owner_only() && !is_owner {
        PolicyCheck::Reject(PolicyError::OwnerOnly)
    } else if in_guild && !can_post {
        PolicyCheck::Silent
    } else {
        PolicyCheck::Proceed
    }
}

pub fn check_policy(flags: CommandFlags, in_guild: bool, is_owner: bool, can_post: bool) -> (r:
    PolicyCheck)
    ensures
        r == spec_policy(flags, in_guild, is_owner, can_post),
{
    if flags.guild_only() && !in_guild {
        PolicyCheck::Reject(PolicyError::GuildOnly)
    } else if flags.owner_only() && !is_owner {
        PolicyCheck::Reject(PolicyError::OwnerOnly)
    } else if in_guild && !can_post {
        PolicyCheck::Silent
    } else {
        PolicyCheck::Proceed
    }
}

/// The first prefix of the list that the text starts with.
pub open spec fn spec_first_prefix(prefixes: Seq<Seq<char>>, s: Seq<char>) -> Option<int>
    decreases prefixes.len(),
{
    if prefixes.len() == 0 {
        None
    } else if prefixes[0].len() <= s.len() && prefixes[0] == s.take(prefixes[0].len() as int) {
        Some(0)
    } else {
        match spec_first_prefix(prefixes.drop_first(), s) {
            Some(i) => Some(i + 1),
            None => None,
        }
    }
}

/// Find the first accepted prefix the remaining text starts with.
pub fn find_prefix<'p>(stream: &Stream<'_>, prefixes: &'p Vec<String>) -> (r: Option<&'p String>)
    requires
        stream.wf(),
    ensures
        match r {
            Some(p) => {
                &&& spec_first_prefix(prefixes.deep_view(), stream.rest()) is Some
                &&& p@ == prefixes@[spec_first_prefix(
                    prefixes.deep_view(),
                    stream.rest(),
                )->Some_0]@
            },
            None => spec_first_prefix(prefixes.deep_view(), stream.rest()) is None,
        },
{
    let mut i: usize = 0;
    while i < prefixes.len()
        invariant
            stream.wf(),
            i <= prefixes@.len(),
            forall|k: int|
                0 <= k < i ==> !(prefixes.deep_view()[k].len() <= stream.rest().len()
                    && prefixes.deep_view()[k] == stream.rest().take(
                    (#[trigger] prefixes.deep_view()[k]).len() as int,
                )),
        decreases prefixes@.len() - i,
    {
        if stream.starts_with(prefixes[i].as_str()) {
            proof {
                lemma_first_prefix_found(prefixes.deep_view(), stream.rest(), i as int);
            }
            return Some(&prefixes[i]);
        }
        i += 1;
    }
    proof {
        lemma_first_prefix_none(prefixes.deep_view(), stream.rest(), prefixes.deep_view().len() as int);
    }
    None
}

/// If nothing before `i` matches and `i` does, then `i` is the first match.
proof fn lemma_first_prefix_found(prefixes: Seq<Seq<char>>, s: Seq<char>, i: int)
    requires
        0 <= i < prefixes.len(),
        forall|k: int|
            0 <= k < i ==> !((#[trigger] prefixes[k]).len() <= s.len() && prefixes[k] == s.take(
                prefixes[k].len() as int,
            )),
        prefixes[i].len() <= s.len() && prefixes[i] == s.take(prefixes[i].len() as int),
    ensures
        spec_first_prefix(prefixes, s) == Some(i),
    decreases i,
{
    if i > 0 {
        assert forall|k: int|
            0 <= k < i - 1 implies !((#[trigger] prefixes.drop_first()[k]).len() <= s.len()
            && prefixes.drop_first()[k] == s.take(prefixes.drop_first()[k].len() as int)) by {
            assert(prefixes.drop_first()[k] == prefixes[k + 1]);
        }
        assert(prefixes.drop_first()[i - 1] == prefixes[i]);
        lemma_first_prefix_found(prefixes.drop_first(), s, i - 1);
        assert(!(prefixes[0].len() <= s.len() && prefixes[0] == s.take(prefixes[0].len() as int)));
    }
}

/// A found prefix really is a prefix of the text.
proof fn lemma_first_prefix_matches(prefixes: Seq<Seq<char>>, s: Seq<char>)
    ensures
        spec_first_prefix(prefixes, s) is Some ==> {
            let j = spec_first_prefix(prefixes, s)->Some_0;
            &&& 0 <= j < prefixes.len()
            &&& prefixes[j].len() <= s.len()
            &&& prefixes[j] == s.take(prefixes[j].len() as int)
        },
    decreases prefixes.len(),
{
    if prefixes.len() > 0 {
        lemma_first_prefix_matches(prefixes.drop_first(), s);
    }
}

/// If nothing matches, the search finds nothing.
proof fn lemma_first_prefix_none(prefixes: Seq<Seq<char>>, s: Seq<char>, n: int)
    requires
        n == prefixes.len(),
        forall|k: int|
            0 <= k < n ==> !((#[trigger] prefixes[k]).len() <= s.len() && prefixes[k] == s.take(
                prefixes[k].len() as int,
            )),
    ensures
        spec_first_prefix(prefixes, s) is None,
    decreases n,
{
    if n > 0 {
        assert forall|k: int|
            0 <= k < n - 1 implies !((#[trigger] prefixes.drop_first()[k]).len() <= s.len()
            && prefixes.drop_first()[k] == s.take(prefixes.drop_first()[k].len() as int)) by {
            assert(prefixes.drop_first()[k] == prefixes[k + 1]);
        }
        lemma_first_prefix_none(prefixes.drop_first(), s, n - 1);
    }
}

/// What the dispatcher does with one text-message event.
pub enum MessageAction<'r> {
    /// Drop the event; nothing is visible to anyone.
    Ignore,
    /// Reply to the user with the policy explanation and stop.
    ReplyError { cmd: &'r PrefixCommand, error: PolicyError },
    /// Run the command's handler; `defer` asks for a typing indicator
    /// before the handler runs.
    Run { cmd: &'r PrefixCommand, num: Option<u64>, defer: bool },
}

/// Decide one text-message event, one terminal pass.
///
/// Bots and webhooks are ignored. The accepted prefixes are matched after
/// leading whitespace; inside a guild an event without a matching prefix
/// is dropped, in direct messages a bare command is accepted. The token is
/// then resolved as `parse_invoke` says, the policy flags are checked, and
/// the stream is left at the start of the argument text.
pub fn decide_message<'r, 's>(
    stream: &mut Stream<'s>,
    author_is_bot: bool,
    is_webhook: bool,
    in_guild: bool,
    is_owner: bool,
    can_post: bool,
    prefixes: &Vec<String>,
    cmds: &'r PrefixCommands,
) -> (r: MessageAction<'r>)
    requires
        old(stream).wf(),
        cmds.wf(),
    ensures
        final(stream).wf(),
        final(stream).full() == old(stream).full(),
        author_is_bot || is_webhook ==> r is Ignore && *final(stream) == *old(stream),
        ({
            let ws = drop_leading_ws(old(stream).rest());
            let found = spec_first_prefix(prefixes.deep_view(), ws);
            let body = if found is Some {
                ws.skip(prefixes.deep_view()[found->Some_0].len() as int)
            } else {
                ws
            };
            let t = lower_seq(body.take(token_len(body) as int));
            !author_is_bot && !is_webhook ==> {
                if found is None && in_guild {
                    final(stream).rest() == ws
                } else {
                    final(stream).rest() == drop_leading_ws(body.skip(token_len(body) as int))
                }
            }
        }),
        ({
            let ws = drop_leading_ws(old(stream).rest());
            let found = spec_first_prefix(prefixes.deep_view(), ws);
            let body = if found is Some {
                ws.skip(prefixes.deep_view()[found->Some_0].len() as int)
            } else {
                ws
            };
            let t = lower_seq(body.take(token_len(body) as int));
            !author_is_bot && !is_webhook ==> {
                if found is None && in_guild {
                    r is Ignore
                } else {
                    match r {
                        MessageAction::Ignore => !cmds.model().dom().contains(t) && (
                        digit_suffix_len(t) == 0 || !cmds.model().dom().contains(peeled_base(t))
                            || dec_value(peeled_digits(t)) > u64::MAX) || (
                        cmds.model().dom().contains(t) && spec_policy(
                            cmds.commands_seq()[cmds.model()[t] as int].flags,
                            in_guild,
                            is_owner,
                            can_post,
                        ) is Silent) || (!cmds.model().dom().contains(t) && digit_suffix_len(t) > 0
                            && cmds.model().dom().contains(peeled_base(t)) && dec_value(
                            peeled_digits(t),
                        ) <= u64::MAX && spec_policy(
                            cmds.commands_seq()[cmds.model()[peeled_base(t)] as int].flags,
                            in_guild,
                            is_owner,
                            can_post,
                        ) is Silent),
                        MessageAction::ReplyError { cmd, error } => spec_policy(
                            cmd.flags,
                            in_guild,
                            is_owner,
                            can_post,
                        ) == PolicyCheck::Reject(error) && (cmds.model().dom().contains(t) && *cmd
                            == cmds.commands_seq()[cmds.model()[t] as int] || !cmds.model().dom().contains(
                            t,
                        ) && cmds.model().dom().contains(peeled_base(t)) && *cmd
                            == cmds.commands_seq()[cmds.model()[peeled_base(t)] as int]),
                        MessageAction::Run { cmd, num, defer } => spec_policy(
                            cmd.flags,
                            in_guild,
                            is_owner,
                            can_post,
                        ) is Proceed && defer == cmd.flags.spec_defer() && (
                        cmds.model().dom().contains(t) && *cmd == cmds.commands_seq()[cmds.model()[t] as int] && num is None || !cmds.model().dom().contains(t)
                            && cmds.model().dom().contains(peeled_base(t)) && digit_suffix_len(t)
                            > 0 && *cmd == cmds.commands_seq()[cmds.model()[peeled_base(
                            t,
                        )] as int] && num == Some((dec_value(peeled_digits(t)) as u64))),
                    }
                }
            }
        }),
{
    if author_is_bot || is_webhook {
        return MessageAction::Ignore;
    }
    stream.skip_whitespace();
    let prefix_len: Option<usize> = match find_prefix(stream, prefixes) {
        Some(p) => Some(p.as_str().unicode_len()),
        None => None,
    };
    match prefix_len {
        Some(n) => {
            proof {
                lemma_first_prefix_matches(prefixes.deep_view(), stream.rest());
                let j = spec_first_prefix(prefixes.deep_view(), stream.rest())->Some_0;
                assert(prefixes.deep_view()[j] == prefixes@[j]@);
            }
            stream.advance(n);
        },
        None => {
            if in_guild {
                return MessageAction::Ignore;
            }
        },
    }
    let invoke = parse_invoke(stream, cmds);
    match invoke {
        Invoke::Command { cmd, num } => {
            match check_policy(cmd.flags, in_guild, is_owner, can_post) {
                PolicyCheck::Proceed => MessageAction::Run { cmd, num, defer: cmd.flags.defer() },
                PolicyCheck::Reject(error) => MessageAction::ReplyError { cmd, error },
                PolicyCheck::Silent => MessageAction::Ignore,
            }
        },
        Invoke::NoMatch => MessageAction::Ignore,
    }
}

/// What the dispatcher does with one structured-interaction event.
pub enum InteractionAction<'r> {
    /// Unknown command name; nothing is visible to anyone.
    Ignore,
    /// Reply to the user with the policy explanation and stop.
    ReplyError { cmd: &'r SlashCommand, error: PolicyError },
    /// Run the command's handler; `defer` asks for a deferred
    /// acknowledgement before the handler runs, since handler latency may
    /// exceed the platform's deadline.
    Run { cmd: &'r SlashCommand, defer: bool },
}

/// Decide one structured-interaction event: exact, case-sensitive name
/// match, then the policy flags. The platform already delivers the bot's
/// own interactions only, so no bot check applies, and no send-permission
/// check either — the reply channel is the interaction itself.
pub fn decide_interaction<'r>(
    name: &str,
    in_guild: bool,
    is_owner: bool,
    cmds: &'r SlashCommands,
) -> (r: InteractionAction<'r>)
    requires
        cmds.wf(),
    ensures
        match r {
            InteractionAction::Ignore => !cmds.model().dom().contains(name@),
            InteractionAction::ReplyError { cmd, error } => cmds.model().dom().contains(name@)
                && *cmd == cmds.commands_seq()[cmds.model()[name@] as int] && spec_policy(
                cmd.flags,
                in_guild,
                is_owner,
                true,
            ) == PolicyCheck::Reject(error),
            InteractionAction::Run { cmd, defer } => cmds.model().dom().contains(name@) && *cmd
                == cmds.commands_seq()[cmds.model()[name@] as int] && spec_policy(
                cmd.flags,
                in_guild,
                is_owner,
                true,
            ) is Proceed && defer == cmd.flags.spec_defer(),
        },
{
    match cmds.command(name) {
        Some(cmd) => {
            match check_policy(cmd.flags, in_guild, is_owner, true) {
                PolicyCheck::Proceed => InteractionAction::Run { cmd, defer: cmd.flags.defer() },
                PolicyCheck::Reject(error) => InteractionAction::ReplyError { cmd, error },
                PolicyCheck::Silent => InteractionAction::Ignore,
            }
        },
        None => InteractionAction::Ignore,
    }
}

} // verus!
