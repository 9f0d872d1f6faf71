//! Resolving a message's command token against the prefix-command
//! registry: lowercase the leading token, look it up, and when that fails
//! peel trailing decimal digits off and retry, handing the digits back as
//! an auxiliary numeric argument.

use vstd::prelude::*;

use crate::registry::{PrefixCommand, PrefixCommands};
use crate::stream::{drop_leading_ws, token_len, Stream};
use crate::text::{dec_value, is_digit, is_digit_char, lower_seq, lowercased, parse_u64_range};

verus! {

/// How a message token resolved.
pub enum Invoke<'r> {
    Command { cmd: &'r PrefixCommand, num: Option<u64> },
    NoMatch,
}

/// The number of decimal digit characters at the end of `s`.
pub open spec fn digit_suffix_len(s: Seq<char>) -> nat
    decreases s.len(),
{
    if s.len() == 0 || !is_digit_char(s.last()) {
        0
    } else {
        1 + digit_suffix_len(s.drop_last())
    }
}

/// The token with its trailing digits stripped.
pub open spec fn peeled_base(t: Seq<char>) -> Seq<char> {
    t.take(t.len() - digit_suffix_len(t))
}

/// The trailing digits of the token.
pub open spec fn peeled_digits(t: Seq<char>) -> Seq<char> {
    t.skip(t.len() - digit_suffix_len(t))
}

/// A split point before which the last character is no digit, and after
/// which everything is a digit, marks exactly the digit suffix.
proof fn lemma_digit_suffix_boundary(s: Seq<char>, i: int)
    requires
        0 <= i <= s.len(),
        forall|k: int| i <= k < s.len() ==> is_digit_char(#[trigger] s[k]),
        i > 0 ==> !is_digit_char(s[i - 1]),
    ensures
        digit_suffix_len(s) == s.len() - i,
    decreases s.len(),
{
    if s.len() == 0 {
    } else if i == s.len() {
        assert(!is_digit_char(s.last()));
    } else {
        assert(is_digit_char(s.last()));
        assert forall|k: int| i <= k < s.drop_last().len() implies is_digit_char(
            #[trigger] s.drop_last()[k],
        ) by {
            assert(s.drop_last()[k] == s[k]);
        }
        if i > 0 {
            assert(s.drop_last()[i - 1] == s[i - 1]);
        }
        lemma_digit_suffix_boundary(s.drop_last(), i);
    }
}

/// Take the leading token off the stream and resolve it, consuming the
/// whitespace after it.
///
/// The token is ASCII-lowercased and looked up; on failure its trailing
/// digits are stripped and the shorter token is looked up, the digits
/// becoming the auxiliary numeric argument. No match at all — including a
/// digit suffix whose value does not fit — resolves to nothing: the event
/// is silently ignored.
pub fn parse_invoke<'r, 's>(stream: &mut Stream<'s>, cmds: &'r PrefixCommands) -> (r: Invoke<'r>)
    requires
        old(stream).wf(),
        cmds.wf(),
    ensures
        final(stream).wf(),
        final(stream).full() == old(stream).full(),
        final(stream).rest() == drop_leading_ws(
            old(stream).rest().skip(token_len(old(stream).rest()) as int),
        ),
        ({
            let t = lower_seq(old(stream).rest().take(token_len(old(stream).rest()) as int));
            match r {
                Invoke::Command { cmd, num } => {
                    if cmds.model().dom().contains(t) {
                        &&& *cmd == cmds.commands_seq()[cmds.model()[t] as int]
                        &&& num is None
                    } else {
                        &&& digit_suffix_len(t) > 0
                        &&& cmds.model().dom().contains(peeled_base(t))
                        &&& *cmd == cmds.commands_seq()[cmds.model()[peeled_base(t)] as int]
                        &&& dec_value(peeled_digits(t)) <= u64::MAX
                        &&& num == Some((dec_value(peeled_digits(t)) as u64))
                    }
                },
                Invoke::NoMatch => {
                    &&& !cmds.model().dom().contains(t)
                    &&& (digit_suffix_len(t) == 0 || !cmds.model().dom().contains(peeled_base(t))
                        || dec_value(peeled_digits(t)) > u64::MAX)
                },
            }
        }),
{
    let raw = stream.take_until_whitespace();
    let token = lowercased(raw.as_str());
    stream.skip_whitespace();
    let ghost t = token@;
    if let Some(cmd) = cmds.command(token.as_str()) {
        return Invoke::Command { cmd, num: None };
    }
    let tlen = token.as_str().unicode_len();
    let mut split: usize = tlen;
    while split > 0 && is_digit(token.as_str().get_char(split - 1))
        invariant
            split <= tlen,
            tlen == t.len(),
            t == token@,
            forall|k: int| split <= k < tlen ==> is_digit_char(#[trigger] t[k]),
        decreases split,
    {
        split -= 1;
    }
    proof {
        lemma_digit_suffix_boundary(t, split as int);
    }
    if split == tlen {
        return Invoke::NoMatch;
    }
    let base = token.as_str().substring_char(0, split);
    proof {
        assert(base@ =~= peeled_base(t));
    }
    match cmds.command(base) {
        Some(cmd) => {
            match parse_u64_range(token.as_str(), split, tlen) {
                Some(v) => {
                    proof {
                        assert(token@.subrange(split as int, tlen as int) =~= peeled_digits(t));
                    }
                    Invoke::Command { cmd, num: Some(v) }
                },
                None => {
                    proof {
                        assert(token@.subrange(split as int, tlen as int) =~= peeled_digits(t));
                    }
                    Invoke::NoMatch
                },
            }
        },
        None => Invoke::NoMatch,
    }
}

} // verus!
