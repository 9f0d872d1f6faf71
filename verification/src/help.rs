//! Help for prefix commands: the current-prefix listing and the
//! suggestions offered when a help request names an unknown command.

use vstd::prelude::*;

use crate::lev::{lev, levenshtein_distance};
use crate::registry::PrefixCommands;

verus! {

/// The tail of the prefix listing: every prefix in backticks, separated by
/// commas, the first one without a leading separator.
pub open spec fn spec_prefix_list(prefixes: Seq<String>, i: int) -> Seq<char>
    decreases prefixes.len() - i,
{
    if i < 0 || i >= prefixes.len() {
        Seq::empty()
    } else if i == 0 {
        "`"@ + prefixes[0]@ + "`"@ + spec_prefix_list(prefixes, 1)
    } else {
        ", `"@ + prefixes[i]@ + "`"@ + spec_prefix_list(prefixes, i + 1)
    }
}

/// The body of the prefix command's no-argument reply.
pub fn current_prefixes(prefixes: &Vec<String>) -> (r: String)
    ensures
        r@ == "Prefixes for this server: "@ + spec_prefix_list(prefixes@, 0),
{
    let mut out = String::from_str("Prefixes for this server: ");
    let mut i: usize = 0;
    while i < prefixes.len()
        invariant
            i <= prefixes@.len(),
            out@ + spec_prefix_list(prefixes@, i as int) == "Prefixes for this server: "@
                + spec_prefix_list(prefixes@, 0),
            i == 0 ==> out@ == "Prefixes for this server: "@,
        decreases prefixes@.len() - i,
    {
        let ghost pre = out@;
        if i == 0 {
            out.append("`");
        } else {
            out.append(", `");
        }
        out.append(prefixes[i].as_str());
        out.append("`");
        proof {
            assert(out@ + spec_prefix_list(prefixes@, i + 1) =~= pre + spec_prefix_list(
                prefixes@,
                i as int,
            ));
        }
        i += 1;
    }
    proof {
        assert(out@ =~= out@ + spec_prefix_list(prefixes@, prefixes@.len() as int));
    }
    out
}

/// `s` is a name or alias of a registered command.
pub open spec fn is_registered_name(cmds: PrefixCommands, s: Seq<char>) -> bool {
    exists|ci: int, k: int|
        0 <= ci < cmds.commands_seq().len() && 0 <= k < cmds.commands_seq()[ci].names@.len() && (
        #[trigger] cmds.commands_seq()[ci].names@[k])@ == s
}

/// Some registered name of at most 32 characters sits at edit distance `d`
/// from the request.
pub open spec fn has_name_at(cmds: PrefixCommands, name: Seq<char>, d: int) -> bool {
    exists|ci: int, k: int|
        0 <= ci < cmds.commands_seq().len() && 0 <= k < cmds.commands_seq()[ci].names@.len() && (
        #[trigger] cmds.commands_seq()[ci].names@[k])@.len() <= 32 && lev(
            name,
            cmds.commands_seq()[ci].names@[k]@,
        ) == d
}

/// Command names similar to a mistyped one: for each edit distance below
/// four, the last registered name (of at most 32 characters) at that
/// distance, listed by strictly ascending distance; a distance some name
/// reaches is never skipped.
pub fn help_suggestions(name: &str, cmds: &PrefixCommands) -> (r: Vec<String>)
    requires
        cmds.wf(),
        name@.len() < usize::MAX - 64,
    ensures
        forall|i: int|
            0 <= i < r@.len() ==> is_registered_name(*cmds, (#[trigger] r@[i])@) && lev(
                name@,
                r@[i]@,
            ) < 4,
        forall|i: int, j: int|
            0 <= i < j < r@.len() ==> lev(name@, (#[trigger] r@[i])@) < lev(
                name@,
                (#[trigger] r@[j])@,
            ),
        forall|d: int|
            0 <= d < 4 && #[trigger] has_name_at(*cmds, name@, d) ==> exists|i: int|
                0 <= i < r@.len() && lev(name@, (#[trigger] r@[i])@) == d,
        r@.len() <= 4,
{
    let mut slots: Vec<Option<String>> = Vec::new();
    slots.push(None);
    slots.push(None);
    slots.push(None);
    slots.push(None);
    let commands = cmds.commands();
    let mut c: usize = 0;
    while c < commands.len()
        invariant
            cmds.wf(),
            name@.len() < usize::MAX - 64,
            commands@ == cmds.commands_seq(),
            c <= commands@.len(),
            slots@.len() == 4,
            forall|d: int|
                0 <= d < 4 ==> ((#[trigger] slots@[d]) matches Some(s) ==> is_registered_name(
                    *cmds,
                    s@,
                ) && lev(name@, s@) == d),
            forall|d: int, ci: int, k: int|
                #![trigger slots@[d], cmds.commands_seq()[ci].names@[k]]
                0 <= d < 4 && slots@[d] is None && 0 <= ci < c && 0 <= k
                    < cmds.commands_seq()[ci].names@.len() && cmds.commands_seq()[ci].names@[k]@.len()
                    <= 32 ==> lev(name@, cmds.commands_seq()[ci].names@[k]@) != d,
        decreases commands@.len() - c,
    {
        let cmd = &commands[c];
        let mut k: usize = 0;
        while k < cmd.names.len()
            invariant
                cmds.wf(),
                name@.len() < usize::MAX - 64,
                commands@ == cmds.commands_seq(),
                c < commands@.len(),
                *cmd == cmds.commands_seq()[c as int],
                k <= cmd.names@.len(),
                slots@.len() == 4,
                forall|d: int|
                    0 <= d < 4 ==> ((#[trigger] slots@[d]) matches Some(s) ==> is_registered_name(
                        *cmds,
                        s@,
                    ) && lev(name@, s@) == d),
                forall|d: int, ci: int, k2: int|
                    #![trigger slots@[d], cmds.commands_seq()[ci].names@[k2]]
                    0 <= d < 4 && slots@[d] is None && 0 <= ci < c && 0 <= k2
                        < cmds.commands_seq()[ci].names@.len() && cmds.commands_seq()[ci].names@[k2]@.len() <= 32 ==> lev(name@, cmds.commands_seq()[ci].names@[k2]@) != d,
                forall|d: int, k2: int|
                    #![trigger slots@[d], cmd.names@[k2]]
                    0 <= d < 4 && slots@[d] is None && 0 <= k2 < k && cmd.names@[k2]@.len() <= 32
                        ==> lev(name@, cmd.names@[k2]@) != d,
            decreases cmd.names@.len() - k,
        {
            let alias = &cmd.names[k];
            if alias.as_str().unicode_len() <= 32 {
                let (dist, _) = levenshtein_distance(name, alias.as_str());
                if dist < 4 {
                    slots[dist] = Some(alias.clone());
                    proof {
                        assert(cmds.commands_seq()[c as int].names@[k as int]@ == alias@);
                        assert(is_registered_name(*cmds, alias@));
                    }
                }
            }
            k += 1;
        }
        c += 1;
    }
    proof {
        assert forall|d: int|
            0 <= d < 4 && slots@[d] is None implies !has_name_at(*cmds, name@, d) by {
            if has_name_at(*cmds, name@, d) {
                let (ci, k) = choose|ci: int, k: int|
                    0 <= ci < cmds.commands_seq().len() && 0 <= k
                        < cmds.commands_seq()[ci].names@.len() && (
                    #[trigger] cmds.commands_seq()[ci].names@[k])@.len() <= 32 && lev(
                        name@,
                        cmds.commands_seq()[ci].names@[k]@,
                    ) == d;
                assert(lev(name@, cmds.commands_seq()[ci].names@[k]@) != d);
            }
        }
    }
    let mut out: Vec<String> = Vec::new();
    let mut d: usize = 0;
    while d < 4
        invariant
            d <= 4,
            slots@.len() == 4,
            out@.len() <= d,
            forall|dd: int|
                0 <= dd < 4 ==> ((#[trigger] slots@[dd]) matches Some(s) ==> is_registered_name(
                    *cmds,
                    s@,
                ) && lev(name@, s@) == dd),
            forall|dd: int| 0 <= dd < 4 && #[trigger] slots@[dd] is None ==> !has_name_at(
                *cmds,
                name@,
                dd,
            ),
            forall|i: int|
                0 <= i < out@.len() ==> is_registered_name(*cmds, (#[trigger] out@[i])@) && lev(
                    name@,
                    out@[i]@,
                ) < 4,
            forall|i: int| 0 <= i < out@.len() ==> lev(name@, (#[trigger] out@[i])@) < d,
            forall|i: int, j: int|
                0 <= i < j < out@.len() ==> lev(name@, (#[trigger] out@[i])@) < lev(
                    name@,
                    (#[trigger] out@[j])@,
                ),
            forall|dd: int|
                0 <= dd < d && #[trigger] has_name_at(*cmds, name@, dd) ==> exists|i: int|
                    0 <= i < out@.len() && lev(name@, (#[trigger] out@[i])@) == dd,
        decreases 4 - d,
    {
        let ghost pre_out = out@;
        let slot = &slots[d];
        if let Some(s) = slot {
            out.push(s.clone());
            proof {
                let ss = slots@[d as int]->Some_0;
                assert(out@[out@.len() - 1] == ss);
                assert(lev(name@, out@[out@.len() - 1]@) == d);
            }
        }
        proof {
            assert forall|dd: int|
                0 <= dd < d + 1 && #[trigger] has_name_at(*cmds, name@, dd) implies exists|i: int|
                0 <= i < out@.len() && lev(name@, (#[trigger] out@[i])@) == dd by {
                if dd < d {
                    let i0 = choose|i0: int|
                        0 <= i0 < pre_out.len() && lev(name@, (#[trigger] pre_out[i0])@) == dd;
                    assert(out@[i0] == pre_out[i0]);
                    assert(lev(name@, out@[i0]@) == dd);
                } else {
                    assert(slots@[d as int] is Some);
                    assert(lev(name@, out@[out@.len() - 1]@) == dd);
                }
            }
        }
        d += 1;
    }
    out
}

} // verus!
