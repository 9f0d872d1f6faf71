//! Immutable command registry: name/alias to descriptor maps for prefix
//! commands and structured (slash) commands.
//!
//! Registration happens only at startup; lookups afterwards are pure
//! reads. Registering two descriptors that share an alias is reported as a
//! fatal startup error naming the alias and both descriptors.

use vstd::prelude::*;

verus! {

/// Radix trie of an outside crate; it backs both registries. Declared so
/// the verifier can carry values of it opaquely.
#[verifier::external_type_specification]
#[verifier::external_body]
#[verifier::reject_recursive_types(K)]
#[verifier::reject_recursive_types(V)]
pub struct ExTrie<K, V>(radix_trie::Trie<K, V>);

/// A trie keyed by command names, holding command indexes.
pub type NameTrie = radix_trie::Trie<String, u64>;

/// The contents of a registry trie: which command index each name maps to.
pub uninterp spec fn trie_model(t: NameTrie) -> Map<Seq<char>, u64>;

/// The contents of a trie that holds no names.
pub open spec fn no_names() -> Map<Seq<char>, u64> {
    Map::empty()
}

/// Relies on radix_trie::Trie::new: the fresh trie is empty.
#[verifier::external_body]
fn trie_new() -> (fresh: NameTrie)
    ensures
        trie_model(fresh) == no_names(),
{
    radix_trie::Trie::new()
}

/// Relies on radix_trie::Trie::get: fetches the value the key was inserted
/// under, if any (String keys encode injectively as their UTF-8 bytes).
#[verifier::external_body]
fn trie_get(t: &NameTrie, key: &str) -> (r: Option<u64>)
    ensures
        match r {
            Some(v) => trie_model(*t).dom().contains(key@) && trie_model(*t)[key@] == v,
            None => !trie_model(*t).dom().contains(key@),
        },
{
    t.get(key).copied()
}

/// Relies on radix_trie::Trie::insert: maps the key to the value and
/// returns the value previously stored under it, if any.
#[verifier::external_body]
fn trie_insert(t: &mut NameTrie, key: String, value: u64) -> (prev: Option<u64>)
    ensures
        trie_model(*final(t)) == trie_model(*old(t)).insert(key@, value),
        match prev {
            Some(v) => trie_model(*old(t)).dom().contains(key@) && trie_model(*old(t))[key@] == v,
            None => !trie_model(*old(t)).dom().contains(key@),
        },
{
    t.insert(key, value)
}

/// `name` is one of the names in `names`.
pub open spec fn among_names(names: Seq<String>, name: Seq<char>) -> bool {
    exists|k: int| 0 <= k < names.len() && (#[trigger] names[k])@ == name
}

/// The fatal-startup diagnostic for an alias another command already owns.
pub open spec fn spec_alias_taken_msg(alias: Seq<char>, newer: Seq<char>, owner: Seq<char>) -> Seq<
    char,
> {
    "command alias `"@ + alias + "` of `"@ + newer + "` is already registered for `"@ + owner
        + "`"@
}

/// The fatal-startup diagnostic for an alias one command lists twice.
pub open spec fn spec_alias_twice_msg(newer: Seq<char>, alias: Seq<char>) -> Seq<char> {
    "command `"@ + newer + "` lists alias `"@ + alias + "` twice"@
}

/// Per-command policy flags.
#[derive(Clone, Copy, PartialEq, Eq, Structural, Debug)]
pub struct CommandFlags {
    pub bits: u8,
}

pub const FLAG_GUILD_ONLY: u8 = 0x1;
pub const FLAG_OWNER_ONLY: u8 = 0x2;
pub const FLAG_SKIP_DEFER: u8 = 0x4;

impl CommandFlags {
    pub open spec fn spec_guild_only(self) -> bool {
        self.bits & FLAG_GUILD_ONLY != 0
    }

    pub open spec fn spec_owner_only(self) -> bool {
        self.bits & FLAG_OWNER_ONLY != 0
    }

    /// The command wants an immediate acknowledgement before its handler
    /// runs, unless it opted out.
    pub open spec fn spec_defer(self) -> bool {
        self.bits & FLAG_SKIP_DEFER == 0
    }

    pub fn new(bits: u8) -> (r: Self)
        ensures
            r.bits == bits,
    {
        CommandFlags { bits }
    }

    pub fn guild_only(self) -> (r: bool)
        ensures
            r == self.spec_guild_only(),
    {
        self.bits & FLAG_GUILD_ONLY != 0
    }

    pub fn owner_only(self) -> (r: bool)
        ensures
            r == self.spec_owner_only(),
    {
        self.bits & FLAG_OWNER_ONLY != 0
    }

    pub fn defer(self) -> (r: bool)
        ensures
            r == self.spec_defer(),
    {
        self.bits & FLAG_SKIP_DEFER == 0
    }
}

#[derive(Clone, Copy, PartialEq, Eq, PartialOrd, Ord, Debug, Structural)]
pub enum PrefixCommandGroup {
    AllModes,
    Utility,
}

/// Which handler the dispatcher routes a resolved command to; the runtime
/// around the library maps each tag to the function that runs it.
#[derive(Clone, Copy, PartialEq, Eq, Structural, Debug)]
pub enum CommandHandler {
    Help,
    Ping,
    NationalLeaderboard,
    ConfigPrefix,
    Leaderboard,
    Nlb,
}

/// A registered prefix command. The first name is canonical; the rest are
/// aliases.
pub struct PrefixCommand {
    pub names: Vec<String>,
    pub desc: String,
    pub help: Option<String>,
    pub usage: Option<String>,
    pub examples: Vec<String>,
    pub group: PrefixCommandGroup,
    pub flags: CommandFlags,
    pub handler: CommandHandler,
}

/// Immutable registry of prefix commands, keyed by every name and alias.
pub struct PrefixCommands {
    trie: NameTrie,
    cmds: Vec<PrefixCommand>,
}

impl PrefixCommands {
    pub closed spec fn model(self) -> Map<Seq<char>, u64> {
        trie_model(self.trie)
    }

    pub closed spec fn commands_seq(self) -> Seq<PrefixCommand> {
        self.cmds@
    }

    /// Every name in the trie points at a registered descriptor, and every
    /// name of every registered descriptor points back at it.
    pub open spec fn wf(self) -> bool {
        &&& forall|name: Seq<char>| #[trigger]
            self.model().dom().contains(name) ==> self.model()[name] < self.commands_seq().len()
        &&& forall|i: int|
            0 <= i < self.commands_seq().len() ==> (#[trigger] self.commands_seq()[i]).names@.len()
                >= 1
        &&& forall|i: int, k: int|
            0 <= i < self.commands_seq().len() && 0 <= k < self.commands_seq()[i].names@.len()
                ==> #[trigger] self.model().dom().contains(
                self.commands_seq()[i].names@[k]@,
            ) && self.model()[self.commands_seq()[i].names@[k]@] == i
    }

    pub fn new() -> (r: Self)
        ensures
            r.wf(),
            r.model() == Map::<Seq<char>, u64>::empty(),
            r.commands_seq() == Seq::<PrefixCommand>::empty(),
    {
        let r = PrefixCommands { trie: trie_new(), cmds: Vec::new() };
        proof {
            assert(r.model().dom() =~= Set::empty());
        }
        r
    }

    /// Register one command under all of its names.
    ///
    /// Fails, leaving the registry unchanged, exactly when one of the
    /// names is already taken — by an earlier descriptor or by a duplicate
    /// within `cmd` itself; the diagnostic names the alias and both
    /// commands. This is the fatal start-up path.
    pub fn register(&mut self, cmd: PrefixCommand) -> (r: Result<(), String>)
        requires
            old(self).wf(),
            cmd.names@.len() >= 1,
        ensures
            final(self).wf(),
            match r {
                Ok(()) => {
                    &&& final(self).commands_seq() == old(self).commands_seq().push(cmd)
                    &&& forall|k: int|
                        0 <= k < cmd.names@.len() ==> !old(self).model().dom().contains(
                            #[trigger] cmd.names@[k]@,
                        )
                    &&& forall|k1: int, k2: int|
                        0 <= k1 < k2 < cmd.names@.len() ==> (#[trigger] cmd.names@[k1]@)
                            != (#[trigger] cmd.names@[k2]@)
                    &&& forall|name: Seq<char>| #[trigger]
                        old(self).model().dom().contains(name) ==> final(self).model().dom().contains(name) && final(self).model()[name] == old(self).model()[name]
                    &&& forall|k: int|
                        0 <= k < cmd.names@.len() ==> final(self).model().dom().contains(
                            (#[trigger] cmd.names@[k])@,
                        ) && final(self).model()[cmd.names@[k]@] == old(self).commands_seq().len()
                    &&& forall|name: Seq<char>| #[trigger]
                        final(self).model().dom().contains(name) ==> old(self).model().dom().contains(name) || among_names(cmd.names@, name)
                },
                Err(msg) => {
                    &&& *final(self) == *old(self)
                    &&& (exists|k: int|
                        0 <= k < cmd.names@.len() && old(self).model().dom().contains(
                            #[trigger] cmd.names@[k]@,
                        ) && msg@ == spec_alias_taken_msg(
                            cmd.names@[k]@,
                            cmd.names@[0]@,
                            old(self).commands_seq()[old(self).model()[cmd.names@[k]@] as int].names@[0]@,
                        )) || (exists|k1: int, k2: int|
                        0 <= k1 < k2 < cmd.names@.len() && (#[trigger] cmd.names@[k1]@)
                            == (#[trigger] cmd.names@[k2]@) && msg@ == spec_alias_twice_msg(
                            cmd.names@[0]@,
                            cmd.names@[k2]@,
                        ))
                },
            },
    {
        // First pass: refuse any name that is already taken, before
        // touching the trie.
        let mut k: usize = 0;
        while k < cmd.names.len()
            invariant
                old(self).wf(),
                *self == *old(self),
                cmd.names@.len() >= 1,
                k <= cmd.names@.len(),
                forall|k0: int|
                    0 <= k0 < k ==> !old(self).model().dom().contains(#[trigger] cmd.names@[k0]@),
                forall|k1: int, k2: int|
                    0 <= k1 < k2 < k ==> (#[trigger] cmd.names@[k1]@) != (#[trigger] cmd.names@[k2]@),
            decreases cmd.names@.len() - k,
        {
            let name = &cmd.names[k];
            if let Some(other) = trie_get(&self.trie, name.as_str()) {
                let n = self.cmds.len();
                proof {
                    assert(self.model().dom().contains(name@));
                    assert(self.model()[name@] < n);
                }
                let idx: usize = other as usize;
                let owner = self.cmds[idx].names[0].clone();
                let mut msg = String::from_str("command alias `");
                msg.append(name.as_str());
                msg.append("` of `");
                msg.append(cmd.names[0].as_str());
                msg.append("` is already registered for `");
                msg.append(owner.as_str());
                msg.append("`");
                proof {
                    assert(name@ == cmd.names@[k as int]@);
                    assert(idx as int == self.model()[cmd.names@[k as int]@] as int);
                    assert(owner@ == self.commands_seq()[idx as int].names@[0]@);
                    assert(msg@ == "command alias `"@ + name@ + "` of `"@ + cmd.names@[0]@
                        + "` is already registered for `"@ + owner@ + "`"@);
                    assert(msg@ =~= spec_alias_taken_msg(
                        cmd.names@[k as int]@,
                        cmd.names@[0]@,
                        self.commands_seq()[self.model()[cmd.names@[k as int]@] as int].names@[0]@,
                    ));
                }
                return Err(msg);
            }
            let mut k2: usize = 0;
            while k2 < k
                invariant
                    old(self).wf(),
                    *self == *old(self),
                    cmd.names@.len() >= 1,
                    k2 <= k < cmd.names@.len(),
                    forall|k1: int| 0 <= k1 < k2 ==> (#[trigger] cmd.names@[k1]@) != cmd.names@[k as int]@,
                decreases k - k2,
            {
                if cmd.names[k2] == cmd.names[k] {
                    let mut msg = String::from_str("command `");
                    msg.append(cmd.names[0].as_str());
                    msg.append("` lists alias `");
                    msg.append(cmd.names[k].as_str());
                    msg.append("` twice");
                    proof {
                        assert(cmd.names@[k2 as int]@ == cmd.names@[k as int]@);
                        assert(msg@ =~= spec_alias_twice_msg(
                            cmd.names@[0]@,
                            cmd.names@[k as int]@,
                        ));
                    }
                    return Err(msg);
                }
                k2 += 1;
            }
            k += 1;
        }
        // Second pass: insert every name.
        let idx = self.cmds.len() as u64;
        let ghost pre = *self;
        self.cmds.push(cmd);
        let cmd_ref = &self.cmds[self.cmds.len() - 1];
        let mut k: usize = 0;
        while k < cmd_ref.names.len()
            invariant
                k <= cmd_ref.names@.len(),
                idx as int == pre.commands_seq().len(),
                self.commands_seq() == pre.commands_seq().push(*cmd_ref),
                *cmd_ref == self.commands_seq()[idx as int],
                pre.wf(),
                forall|k0: int|
                    0 <= k0 < cmd_ref.names@.len() ==> !pre.model().dom().contains(
                        #[trigger] cmd_ref.names@[k0]@,
                    ),
                forall|k1: int, k2: int|
                    0 <= k1 < k2 < cmd_ref.names@.len() ==> (#[trigger] cmd_ref.names@[k1]@) != (
                    #[trigger] cmd_ref.names@[k2]@),
                forall|name: Seq<char>| #[trigger]
                    self.model().dom().contains(name) ==> pre.model().dom().contains(name) || (
                    exists|k0: int| 0 <= k0 < k && (#[trigger] cmd_ref.names@[k0]@) == name),
                forall|name: Seq<char>| #[trigger]
                    pre.model().dom().contains(name) ==> self.model().dom().contains(name)
                        && self.model()[name] == pre.model()[name],
                forall|k0: int|
                    0 <= k0 < k ==> #[trigger] self.model().dom().contains(cmd_ref.names@[k0]@)
                        && self.model()[cmd_ref.names@[k0]@] == idx,
            decreases cmd_ref.names@.len() - k,
        {
            let ghost prev_model = self.model();
            let name = cmd_ref.names[k].clone();
            trie_insert(&mut self.trie, name, idx);
            proof {
                assert(self.model() == prev_model.insert(cmd_ref.names@[k as int]@, idx));
                assert forall|nm: Seq<char>| #[trigger]
                    self.model().dom().contains(nm) implies pre.model().dom().contains(nm) || (
                exists|k0: int|
                    0 <= k0 < k + 1 && (#[trigger] cmd_ref.names@[k0]@) == nm) by {
                    if nm == cmd_ref.names@[k as int]@ {
                        assert(0 <= k < k + 1 && cmd_ref.names@[k as int]@ == nm);
                    } else {
                        assert(prev_model.dom().contains(nm));
                    }
                }
            }
            k += 1;
        }
        proof {
            assert forall|i: int, kk: int|
                0 <= i < self.commands_seq().len() && 0 <= kk
                    < self.commands_seq()[i].names@.len() implies #[trigger] self.model().dom().contains(
                self.commands_seq()[i].names@[kk]@,
            ) && self.model()[self.commands_seq()[i].names@[kk]@] == i by {
                if i < idx as int {
                    assert(self.commands_seq()[i] == pre.commands_seq()[i]);
                    assert(pre.model().dom().contains(pre.commands_seq()[i].names@[kk]@));
                } else {
                    assert(i == idx as int);
                    assert(self.commands_seq()[i] == *cmd_ref);
                    assert(kk < cmd_ref.names@.len());
                    assert(self.model().dom().contains(cmd_ref.names@[kk]@));
                    assert(self.model()[cmd_ref.names@[kk]@] == idx);
                }
            }
            assert forall|nm: Seq<char>| #[trigger]
                self.model().dom().contains(nm) implies self.model()[nm]
                < self.commands_seq().len() by {
                if pre.model().dom().contains(nm) {
                    assert(self.model()[nm] == pre.model()[nm]);
                } else {
                    let k0 = choose|k0: int|
                        0 <= k0 < cmd_ref.names@.len() && (#[trigger] cmd_ref.names@[k0]@) == nm;
                    assert(self.model().dom().contains(cmd_ref.names@[k0]@) && self.model()[
                        cmd_ref.names@[k0]@
                    ] == idx);
                }
            }
            assert forall|i: int|
                0 <= i < self.commands_seq().len() implies (
            #[trigger] self.commands_seq()[i]).names@.len() >= 1 by {
                if i < idx as int {
                    assert(self.commands_seq()[i] == pre.commands_seq()[i]);
                } else {
                    assert(self.commands_seq()[i] == *cmd_ref);
                }
            }
            assert forall|i: int, kk: int|
                0 <= i < self.commands_seq().len() && 0 <= kk
                    < self.commands_seq()[i].names@.len() implies #[trigger] self.model().dom().contains(
                self.commands_seq()[i].names@[kk]@,
            ) by {}
            assert forall|i: int, kk: int|
                0 <= i < self.commands_seq().len() && 0 <= kk
                    < self.commands_seq()[i].names@.len() implies self.model()[(
            #[trigger] self.commands_seq()[i].names@[kk])@] == i by {
                assert(self.model().dom().contains(self.commands_seq()[i].names@[kk]@));
            }
            assert(self.wf());
        }
        Ok(())
    }

    /// Look a token up; pure read.
    pub fn command(&self, name: &str) -> (r: Option<&PrefixCommand>)
        requires
            self.wf(),
        ensures
            match r {
                Some(c) => self.model().dom().contains(name@) && *c == self.commands_seq()[self.model()[name@] as int],
                None => !self.model().dom().contains(name@),
            },
    {
        match trie_get(&self.trie, name) {
            Some(idx) => {
                let n = self.cmds.len();
                proof {
                    assert(idx == self.model()[name@]);
                    assert(self.model()[name@] < n);
                }
                let i: usize = idx as usize;
                let c = &self.cmds[i];
                proof {
                    assert(*c == self.commands_seq()[i as int]);
                    assert(i as int == self.model()[name@] as int);
                }
                Some(c)
            },
            None => None,
        }
    }

    /// All registered commands, in registration order.
    pub fn commands(&self) -> (r: &Vec<PrefixCommand>)
        ensures
            r@ == self.commands_seq(),
    {
        &self.cmds
    }
}

/// For every name and alias of a registered command, lookup resolves to
/// the identical descriptor: the one registered under the command's index.
pub proof fn lemma_alias_lookup_identical(reg: PrefixCommands, i: int, k1: int, k2: int)
    requires
        reg.wf(),
        0 <= i < reg.commands_seq().len(),
        0 <= k1 < reg.commands_seq()[i].names@.len(),
        0 <= k2 < reg.commands_seq()[i].names@.len(),
    ensures
        reg.model().dom().contains(reg.commands_seq()[i].names@[k1]@),
        reg.model().dom().contains(reg.commands_seq()[i].names@[k2]@),
        reg.commands_seq()[reg.model()[reg.commands_seq()[i].names@[k1]@] as int]
            == reg.commands_seq()[reg.model()[reg.commands_seq()[i].names@[k2]@] as int],
        reg.model()[reg.commands_seq()[i].names@[k1]@] == i,
{
    assert(reg.model().dom().contains(reg.commands_seq()[i].names@[k1]@));
    assert(reg.model().dom().contains(reg.commands_seq()[i].names@[k2]@));
    assert(reg.model()[reg.commands_seq()[i].names@[k1]@] == i);
    assert(reg.model()[reg.commands_seq()[i].names@[k2]@] == i);
}

/// The fatal-startup diagnostic for a structured-command name another
/// command already owns.
pub open spec fn spec_slash_taken_msg(name: Seq<char>, owner: Seq<char>) -> Seq<char> {
    "structured command `"@ + name + "` is already registered for `"@ + owner + "`"@
}

/// A registered structured (slash) command; the platform-provided name is
/// matched case-sensitively and exactly.
pub struct SlashCommand {
    pub name: String,
    pub desc: String,
    pub flags: CommandFlags,
    pub handler: CommandHandler,
}

/// Immutable registry of structured commands, keyed by their one name.
pub struct SlashCommands {
    trie: NameTrie,
    cmds: Vec<SlashCommand>,
}

impl SlashCommands {
    pub closed spec fn model(self) -> Map<Seq<char>, u64> {
        trie_model(self.trie)
    }

    pub closed spec fn commands_seq(self) -> Seq<SlashCommand> {
        self.cmds@
    }

    pub open spec fn wf(self) -> bool {
        &&& forall|name: Seq<char>| #[trigger]
            self.model().dom().contains(name) ==> self.model()[name] < self.commands_seq().len()
        &&& forall|i: int|
            0 <= i < self.commands_seq().len() ==> #[trigger] self.model().dom().contains(
                self.commands_seq()[i].name@,
            ) && self.model()[self.commands_seq()[i].name@] == i
    }

    pub fn new() -> (r: Self)
        ensures
            r.wf(),
            r.model() == Map::<Seq<char>, u64>::empty(),
            r.commands_seq() == Seq::<SlashCommand>::empty(),
    {
        let r = SlashCommands { trie: trie_new(), cmds: Vec::new() };
        proof {
            assert(r.model().dom() =~= Set::empty());
        }
        r
    }

    /// Register one structured command under its name. Fails, leaving the
    /// registry unchanged, exactly when the name is already taken.
    pub fn register(&mut self, cmd: SlashCommand) -> (r: Result<(), String>)
        requires
            old(self).wf(),
        ensures
            final(self).wf(),
            match r {
                Ok(()) => final(self).commands_seq() == old(self).commands_seq().push(cmd)
                    && !old(self).model().dom().contains(cmd.name@) && final(self).model() == old(self).model().insert(cmd.name@, old(self).commands_seq().len() as u64),
                Err(msg) => *final(self) == *old(self) && old(self).model().dom().contains(
                    cmd.name@,
                ) && msg@ == spec_slash_taken_msg(
                    cmd.name@,
                    old(self).commands_seq()[old(self).model()[cmd.name@] as int].name@,
                ),
            },
    {
        if let Some(other) = trie_get(&self.trie, cmd.name.as_str()) {
            let n = self.cmds.len();
            proof {
                assert(self.model().dom().contains(cmd.name@));
                assert(self.model()[cmd.name@] < n);
            }
            let idx: usize = other as usize;
            let mut msg = String::from_str("structured command `");
            msg.append(cmd.name.as_str());
            msg.append("` is already registered for `");
            msg.append(self.cmds[idx].name.as_str());
            msg.append("`");
            proof {
                assert(msg@ =~= spec_slash_taken_msg(
                    cmd.name@,
                    self.commands_seq()[self.model()[cmd.name@] as int].name@,
                ));
            }
            return Err(msg);
        }
        let ghost pre = *self;
        let idx = self.cmds.len() as u64;
        let name = cmd.name.clone();
        self.cmds.push(cmd);
        trie_insert(&mut self.trie, name, idx);
        proof {
            assert forall|i: int|
                0 <= i < self.commands_seq().len() implies #[trigger] self.model().dom().contains(
                self.commands_seq()[i].name@,
            ) && self.model()[self.commands_seq()[i].name@] == i by {
                if i < idx as int {
                    assert(self.commands_seq()[i] == pre.commands_seq()[i]);
                    assert(pre.model().dom().contains(pre.commands_seq()[i].name@));
                }
            }
            assert forall|nm: Seq<char>| #[trigger]
                self.model().dom().contains(nm) implies self.model()[nm]
                < self.commands_seq().len() by {
                if pre.model().dom().contains(nm) {
                    assert(self.model()[nm] == pre.model()[nm]);
                }
            }
        }
        Ok(())
    }

    /// Look a structured-command name up; pure, case-sensitive exact match.
    pub fn command(&self, name: &str) -> (r: Option<&SlashCommand>)
        requires
            self.wf(),
        ensures
            match r {
                Some(c) => self.model().dom().contains(name@) && *c == self.commands_seq()[self.model()[name@] as int],
                None => !self.model().dom().contains(name@),
            },
    {
        match trie_get(&self.trie, name) {
            Some(idx) => {
                let n = self.cmds.len();
                proof {
                    assert(idx == self.model()[name@]);
                    assert(self.model()[name@] < n);
                }
                let i: usize = idx as usize;
                let c = &self.cmds[i];
                proof {
                    assert(*c == self.commands_seq()[i as int]);
                }
                Some(c)
            },
            None => None,
        }
    }

    /// All registered structured commands, in registration order.
    pub fn commands(&self) -> (r: &Vec<SlashCommand>)
        ensures
            r@ == self.commands_seq(),
    {
        &self.cmds
    }
}

} // verus!
