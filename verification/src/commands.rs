//! The registered commands' typed options and the leaderboard command's
//! argument handling.

use vstd::prelude::*;

use crate::matcher::{
    get_mods, get_osu_map_id, get_osu_mapset_id, parse_mods_bare, spec_get_mods,
    spec_map_id, spec_mapset_id, spec_mods_from_acronyms,
};
use crate::osu::{spec_msg_id, GameMode, Grade, MapIdType, MessageInfo, ModSelection};
use crate::text::lower_seq;

verus! {

#[derive(Clone, Copy, PartialEq, Eq, Structural, Debug)]
pub enum ShowHideOption {
    Show,
    Hide,
}

#[derive(Clone, Copy, PartialEq, Eq, Structural, Debug)]
pub enum EnableDisable {
    Enable,
    Disable,
}

#[derive(Clone, Copy, PartialEq, Eq, Structural, Debug)]
pub enum ThreadChannel {
    Channel,
    Thread,
}

#[derive(Clone, Copy, PartialEq, Eq, Structural, Debug)]
pub enum GameModeOption {
    Osu,
    Taiko,
    Catch,
    Mania,
}

impl From<GameModeOption> for GameMode {
    fn from(mode: GameModeOption) -> (r: Self) {
        match mode {
            GameModeOption::Osu => GameMode::Osu,
            GameModeOption::Taiko => GameMode::Taiko,
            GameModeOption::Catch => GameMode::Catch,
            GameModeOption::Mania => GameMode::Mania,
        }
    }
}

impl vstd::std_specs::convert::FromSpecImpl<GameModeOption> for GameMode {
    open spec fn obeys_from_spec() -> bool {
        true
    }

    open spec fn from_spec(mode: GameModeOption) -> Self {
        match mode {
            GameModeOption::Osu => GameMode::Osu,
            GameModeOption::Taiko => GameMode::Taiko,
            GameModeOption::Catch => GameMode::Catch,
            GameModeOption::Mania => GameMode::Mania,
        }
    }
}

impl From<GameMode> for GameModeOption {
    fn from(mode: GameMode) -> (r: Self) {
        match mode {
            GameMode::Osu => GameModeOption::Osu,
            GameMode::Taiko => GameModeOption::Taiko,
            GameMode::Catch => GameModeOption::Catch,
            GameMode::Mania => GameModeOption::Mania,
        }
    }
}

impl vstd::std_specs::convert::FromSpecImpl<GameMode> for GameModeOption {
    open spec fn obeys_from_spec() -> bool {
        true
    }

    open spec fn from_spec(mode: GameMode) -> Self {
        match mode {
            GameMode::Osu => GameModeOption::Osu,
            GameMode::Taiko => GameModeOption::Taiko,
            GameMode::Catch => GameModeOption::Catch,
            GameMode::Mania => GameModeOption::Mania,
        }
    }
}

#[derive(Clone, Copy, PartialEq, Eq, Structural, Debug)]
pub enum GradeOption {
    SS,
    S,
    A,
    B,
    C,
    D,
    F,
}

impl From<GradeOption> for Grade {
    fn from(grade: GradeOption) -> (r: Self) {
        match grade {
            GradeOption::SS => Grade::X,
            GradeOption::S => Grade::S,
            GradeOption::A => Grade::A,
            GradeOption::B => Grade::B,
            GradeOption::C => Grade::C,
            GradeOption::D => Grade::D,
            GradeOption::F => Grade::F,
        }
    }
}

impl vstd::std_specs::convert::FromSpecImpl<GradeOption> for Grade {
    open spec fn obeys_from_spec() -> bool {
        true
    }

    open spec fn from_spec(grade: GradeOption) -> Self {
        match grade {
            GradeOption::SS => Grade::X,
            GradeOption::S => Grade::S,
            GradeOption::A => Grade::A,
            GradeOption::B => Grade::B,
            GradeOption::C => Grade::C,
            GradeOption::D => Grade::D,
            GradeOption::F => Grade::F,
        }
    }
}

impl GradeOption {
    /// Parse a lowercased grade name.
    pub fn from_str(s: &str) -> (r: Result<GradeOption, &'static str>)
        ensures
            s@ == "x"@ || s@ == "ss"@ ==> (r matches Ok(g) && g is SS),
            s@ == "s"@ ==> (r matches Ok(g) && g is S),
            s@ == "a"@ ==> (r matches Ok(g) && g is A),
            s@ == "b"@ ==> (r matches Ok(g) && g is B),
            s@ == "c"@ ==> (r matches Ok(g) && g is C),
            s@ == "d"@ ==> (r matches Ok(g) && g is D),
            s@ == "f"@ ==> (r matches Ok(g) && g is F),
            r is Err ==> s@ != "x"@ && s@ != "ss"@ && s@ != "s"@ && s@ != "a"@ && s@ != "b"@ && s@
                != "c"@ && s@ != "d"@ && s@ != "f"@,
    {
        proof {
            broadcast use vstd::string::group_string_axioms;

            reveal_strlit("x");
            reveal_strlit("ss");
            reveal_strlit("s");
            reveal_strlit("a");
            reveal_strlit("b");
            reveal_strlit("c");
            reveal_strlit("d");
            reveal_strlit("f");
            assert("x"@.len() == 1 && "x"@[0] == 'x');
            assert("ss"@.len() == 2);
            assert("s"@.len() == 1 && "s"@[0] == 's');
            assert("a"@.len() == 1 && "a"@[0] == 'a');
            assert("b"@.len() == 1 && "b"@[0] == 'b');
            assert("c"@.len() == 1 && "c"@[0] == 'c');
            assert("d"@.len() == 1 && "d"@[0] == 'd');
            assert("f"@.len() == 1 && "f"@[0] == 'f');
        }
        if str_eq(s, "x") || str_eq(s, "ss") {
            Ok(GradeOption::SS)
        } else if str_eq(s, "s") {
            Ok(GradeOption::S)
        } else if str_eq(s, "a") {
            Ok(GradeOption::A)
        } else if str_eq(s, "b") {
            Ok(GradeOption::B)
        } else if str_eq(s, "c") {
            Ok(GradeOption::C)
        } else if str_eq(s, "d") {
            Ok(GradeOption::D)
        } else if str_eq(s, "f") {
            Ok(GradeOption::F)
        } else {
            Err("Failed to parse `grade`.\nValid grades are: `SS`, `S`, `A`, `B`, `C`, `D`, or `F`")
        }
    }
}

/// Whether two strings spell the same characters.
fn str_eq(a: &str, b: &str) -> (r: bool)
    ensures
        r == (a@ == b@),
{
    let alen = a.unicode_len();
    let blen = b.unicode_len();
    if alen != blen {
        return false;
    }
    let mut i: usize = 0;
    while i < alen
        invariant
            i <= alen,
            alen == a@.len(),
            alen == b@.len(),
            forall|k: int| 0 <= k < i ==> a@[k] == b@[k],
        decreases alen - i,
    {
        if a.get_char(i) != b.get_char(i) {
            return false;
        }
        i += 1;
    }
    proof {
        assert(a@ =~= b@);
    }
    true
}

/// Orders a score listing can be sorted by.
#[derive(Clone, Copy, PartialEq, Eq, Structural, Debug)]
pub enum ScoreOrder {
    Acc,
    Bpm,
    Combo,
    Date,
    Length,
    Misses,
    Pp,
    RankedDate,
    Score,
    Stars,
}

impl Default for ScoreOrder {
    fn default() -> (r: Self)
        ensures
            r is Pp,
    {
        ScoreOrder::Pp
    }
}

/// Running extremes and totals of a measured quantity.
#[derive(Clone, Copy, PartialEq, Eq, Structural, Debug)]
pub struct MinMaxAvg<N> {
    pub min: N,
    pub max: N,
    pub sum: N,
    pub len: N,
}

/// Typed options of the leaderboard command.
pub struct Leaderboard {
    pub map: Option<String>,
    pub mods: Option<String>,
}

/// Typed options of the national-leaderboard command.
pub struct Nlb {
    pub map: Option<String>,
    pub mods: Option<String>,
}

/// The leaderboard command's resolved arguments.
pub struct LeaderboardArgs {
    pub map: Option<MapIdType>,
    pub mods: Option<String>,
}

/// How a raw modifier-filter option resolved.
pub enum ModsResult {
    Resolved(ModSelection),
    Missing,
    Invalid,
}

/// The refusal shown for a word that is neither a map, a mapset, nor a
/// modifier filter.
pub open spec fn spec_parse_fail_msg(word: Seq<char>) -> Seq<char> {
    "Failed to parse `"@ + word + "`.\nMust be either a map id, map url, or mods."@
}

fn parse_fail_msg(word: &String) -> (r: String)
    ensures
        r@ == spec_parse_fail_msg(word@),
{
    let mut content = String::from_str("Failed to parse `");
    content.append(word.as_str());
    content.append("`.\nMust be either a map id, map url, or mods.");
    proof {
        assert(content@ =~= spec_parse_fail_msg(word@));
    }
    content
}

/// A map argument resolves to a map id, a mapset id, or nothing.
pub open spec fn spec_arg_map_id(s: Seq<char>) -> Option<MapIdType> {
    if spec_map_id(s) is Some {
        Some(MapIdType::Beatmap(spec_map_id(s)->Some_0))
    } else if spec_mapset_id(s) is Some {
        Some(MapIdType::Mapset(spec_mapset_id(s)->Some_0))
    } else {
        None
    }
}

fn arg_map_id(s: &str) -> (r: Option<MapIdType>)
    ensures
        r == spec_arg_map_id(s@),
{
    if let Some(id) = get_osu_map_id(s) {
        return Some(MapIdType::Beatmap(id));
    }
    if let Some(id) = get_osu_mapset_id(s) {
        return Some(MapIdType::Mapset(id));
    }
    None
}

impl LeaderboardArgs {
    /// Resolve the text command's arguments: each of the first two words
    /// is a map, a mapset, or a modifier filter; anything else is refused
    /// with an explanation naming the word. A replied-to message's map
    /// takes precedence over a map given as a word.
    pub fn args(reply: Option<&MessageInfo>, words: &Vec<String>) -> (r: Result<
        LeaderboardArgs,
        String,
    >)
        ensures
            ({
                let take = if words@.len() < 2 {
                    words@.len() as int
                } else {
                    2int
                };
                let m0 = if take >= 1 {
                    spec_arg_map_id(words@[0]@)
                } else {
                    None
                };
                let m1 = if take >= 2 {
                    spec_arg_map_id(words@[1]@)
                } else {
                    None
                };
                let word_map = if m1 is Some {
                    m1
                } else {
                    m0
                };
                let word_mods: Option<int> = if take >= 2 && m1 is None && spec_get_mods(
                    words@[1]@,
                ) is Some {
                    Some(1int)
                } else if take >= 1 && m0 is None && spec_get_mods(words@[0]@) is Some {
                    Some(0int)
                } else {
                    None
                };
                match r {
                    Ok(args) => {
                        &&& (forall|k: int|
                            0 <= k < take ==> spec_arg_map_id((#[trigger] words@[k])@) is Some
                                || spec_get_mods(words@[k]@) is Some)
                        &&& args.map == (match reply {
                            Some(msg) => if spec_msg_id(*msg) is Some {
                                spec_msg_id(*msg)
                            } else {
                                word_map
                            },
                            None => word_map,
                        })
                        &&& (match word_mods {
                            Some(k) => args.mods matches Some(m) && m@ == words@[k]@,
                            None => args.mods is None,
                        })
                    },
                    Err(msg) => exists|k: int|
                        0 <= k < take && spec_arg_map_id((#[trigger] words@[k])@) is None
                            && spec_get_mods(words@[k]@) is None && msg@ == spec_parse_fail_msg(
                            words@[k]@,
                        ) && (forall|k2: int|
                            0 <= k2 < k ==> spec_arg_map_id((#[trigger] words@[k2])@) is Some
                                || spec_get_mods(words@[k2]@) is Some),
                }
            }),
    {
        let mut map: Option<MapIdType> = None;
        let mut mods: Option<String> = None;
        if words.len() >= 1 {
            let word = &words[0];
            if let Some(id) = arg_map_id(word.as_str()) {
                map = Some(id);
            } else if get_mods(word.as_str()).is_some() {
                mods = Some(word.clone());
            } else {
                return Err(parse_fail_msg(word));
            }
        }
        if words.len() >= 2 {
            let word = &words[1];
            if let Some(id) = arg_map_id(word.as_str()) {
                map = Some(id);
            } else if get_mods(word.as_str()).is_some() {
                mods = Some(word.clone());
            } else {
                return Err(parse_fail_msg(word));
            }
        }
        if let Some(msg) = reply {
            if let Some(id) = MapIdType::from_msg(msg) {
                map = Some(id);
            }
        }
        Ok(LeaderboardArgs { map, mods })
    }

    /// Resolve the structured command's options; a map option that is
    /// neither an id nor a recognizable URL is refused.
    pub fn try_from_options(map: Option<String>, mods: Option<String>) -> (r: Result<
        LeaderboardArgs,
        &'static str,
    >)
        ensures
            match r {
                Ok(args) => args.mods == mods && (match map {
                    Some(m) => args.map == spec_arg_map_id(m@) && args.map is Some,
                    None => args.map is None,
                }),
                Err(_) => map matches Some(m) && spec_arg_map_id(m@) is None,
            },
    {
        let map_id = match map {
            Some(m) => {
                match arg_map_id(m.as_str()) {
                    Some(id) => Some(id),
                    None => {
                        return Err(
                            "Failed to parse map url. Be sure you specify a valid map id or url to a map.",
                        );
                    },
                }
            },
            None => None,
        };
        Ok(LeaderboardArgs { map: map_id, mods })
    }

    /// How the stored modifier filter resolves: absent, an explicit or
    /// bare filter, or present but unparseable.
    pub fn mods(&self) -> (r: ModsResult)
        ensures
            match r {
                ModsResult::Missing => self.mods is None,
                ModsResult::Resolved(sel) => self.mods matches Some(raw) && (spec_get_mods(raw@)
                    == Some(sel) || (spec_get_mods(raw@) is None && (spec_mods_from_acronyms(
                    lower_seq(raw@),
                    0,
                ) matches Some(bits) && sel == ModSelection::Include(
                    crate::osu::Mods { bits },
                )))),
                ModsResult::Invalid => self.mods matches Some(raw) && spec_get_mods(raw@) is None
                    && spec_mods_from_acronyms(lower_seq(raw@), 0) is None,
            },
    {
        match &self.mods {
            None => ModsResult::Missing,
            Some(raw) => {
                if let Some(sel) = get_mods(raw.as_str()) {
                    return ModsResult::Resolved(sel);
                }
                match parse_mods_bare(raw.as_str()) {
                    Some(m) => ModsResult::Resolved(ModSelection::Include(m)),
                    None => ModsResult::Invalid,
                }
            },
        }
    }
}

} // verus!
