//! Plain-value model of the scoring domain: game modes, grades, and game
//! modifiers as a bit set.

use vstd::prelude::*;

use crate::matcher::{spec_map_id, spec_mapset_id, get_osu_map_id, get_osu_mapset_id};
use crate::text::{hex_digits, to_upper, u32_to_hex, upper_char};

verus! {

#[derive(Clone, Copy, PartialEq, Eq, Structural, Debug)]
pub enum GameMode {
    Osu,
    Taiko,
    Catch,
    Mania,
}

#[derive(Clone, Copy, PartialEq, Eq, Structural, Debug)]
pub enum Grade {
    XH,
    X,
    SH,
    S,
    A,
    B,
    C,
    D,
    F,
}

/// Modifier bits, one per game modifier.
pub const MOD_NO_FAIL: u32 = 0x1;
pub const MOD_EASY: u32 = 0x2;
pub const MOD_TOUCH_DEVICE: u32 = 0x4;
pub const MOD_HIDDEN: u32 = 0x8;
pub const MOD_HARD_ROCK: u32 = 0x10;
pub const MOD_SUDDEN_DEATH: u32 = 0x20;
pub const MOD_DOUBLE_TIME: u32 = 0x40;
pub const MOD_RELAX: u32 = 0x80;
pub const MOD_HALF_TIME: u32 = 0x100;
pub const MOD_NIGHTCORE: u32 = 0x200;
pub const MOD_FLASHLIGHT: u32 = 0x400;
pub const MOD_SPUN_OUT: u32 = 0x1000;
pub const MOD_AUTOPILOT: u32 = 0x2000;
pub const MOD_PERFECT: u32 = 0x4000;
pub const MOD_FADE_IN: u32 = 0x100000;
pub const MOD_RANDOM: u32 = 0x200000;
pub const MOD_MIRROR: u32 = 0x40000000;

/// A set of game modifiers.
#[derive(Clone, Copy, PartialEq, Eq, Structural, Debug)]
pub struct Mods {
    pub bits: u32,
}

impl Mods {
    pub open spec fn spec_contains(self, m: u32) -> bool {
        self.bits & m != 0
    }

    pub open spec fn spec_is_empty(self) -> bool {
        self.bits == 0
    }

    pub fn none() -> (r: Mods)
        ensures
            r.bits == 0,
    {
        Mods { bits: 0 }
    }

    pub fn contains(self, m: u32) -> (r: bool)
        ensures
            r == self.spec_contains(m),
    {
        self.bits & m != 0
    }

    pub fn is_empty(self) -> (r: bool)
        ensures
            r == self.spec_is_empty(),
    {
        self.bits == 0
    }

    pub fn with(self, m: u32) -> (r: Mods)
        ensures
            r.bits == self.bits | m,
    {
        Mods { bits: self.bits | m }
    }

    pub fn without(self, m: u32) -> (r: Mods)
        ensures
            r.bits == self.bits & !m,
    {
        Mods { bits: self.bits & !m }
    }
}

/// How a caller's modifier filter constrains leaderboard scores.
#[derive(Clone, Copy, PartialEq, Eq, Structural, Debug)]
pub enum ModSelection {
    Include(Mods),
    Exclude(Mods),
    Exact(Mods),
}

/// A map or mapset id found in a message.
#[derive(Clone, Copy, PartialEq, Eq, Structural, Debug)]
pub enum MapIdType {
    Beatmap(u32),
    Mapset(u32),
}

/// The fields of a rich embed the id search reads.
pub struct EmbedInfo {
    pub author_url: Option<String>,
    pub url: Option<String>,
}

/// The fields of a channel message the id search reads.
pub struct MessageInfo {
    pub content: String,
    pub embeds: Vec<EmbedInfo>,
}

/// What one embed yields when searched for a map or mapset id: the author
/// URL's map id, else its mapset id, else the embed URL's map id, else its
/// mapset id.
pub open spec fn spec_embed_id(e: EmbedInfo) -> Option<MapIdType> {
    let author_map = match e.author_url {
        Some(u) => spec_map_id(u@),
        None => None,
    };
    let author_set = match e.author_url {
        Some(u) => spec_mapset_id(u@),
        None => None,
    };
    let url_map = match e.url {
        Some(u) => spec_map_id(u@),
        None => None,
    };
    let url_set = match e.url {
        Some(u) => spec_mapset_id(u@),
        None => None,
    };
    if author_map is Some {
        Some(MapIdType::Beatmap(author_map->Some_0))
    } else if author_set is Some {
        Some(MapIdType::Mapset(author_set->Some_0))
    } else if url_map is Some {
        Some(MapIdType::Beatmap(url_map->Some_0))
    } else if url_set is Some {
        Some(MapIdType::Mapset(url_set->Some_0))
    } else {
        None
    }
}

/// What one embed yields when searched for a map id only.
pub open spec fn spec_embed_map_id(e: EmbedInfo) -> Option<u32> {
    let author_map = match e.author_url {
        Some(u) => spec_map_id(u@),
        None => None,
    };
    let url_map = match e.url {
        Some(u) => spec_map_id(u@),
        None => None,
    };
    if author_map is Some {
        author_map
    } else {
        url_map
    }
}

/// The first embed that yields an id, from index `i` on.
pub open spec fn spec_embeds_id(embeds: Seq<EmbedInfo>, i: int) -> Option<MapIdType>
    decreases embeds.len() - i,
{
    if i < 0 || i >= embeds.len() {
        None
    } else {
        match spec_embed_id(embeds[i]) {
            Some(id) => Some(id),
            None => spec_embeds_id(embeds, i + 1),
        }
    }
}

pub open spec fn spec_embeds_map_id(embeds: Seq<EmbedInfo>, i: int) -> Option<u32>
    decreases embeds.len() - i,
{
    if i < 0 || i >= embeds.len() {
        None
    } else {
        match spec_embed_map_id(embeds[i]) {
            Some(id) => Some(id),
            None => spec_embeds_map_id(embeds, i + 1),
        }
    }
}

/// The message is one bare number.
pub open spec fn spec_all_digits(s: Seq<char>) -> bool {
    forall|k: int| 0 <= k < s.len() ==> crate::text::is_digit_char(#[trigger] s[k])
}

fn content_all_digits(msg: &MessageInfo) -> (r: bool)
    ensures
        r == spec_all_digits(msg.content@),
{
    let slen = msg.content.as_str().unicode_len();
    let mut i: usize = 0;
    while i < slen
        invariant
            i <= slen,
            slen == msg.content@.len(),
            forall|k: int| 0 <= k < i ==> crate::text::is_digit_char(#[trigger] msg.content@[k]),
        decreases slen - i,
    {
        if !crate::text::is_digit(msg.content.as_str().get_char(i)) {
            return false;
        }
        i += 1;
    }
    true
}

/// What a whole-message search for a map or mapset id yields: the content
/// first (unless it is one bare number), then the embeds.
pub open spec fn spec_msg_id(msg: MessageInfo) -> Option<MapIdType> {
    if spec_all_digits(msg.content@) {
        spec_embeds_id(msg.embeds@, 0)
    } else if spec_map_id(msg.content@) is Some {
        Some(MapIdType::Beatmap(spec_map_id(msg.content@)->Some_0))
    } else if spec_mapset_id(msg.content@) is Some {
        Some(MapIdType::Mapset(spec_mapset_id(msg.content@)->Some_0))
    } else {
        spec_embeds_id(msg.embeds@, 0)
    }
}

/// What a whole-message search for a map id only yields.
pub open spec fn spec_msg_map_id(msg: MessageInfo) -> Option<u32> {
    if spec_all_digits(msg.content@) {
        spec_embeds_map_id(msg.embeds@, 0)
    } else if spec_map_id(msg.content@) is Some {
        spec_map_id(msg.content@)
    } else {
        spec_embeds_map_id(msg.embeds@, 0)
    }
}

/// The `idx`-th map id the messages from position `i` on yield.
pub open spec fn spec_msgs_map_id(msgs: Seq<MessageInfo>, idx: int, i: int) -> Option<u32>
    decreases msgs.len() - i,
{
    if i < 0 || i >= msgs.len() {
        None
    } else {
        match spec_msg_map_id(msgs[i]) {
            Some(id) => if idx == 0 {
                Some(id)
            } else {
                spec_msgs_map_id(msgs, idx - 1, i + 1)
            },
            None => spec_msgs_map_id(msgs, idx, i + 1),
        }
    }
}

impl MapIdType {
    /// Search one embed.
    fn from_embed(e: &EmbedInfo) -> (r: Option<MapIdType>)
        ensures
            r == spec_embed_id(*e),
    {
        if let Some(u) = &e.author_url {
            if let Some(id) = get_osu_map_id(u.as_str()) {
                return Some(MapIdType::Beatmap(id));
            }
            if let Some(id) = get_osu_mapset_id(u.as_str()) {
                return Some(MapIdType::Mapset(id));
            }
        }
        if let Some(u) = &e.url {
            if let Some(id) = get_osu_map_id(u.as_str()) {
                return Some(MapIdType::Beatmap(id));
            }
            if let Some(id) = get_osu_mapset_id(u.as_str()) {
                return Some(MapIdType::Mapset(id));
            }
        }
        None
    }

    /// Look for a map or mapset id in a message's embeds.
    pub fn from_embeds(embeds: &Vec<EmbedInfo>) -> (r: Option<MapIdType>)
        ensures
            r == spec_embeds_id(embeds@, 0),
    {
        let mut i: usize = 0;
        while i < embeds.len()
            invariant
                i <= embeds@.len(),
                spec_embeds_id(embeds@, 0) == spec_embeds_id(embeds@, i as int),
            decreases embeds@.len() - i,
        {
            if let Some(id) = Self::from_embed(&embeds[i]) {
                return Some(id);
            }
            i += 1;
        }
        None
    }

    /// Look for a map or mapset id in a message: its content first, then
    /// its embeds; a bare-number message goes straight to the embeds.
    pub fn from_msg(msg: &MessageInfo) -> (r: Option<MapIdType>)
        ensures
            r == spec_msg_id(*msg),
    {
        if content_all_digits(msg) {
            return Self::from_embeds(&msg.embeds);
        }
        if let Some(id) = get_osu_map_id(msg.content.as_str()) {
            return Some(MapIdType::Beatmap(id));
        }
        if let Some(id) = get_osu_mapset_id(msg.content.as_str()) {
            return Some(MapIdType::Mapset(id));
        }
        Self::from_embeds(&msg.embeds)
    }

    /// Look for a map id only, in one message's embeds.
    pub fn map_from_embeds(embeds: &Vec<EmbedInfo>) -> (r: Option<u32>)
        ensures
            r == spec_embeds_map_id(embeds@, 0),
    {
        let mut i: usize = 0;
        while i < embeds.len()
            invariant
                i <= embeds@.len(),
                spec_embeds_map_id(embeds@, 0) == spec_embeds_map_id(embeds@, i as int),
            decreases embeds@.len() - i,
        {
            let e = &embeds[i];
            if let Some(u) = &e.author_url {
                if let Some(id) = get_osu_map_id(u.as_str()) {
                    return Some(id);
                }
            }
            if let Some(u) = &e.url {
                if let Some(id) = get_osu_map_id(u.as_str()) {
                    return Some(id);
                }
            }
            i += 1;
        }
        None
    }

    /// Look for a map id only, in one message.
    pub fn map_from_msg(msg: &MessageInfo) -> (r: Option<u32>)
        ensures
            r == spec_msg_map_id(*msg),
    {
        if content_all_digits(msg) {
            return Self::map_from_embeds(&msg.embeds);
        }
        if let Some(id) = get_osu_map_id(msg.content.as_str()) {
            return Some(id);
        }
        Self::map_from_embeds(&msg.embeds)
    }

    /// The `idx`-th map id the channel history yields, newest first.
    pub fn map_from_msgs(msgs: &Vec<MessageInfo>, idx: usize) -> (r: Option<u32>)
        ensures
            r == spec_msgs_map_id(msgs@, idx as int, 0),
    {
        let mut found: usize = 0;
        let mut i: usize = 0;
        while i < msgs.len()
            invariant
                i <= msgs@.len(),
                found <= i,
                found <= idx,
                spec_msgs_map_id(msgs@, idx as int, 0) == spec_msgs_map_id(
                    msgs@,
                    idx - found,
                    i as int,
                ),
            decreases msgs@.len() - i,
        {
            if let Some(id) = Self::map_from_msg(&msgs[i]) {
                if found == idx {
                    return Some(id);
                }
                found += 1;
            }
            i += 1;
        }
        None
    }
}

/// The URL of a country's flag image: the country code's two letters
/// uppercased and shifted into the regional-indicator plane, in lowercase
/// hexadecimal.
pub fn flag_url_svg(country_code: &str) -> (r: String)
    requires
        country_code@.len() == 2,
    ensures
        r@ == "https://osu.ppy.sh/assets/images/flags/"@ + hex_digits(
            upper_char(country_code@[0]) as int + 0x1F1A5,
        ) + "-"@ + hex_digits(upper_char(country_code@[1]) as int + 0x1F1A5) + ".svg"@,
{
    let c0 = to_upper(country_code.get_char(0));
    let c1 = to_upper(country_code.get_char(1));
    let mut url = String::from_str("https://osu.ppy.sh/assets/images/flags/");
    let h0 = u32_to_hex((c0 as u32) + 0x1F1A5);
    url.append(h0.as_str());
    url.append("-");
    let h1 = u32_to_hex((c1 as u32) + 0x1F1A5);
    url.append(h1.as_str());
    url.append(".svg");
    proof {
        assert(url@ =~= "https://osu.ppy.sh/assets/images/flags/"@ + hex_digits(
            upper_char(country_code@[0]) as int + 0x1F1A5,
        ) + "-"@ + hex_digits(upper_char(country_code@[1]) as int + 0x1F1A5) + ".svg"@);
    }
    url
}

} // verus!
