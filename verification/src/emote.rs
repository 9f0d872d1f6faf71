//! The emotes the bot posts and reacts with, and the configured text of
//! each. The configuration object is threaded in explicitly.

use vstd::prelude::*;

verus! {

#[derive(Clone, Copy, PartialEq, Eq, Structural, Debug, Hash)]
pub enum Emote {
    Std,
    Tko,
    Ctb,
    Mna,
    Osu,
    Twitch,
    Tracking,
    Minimize,
    Expand,
    JumpStart,
    MultiStepBack,
    SingleStepBack,
    MyPosition,
    SingleStep,
    MultiStep,
    JumpEnd,
    Miss,
}

/// The configured text of every emote.
pub struct Emotes {
    pub std: String,
    pub tko: String,
    pub ctb: String,
    pub mna: String,
    pub osu: String,
    pub twitch: String,
    pub tracking: String,
    pub minimize: String,
    pub expand: String,
    pub jump_start: String,
    pub multi_step_back: String,
    pub single_step_back: String,
    pub my_position: String,
    pub single_step: String,
    pub multi_step: String,
    pub jump_end: String,
    pub miss: String,
}

impl Emote {
    /// The configured text of this emote.
    pub open spec fn spec_text(self, emotes: Emotes) -> Seq<char> {
        match self {
            Emote::Std => emotes.std@,
            Emote::Tko => emotes.tko@,
            Emote::Ctb => emotes.ctb@,
            Emote::Mna => emotes.mna@,
            Emote::Osu => emotes.osu@,
            Emote::Twitch => emotes.twitch@,
            Emote::Tracking => emotes.tracking@,
            Emote::Minimize => emotes.minimize@,
            Emote::Expand => emotes.expand@,
            Emote::JumpStart => emotes.jump_start@,
            Emote::MultiStepBack => emotes.multi_step_back@,
            Emote::SingleStepBack => emotes.single_step_back@,
            Emote::MyPosition => emotes.my_position@,
            Emote::SingleStep => emotes.single_step@,
            Emote::MultiStep => emotes.multi_step@,
            Emote::JumpEnd => emotes.jump_end@,
            Emote::Miss => emotes.miss@,
        }
    }

    pub fn text<'e>(self, emotes: &'e Emotes) -> (r: &'e String)
        ensures
            r@ == self.spec_text(*emotes),
    {
        match self {
            Emote::Std => &emotes.std,
            Emote::Tko => &emotes.tko,
            Emote::Ctb => &emotes.ctb,
            Emote::Mna => &emotes.mna,
            Emote::Osu => &emotes.osu,
            Emote::Twitch => &emotes.twitch,
            Emote::Tracking => &emotes.tracking,
            Emote::Minimize => &emotes.minimize,
            Emote::Expand => &emotes.expand,
            Emote::JumpStart => &emotes.jump_start,
            Emote::MultiStepBack => &emotes.multi_step_back,
            Emote::SingleStepBack => &emotes.single_step_back,
            Emote::MyPosition => &emotes.my_position,
            Emote::SingleStep => &emotes.single_step,
            Emote::MultiStep => &emotes.multi_step,
            Emote::JumpEnd => &emotes.jump_end,
            Emote::Miss => &emotes.miss,
        }
    }

    /// The emote a game mode is shown with.
    pub fn for_mode(mode: crate::osu::GameMode) -> (r: Emote)
        ensures
            mode is Osu ==> r is Std,
            mode is Taiko ==> r is Tko,
            mode is Catch ==> r is Ctb,
            mode is Mania ==> r is Mna,
    {
        match mode {
            crate::osu::GameMode::Osu => Emote::Std,
            crate::osu::GameMode::Taiko => Emote::Tko,
            crate::osu::GameMode::Catch => Emote::Ctb,
            crate::osu::GameMode::Mania => Emote::Mna,
        }
    }
}

} // verus!
