//! The leaderboard response embed, built purely from plain values.
//!
//! Fractional quantities arrive as fixed-point integers (hundredths) and
//! are rendered with two decimals, truncated; the difficulty attributes
//! that only the beatmap calculator can produce arrive precomputed.

use vstd::prelude::*;

use crate::datetime::HowLongAgoDynamic;
use crate::osu::{GameMode, Grade, Mods};
use crate::pagination::{spec_total_pages, Pages, PaginationSession};
use crate::scores::ScoreEntry;
use crate::text::{comma_sep, dec_digits, digit_char, u64_to_dec, with_comma_u64};

verus! {

/// Ranked status of a beatmap.
#[derive(Clone, Copy, PartialEq, Eq, Structural, Debug)]
pub enum RankStatus {
    Graveyard,
    Wip,
    Pending,
    Ranked,
    Approved,
    Qualified,
    Loved,
}

impl RankStatus {
    pub open spec fn spec_text(self) -> Seq<char> {
        match self {
            RankStatus::Graveyard => "Graveyard"@,
            RankStatus::Wip => "Wip"@,
            RankStatus::Pending => "Pending"@,
            RankStatus::Ranked => "Ranked"@,
            RankStatus::Approved => "Approved"@,
            RankStatus::Qualified => "Qualified"@,
            RankStatus::Loved => "Loved"@,
        }
    }

    pub fn text(self) -> (r: &'static str)
        ensures
            r@ == self.spec_text(),
    {
        match self {
            RankStatus::Graveyard => "Graveyard",
            RankStatus::Wip => "Wip",
            RankStatus::Pending => "Pending",
            RankStatus::Ranked => "Ranked",
            RankStatus::Approved => "Approved",
            RankStatus::Qualified => "Qualified",
            RankStatus::Loved => "Loved",
        }
    }
}

/// The beatmap fields the embed shows, as plain values: stars in
/// hundredths, the circle size truncated to whole units (the key count on
/// mania maps).
pub struct MapInfo {
    pub map_id: u32,
    pub mapset_id: u32,
    pub mode: GameMode,
    pub version: String,
    pub stars_centis: u32,
    pub cs: u32,
    pub status: RankStatus,
    pub max_combo: Option<u32>,
    pub artist: String,
    pub title: String,
    pub creator_name: String,
    pub creator_id: u32,
}

/// The configured emote of each grade.
pub struct GradeEmotes {
    pub xh: String,
    pub x: String,
    pub sh: String,
    pub s: String,
    pub a: String,
    pub b: String,
    pub c: String,
    pub d: String,
    pub f: String,
}

impl GradeEmotes {
    pub open spec fn spec_text(self, grade: Grade) -> Seq<char> {
        match grade {
            Grade::XH => self.xh@,
            Grade::X => self.x@,
            Grade::SH => self.sh@,
            Grade::S => self.s@,
            Grade::A => self.a@,
            Grade::B => self.b@,
            Grade::C => self.c@,
            Grade::D => self.d@,
            Grade::F => self.f@,
        }
    }

    pub fn text<'e>(&'e self, grade: Grade) -> (r: &'e String)
        ensures
            r@ == self.spec_text(grade),
    {
        match grade {
            Grade::XH => &self.xh,
            Grade::X => &self.x,
            Grade::SH => &self.sh,
            Grade::S => &self.s,
            Grade::A => &self.a,
            Grade::B => &self.b,
            Grade::C => &self.c,
            Grade::D => &self.d,
            Grade::F => &self.f,
        }
    }
}

/// One leaderboard entry with its precomputed performance values, in
/// hundredths of a point.
pub struct RowData {
    pub entry: ScoreEntry,
    pub pp_centis: u64,
    pub max_pp_centis: u64,
}

/// A fixed-point number in hundredths, rendered with two decimals.
pub open spec fn spec_two_frac(n: int) -> Seq<char> {
    dec_digits(n / 100) + seq!['.', digit_char((n / 10) % 10), digit_char(n % 10)]
}

pub fn two_frac(n: u64) -> (r: String)
    ensures
        r@ == spec_two_frac(n as int),
{
    let mut out = u64_to_dec(n / 100);
    crate::text::push_char(&mut out, '.');
    let d1 = (n / 10) % 10;
    let d0 = n % 10;
    crate::text::push_char(&mut out, digit_to_char_local(d1));
    crate::text::push_char(&mut out, digit_to_char_local(d0));
    proof {
        assert(out@ =~= spec_two_frac(n as int));
    }
    out
}

fn digit_to_char_local(d: u64) -> (r: char)
    requires
        d < 10,
    ensures
        r == digit_char(d as int),
{
    match d {
        0 => '0',
        1 => '1',
        2 => '2',
        3 => '3',
        4 => '4',
        5 => '5',
        6 => '6',
        7 => '7',
        8 => '8',
        _ => '9',
    }
}

/// The modifier acronym table, for display.
pub open spec fn acr_table() -> Seq<(u32, Seq<char>)> {
    seq![
        (0x1u32, "NF"@),
        (0x2u32, "EZ"@),
        (0x4u32, "TD"@),
        (0x8u32, "HD"@),
        (0x10u32, "HR"@),
        (0x20u32, "SD"@),
        (0x40u32, "DT"@),
        (0x80u32, "RX"@),
        (0x100u32, "HT"@),
        (0x200u32, "NC"@),
        (0x400u32, "FL"@),
        (0x1000u32, "SO"@),
        (0x2000u32, "AP"@),
        (0x4000u32, "PF"@),
        (0x100000u32, "FI"@),
        (0x200000u32, "RD"@),
        (0x40000000u32, "MR"@),
    ]
}

pub open spec fn spec_mods_text_from(bits: u32, i: int) -> Seq<char>
    decreases 17 - i,
{
    if i < 0 || i >= 17 {
        Seq::empty()
    } else {
        (if bits & acr_table()[i].0 != 0 {
            acr_table()[i].1
        } else {
            Seq::empty()
        }) + spec_mods_text_from(bits, i + 1)
    }
}

/// Concatenated modifier acronyms, `NM` for none.
pub open spec fn spec_mods_text(m: Mods) -> Seq<char> {
    if m.bits == 0 {
        "NM"@
    } else {
        spec_mods_text_from(m.bits, 0)
    }
}

fn acr_mask(i: usize) -> (r: u32)
    requires
        i < 17,
    ensures
        r == acr_table()[i as int].0,
{
    match i {
        0 => 0x1,
        1 => 0x2,
        2 => 0x4,
        3 => 0x8,
        4 => 0x10,
        5 => 0x20,
        6 => 0x40,
        7 => 0x80,
        8 => 0x100,
        9 => 0x200,
        10 => 0x400,
        11 => 0x1000,
        12 => 0x2000,
        13 => 0x4000,
        14 => 0x100000,
        15 => 0x200000,
        _ => 0x40000000,
    }
}

fn acr_chunk(i: usize) -> (r: &'static str)
    requires
        i < 17,
    ensures
        r@ == acr_table()[i as int].1,
{
    match i {
        0 => "NF",
        1 => "EZ",
        2 => "TD",
        3 => "HD",
        4 => "HR",
        5 => "SD",
        6 => "DT",
        7 => "RX",
        8 => "HT",
        9 => "NC",
        10 => "FL",
        11 => "SO",
        12 => "AP",
        13 => "PF",
        14 => "FI",
        15 => "RD",
        _ => "MR",
    }
}

/// Render a modifier set for display.
pub fn mods_text(m: Mods) -> (r: String)
    ensures
        r@ == spec_mods_text(m),
{
    if m.bits == 0 {
        return String::from_str("NM");
    }
    let mut out = String::new();
    let mut i: usize = 0;
    while i < 17
        invariant
            i <= 17,
            m.bits != 0,
            out@ + spec_mods_text_from(m.bits, i as int) == spec_mods_text_from(m.bits, 0),
        decreases 17 - i,
    {
        let ghost pre = out@;
        if m.bits & acr_mask(i) != 0 {
            out.append(acr_chunk(i));
        }
        proof {
            assert(out@ + spec_mods_text_from(m.bits, i + 1) =~= pre + spec_mods_text_from(
                m.bits,
                i as int,
            ));
        }
        i += 1;
    }
    proof {
        assert(out@ =~= out@ + spec_mods_text_from(m.bits, 17));
    }
    out
}

/// The combo column: the score's combo, and the map's maximum where the
/// map has one, else the perfect-to-great hit ratio in hundredths.
pub open spec fn spec_combo_text(e: ScoreEntry, map_combo: Option<u32>) -> Seq<char> {
    "**"@ + dec_digits(e.max_combo as int) + "x**"@ + match map_combo {
        Some(mc) => "/"@ + dec_digits(mc as int) + "x"@,
        None => " / "@ + spec_two_frac(
            if e.count_300 > 0 {
                100 * e.count_geki as int / e.count_300 as int
            } else {
                100 * e.count_geki as int
            },
        ),
    }
}

pub fn combo_text(e: &ScoreEntry, map_combo: Option<u32>) -> (r: String)
    ensures
        r@ == spec_combo_text(*e, map_combo),
{
    let mut out = String::from_str("**");
    let combo = u64_to_dec(e.max_combo as u64);
    out.append(combo.as_str());
    out.append("x**");
    match map_combo {
        Some(mc) => {
            out.append("/");
            let m = u64_to_dec(mc as u64);
            out.append(m.as_str());
            out.append("x");
        },
        None => {
            out.append(" / ");
            let ratio: u64 = if e.count_300 > 0 {
                100 * (e.count_geki as u64) / (e.count_300 as u64)
            } else {
                100 * (e.count_geki as u64)
            };
            let t = two_frac(ratio);
            out.append(t.as_str());
        },
    }
    proof {
        assert(out@ =~= spec_combo_text(*e, map_combo));
    }
    out
}

/// The miss column: empty without misses.
pub open spec fn spec_miss_text(misses: int) -> Seq<char> {
    if misses == 0 {
        Seq::empty()
    } else {
        dec_digits(misses) + ":x: "@
    }
}

pub fn miss_text(misses: u32) -> (r: String)
    ensures
        r@ == spec_miss_text(misses as int),
{
    if misses == 0 {
        let out = String::new();
        proof {
            assert(out@ =~= spec_miss_text(misses as int));
        }
        out
    } else {
        let mut out = u64_to_dec(misses as u64);
        out.append(":x: ");
        out
    }
}

/// One description line of the leaderboard embed.
pub open spec fn spec_row_line(
    row: RowData,
    map_combo: Option<u32>,
    grades: GradeEmotes,
    i: int,
) -> Seq<char> {
    "**"@ + dec_digits(i) + ".** "@ + grades.spec_text(row.entry.grade) + " **["@
        + row.entry.username@ + "](https://osu.ppy.sh/users/"@ + dec_digits(
        row.entry.user_id as int,
    ) + ")**: "@ + comma_sep(dec_digits(row.entry.score as int)) + " [ "@ + spec_combo_text(
        row.entry,
        map_combo,
    ) + " ] **+"@ + spec_mods_text(row.entry.mods) + "**\n- **"@ + spec_two_frac(
        row.pp_centis as int,
    ) + "**/"@ + spec_two_frac(row.max_pp_centis as int) + "PP - "@ + spec_two_frac(
        row.entry.acc_hundredths as int,
    ) + "% - "@ + spec_miss_text(row.entry.count_miss as int) + "<t:"@
        + crate::text::dec_digits_signed(row.entry.ended_at_secs as int) + ":R>"@ + "\n"@
}

/// Render one description line.
#[verifier::rlimit(100)]
fn row_line(row: &RowData, map_combo: Option<u32>, grades: &GradeEmotes, i: u64) -> (r: String)
    ensures
        r@ == spec_row_line(*row, map_combo, *grades, i as int),
{
    let mut line = String::from_str("**");
    let num = u64_to_dec(i);
    line.append(num.as_str());
    line.append(".** ");
    line.append(grades.text(row.entry.grade).as_str());
    line.append(" **[");
    line.append(row.entry.username.as_str());
    line.append("](https://osu.ppy.sh/users/");
    let uid = u64_to_dec(row.entry.user_id as u64);
    line.append(uid.as_str());
    line.append(")**: ");
    let score = with_comma_u64(row.entry.score as u64);
    line.append(score.as_str());
    line.append(" [ ");
    let combo = combo_text(&row.entry, map_combo);
    line.append(combo.as_str());
    line.append(" ] **+");
    let mods = mods_text(row.entry.mods);
    line.append(mods.as_str());
    line.append("**\n- **");
    let pp = two_frac(row.pp_centis);
    line.append(pp.as_str());
    line.append("**/");
    let max_pp = two_frac(row.max_pp_centis);
    line.append(max_pp.as_str());
    line.append("PP - ");
    let acc = two_frac(row.entry.acc_hundredths as u64);
    line.append(acc.as_str());
    line.append("% - ");
    let miss = miss_text(row.entry.count_miss);
    line.append(miss.as_str());
    let ago = HowLongAgoDynamic::new(row.entry.ended_at_secs);
    let ago_text = ago.text();
    line.append(ago_text.as_str());
    line.append("\n");
    proof {
        assert(line@ =~= spec_row_line(*row, map_combo, *grades, i as int));
    }
    line
}

/// The description: all rows' lines, numbered from `idx + 1`.
pub open spec fn spec_description(
    rows: Seq<RowData>,
    map_combo: Option<u32>,
    grades: GradeEmotes,
    idx: int,
    k: int,
) -> Seq<char>
    decreases rows.len() - k,
{
    if k < 0 || k >= rows.len() {
        Seq::empty()
    } else {
        spec_row_line(rows[k], map_combo, grades, idx + 1 + k) + spec_description(
            rows,
            map_combo,
            grades,
            idx,
            k + 1,
        )
    }
}

/// The leaderboard response embed, as plain text parts.
pub struct LeaderboardEmbed {
    pub description: String,
    pub thumbnail: String,
    pub author_text: String,
    pub author_url: String,
    pub author_icon: Option<String>,
    pub footer_text: String,
    pub footer_icon: String,
}

impl LeaderboardEmbed {
    /// Build the embed for one page of rows, numbered from `idx + 1`;
    /// `pages` is the page counter shown in the footer.
    pub fn new(
        map: &MapInfo,
        rows: &Vec<RowData>,
        grades: &GradeEmotes,
        author_icon: &Option<String>,
        idx: usize,
        pages: (u64, u64),
    ) -> (r: LeaderboardEmbed)
        requires
            idx + rows@.len() <= u32::MAX,
        ensures
            r.description@ == if rows@.len() == 0 {
                "No scores found"@
            } else {
                spec_description(rows@, map.max_combo, *grades, idx as int, 0)
            },
            r.thumbnail@ == "https://b.ppy.sh/thumb/"@ + dec_digits(map.mapset_id as int)
                + "l.jpg"@,
            r.author_url@ == "https://osu.ppy.sh/b/"@ + dec_digits(map.map_id as int),
            r.author_text@ == (if map.mode is Mania {
                "["@ + dec_digits(map.cs as int) + "K] "@
            } else {
                Seq::empty()
            }) + map.artist@ + " - "@ + map.title@ + " ["@ + map.version@ + "] ["@ + spec_two_frac(
                map.stars_centis as int,
            ) + "*]"@,
            r.footer_text@ == map.status.spec_text() + " map by "@ + map.creator_name@
                + " - Page "@ + dec_digits(pages.0 as int) + "/"@ + dec_digits(pages.1 as int),
            r.footer_icon@ == "https://a.ppy.sh/"@ + dec_digits(map.creator_id as int),
            author_icon is Some ==> (r.author_icon matches Some(icon) && icon@ == author_icon->0@),
            author_icon is None ==> r.author_icon is None,
    {
        let mut author_text = String::new();
        match map.mode {
            GameMode::Mania => {
                author_text.append("[");
                let k = u64_to_dec(map.cs as u64);
                author_text.append(k.as_str());
                author_text.append("K] ");
            },
            _ => {},
        }
        author_text.append(map.artist.as_str());
        author_text.append(" - ");
        author_text.append(map.title.as_str());
        author_text.append(" [");
        author_text.append(map.version.as_str());
        author_text.append("] [");
        let stars = two_frac(map.stars_centis as u64);
        author_text.append(stars.as_str());
        author_text.append("*]");
        proof {
            assert(author_text@ =~= (if map.mode is Mania {
                "["@ + dec_digits(map.cs as int) + "K] "@
            } else {
                Seq::<char>::empty()
            }) + map.artist@ + " - "@ + map.title@ + " ["@ + map.version@ + "] ["@ + spec_two_frac(
                map.stars_centis as int,
            ) + "*]"@);
        }
        let description = if rows.len() == 0 {
            String::from_str("No scores found")
        } else {
            let mut description = String::new();
            let mut k: usize = 0;
            while k < rows.len()
                invariant
                    k <= rows@.len(),
                    idx + rows@.len() <= u32::MAX,
                    description@ + spec_description(
                        rows@,
                        map.max_combo,
                        *grades,
                        idx as int,
                        k as int,
                    ) == spec_description(rows@, map.max_combo, *grades, idx as int, 0),
                decreases rows@.len() - k,
            {
                let ghost pre = description@;
                let row = &rows[k];
                let line = row_line(row, map.max_combo, grades, (idx as u64) + (k as u64) + 1);
                description.append(line.as_str());
                proof {
                    assert(description@ + spec_description(
                        rows@,
                        map.max_combo,
                        *grades,
                        idx as int,
                        k + 1,
                    ) =~= pre + spec_description(
                        rows@,
                        map.max_combo,
                        *grades,
                        idx as int,
                        k as int,
                    ));
                }
                k += 1;
            }
            description
        };
        let mut thumbnail = String::from_str("https://b.ppy.sh/thumb/");
        let mapset = u64_to_dec(map.mapset_id as u64);
        thumbnail.append(mapset.as_str());
        thumbnail.append("l.jpg");
        let mut author_url = String::from_str("https://osu.ppy.sh/b/");
        let mid = u64_to_dec(map.map_id as u64);
        author_url.append(mid.as_str());
        let mut footer_text = String::from_str(map.status.text());
        footer_text.append(" map by ");
        footer_text.append(map.creator_name.as_str());
        footer_text.append(" - Page ");
        let p0 = u64_to_dec(pages.0);
        footer_text.append(p0.as_str());
        footer_text.append("/");
        let p1 = u64_to_dec(pages.1);
        footer_text.append(p1.as_str());
        let mut footer_icon = String::from_str("https://a.ppy.sh/");
        let cid = u64_to_dec(map.creator_id as u64);
        footer_icon.append(cid.as_str());
        let author_icon = match author_icon {
            Some(icon) => Some(icon.clone()),
            None => None,
        };
        proof {
            assert(thumbnail@ =~= "https://b.ppy.sh/thumb/"@ + dec_digits(map.mapset_id as int)
                + "l.jpg"@);
            assert(author_url@ =~= "https://osu.ppy.sh/b/"@ + dec_digits(map.map_id as int));
            assert(footer_text@ =~= map.status.spec_text() + " map by "@ + map.creator_name@
                + " - Page "@ + dec_digits(pages.0 as int) + "/"@ + dec_digits(pages.1 as int));
            assert(footer_icon@ =~= "https://a.ppy.sh/"@ + dec_digits(map.creator_id as int));
        }
        LeaderboardEmbed {
            description,
            thumbnail,
            author_text,
            author_url,
            author_icon,
            footer_text,
            footer_icon,
        }
    }
}

/// A live multi-page leaderboard response: the session state machine plus
/// everything a page rebuild needs.
pub struct LeaderboardPagination {
    pub session: PaginationSession,
    pub map: MapInfo,
    pub scores: Vec<ScoreEntry>,
    pub first_place_icon: Option<String>,
}

impl LeaderboardPagination {
    pub open spec fn wf(self) -> bool {
        &&& self.session.wf()
        &&& self.session.pages.per_page == 10
        &&& self.session.pages.total_pages == spec_total_pages(10, self.scores@.len() as int)
    }

    /// A fresh session over the fetched scores, ten per page, closing
    /// after sixty idle seconds; multi-step controls appear beyond ten
    /// pages and jump five pages.
    pub fn new(
        msg: u64,
        owner: u64,
        map: MapInfo,
        scores: Vec<ScoreEntry>,
        first_place_icon: Option<String>,
        now: u64,
    ) -> (r: Self)
        ensures
            r.wf(),
            r.session.cursor == 0,
            r.session.msg == msg,
            r.session.owner == owner,
            r.session.timeout_ms == 60000,
            r.session.last_activity == now,
            !r.session.closed,
            r.scores@ == scores@,
            r.map == map,
            r.first_place_icon == first_place_icon,
    {
        let pages = Pages::new(10, scores.len());
        let session = PaginationSession::new(msg, owner, pages, None, false, 10, 5, 60000, now);
        LeaderboardPagination { session, map, scores, first_place_icon }
    }

    /// The entry range of the current page.
    pub fn page_bounds(&self) -> (r: (usize, usize))
        requires
            self.wf(),
        ensures
            r.0 == self.session.cursor * 10,
            r.0 <= r.1 <= self.scores@.len(),
            r.1 == if r.0 + 10 <= self.scores@.len() {
                r.0 + 10
            } else {
                self.scores@.len() as int
            },
            self.scores@.len() > 0 ==> r.0 < self.scores@.len(),
    {
        let len = self.scores.len();
        proof {
            let total = self.session.pages.total_pages as int;
            if len > 0 {
                vstd::arithmetic::div_mod::lemma_fundamental_div_mod(len - 1, 10);
                assert(self.session.cursor < total);
                assert(total == (len - 1) / 10 + 1);
                assert(self.session.cursor * 10 <= ((len - 1) / 10) * 10) by (nonlinear_arith)
                    requires
                        self.session.cursor <= (len - 1) / 10,
                ;
                assert(((len - 1) / 10) * 10 == 10 * ((len - 1) / 10)) by (nonlinear_arith);
            } else {
                assert(total == 1);
                assert(self.session.cursor == 0);
            }
        }
        let start = if len == 0 {
            0
        } else {
            self.session.cursor * 10
        };
        proof {
            if len == 0 {
                assert(self.session.cursor == 0);
            }
        }
        let end = if len - start > 10 {
            start + 10
        } else {
            len
        };
        (start, end)
    }
}

} // verus!
