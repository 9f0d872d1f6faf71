//! The leaderboard pipeline: URL building, fan-out plan, merge, pagination
//! and the response embed, end to end on concrete values.

use botcore::{
    get_mods, get_osu_map_id, get_osu_mapset_id, leaderboard_url, merge_batch,
    merge_leaderboard_results, plan_leaderboard, GameMode, Grade, GradeEmotes, LeaderboardEmbed,
    LeaderboardPagination, MapInfo, ModSelection, Mods, PageChange, RankStatus, RowData,
    ScoreEntry, SessionAction, SessionEvent,
};

fn entry(user_id: u32, score: u32) -> ScoreEntry {
    ScoreEntry {
        score_id: user_id as u64,
        user_id,
        username: format!("player{user_id}"),
        country_code: String::from("US"),
        mode: GameMode::Osu,
        mods: Mods { bits: 0 },
        score,
        acc_hundredths: 9876,
        max_combo: 500,
        grade: Grade::S,
        pp_centis: None,
        ended_at_secs: 1_600_000_000,
        count_50: 1,
        count_100: 20,
        count_300: 400,
        count_geki: 100,
        count_katu: 10,
        count_miss: 0,
    }
}

#[test]
fn merge_keeps_higher_score_per_player() {
    let a = vec![entry(1, 100), entry(2, 900), entry(3, 500)];
    let b = vec![entry(2, 300), entry(1, 800), entry(4, 400)];
    let merged = merge_batch(a, b);
    let ids: Vec<u32> = merged.iter().map(|e| e.user_id).collect();
    let scores: Vec<u32> = merged.iter().map(|e| e.score).collect();
    assert_eq!(ids, vec![2, 1, 3, 4]);
    assert_eq!(scores, vec![900, 800, 500, 400]);
    // Strictly descending and unique by player here.
    for w in scores.windows(2) {
        assert!(w[0] > w[1]);
    }
}

#[test]
fn merge_truncates_to_fifty() {
    let a: Vec<ScoreEntry> = (0..40).map(|i| entry(i, 10_000 - i)).collect();
    let b: Vec<ScoreEntry> = (40..80).map(|i| entry(i, 10_000 - i)).collect();
    let merged = merge_batch(a, b);
    assert_eq!(merged.len(), 50);
    assert_eq!(merged[0].score, 10_000);
    assert_eq!(merged[49].score, 10_000 - 49);
    // Every omitted player's best is no better than the last kept entry.
    assert!((50..80).all(|i| 10_000 - i <= merged[49].score));
}

#[test]
fn merge_ties_keep_first_occurrence() {
    let mut first = entry(7, 555);
    first.username = String::from("early");
    let mut second = entry(7, 555);
    second.username = String::from("late");
    let merged = merge_batch(vec![first], vec![second]);
    assert_eq!(merged.len(), 1);
    assert_eq!(merged[0].username, "early");
}

#[test]
fn plan_fans_out_to_four_requests_for_mania_with_speed_mod() {
    let dt = Mods { bits: 0x40 };
    let plan = plan_leaderboard(Some(dt), GameMode::Mania);
    assert_eq!(plan.requests.len(), 4);
    // Base, base plus mirror, swapped plus mirror, swapped.
    assert_eq!(plan.requests[0], Some(Mods { bits: 0x40 }));
    assert_eq!(plan.requests[1], Some(Mods { bits: 0x40 | 0x4000_0000 }));
    assert_eq!(plan.requests[2], Some(Mods { bits: 0x40 | 0x200 | 0x4000_0000 }));
    assert_eq!(plan.requests[3], Some(Mods { bits: 0x40 | 0x200 }));
}

#[test]
fn plan_single_request_without_special_mods() {
    let hd = Mods { bits: 0x8 };
    let plan = plan_leaderboard(Some(hd), GameMode::Osu);
    assert_eq!(plan.requests.len(), 1);
    let results = vec![vec![entry(1, 10), entry(2, 20)]];
    let merged = merge_leaderboard_results(&plan, results);
    // A single fetch is handed back as received.
    assert_eq!(merged.len(), 2);
    assert_eq!(merged[0].user_id, 1);
}

#[test]
fn plan_two_requests_for_nightcore() {
    let nc = Mods { bits: 0x200 };
    let plan = plan_leaderboard(Some(nc), GameMode::Osu);
    assert_eq!(plan.requests.len(), 2);
    // Nightcore swaps to double time.
    assert_eq!(plan.requests[1], Some(Mods { bits: 0x40 }));
    let results = vec![vec![entry(1, 10)], vec![entry(1, 30), entry(2, 5)]];
    let merged = merge_leaderboard_results(&plan, results);
    assert_eq!(merged.len(), 2);
    assert_eq!(merged[0].user_id, 1);
    assert_eq!(merged[0].score, 30);
}

#[test]
fn leaderboard_urls() {
    assert_eq!(
        leaderboard_url(2240404, None),
        "https://osu.ppy.sh/beatmaps/2240404/scores?type=country"
    );
    assert_eq!(
        leaderboard_url(1, Some(Mods { bits: 0 })),
        "https://osu.ppy.sh/beatmaps/1/scores?type=country&mods[]=NM"
    );
    assert_eq!(
        leaderboard_url(1, Some(Mods { bits: 0x8 | 0x10 })),
        "https://osu.ppy.sh/beatmaps/1/scores?type=country&mods[]=HD&mods[]=HR"
    );
    assert_eq!(botcore::map_file_url(42), "https://osu.ppy.sh/osu/42");
}

#[test]
fn map_and_mapset_ids() {
    assert_eq!(get_osu_map_id("2240404"), Some(2240404));
    assert_eq!(get_osu_map_id("https://osu.ppy.sh/b/123 tail"), Some(123));
    assert_eq!(get_osu_map_id("see https://osu.ppy.sh/beatmaps/77"), Some(77));
    assert_eq!(
        get_osu_map_id("https://osu.ppy.sh/beatmapsets/902425#osu/2240404"),
        Some(2240404)
    );
    assert_eq!(get_osu_map_id("https://osu.ppy.sh/beatmapsets/902425"), None);
    assert_eq!(get_osu_map_id("no url here"), None);
    assert_eq!(get_osu_mapset_id("https://osu.ppy.sh/s/555"), Some(555));
    assert_eq!(
        get_osu_mapset_id("https://osu.ppy.sh/beatmapsets/902425#osu/2240404"),
        Some(902425)
    );
    assert_eq!(get_osu_mapset_id("4294967296"), None);
}

#[test]
fn mod_filters() {
    assert_eq!(
        get_mods("+hdhr"),
        Some(ModSelection::Include(Mods { bits: 0x8 | 0x10 }))
    );
    assert_eq!(
        get_mods("+hdhr!"),
        Some(ModSelection::Exact(Mods { bits: 0x8 | 0x10 }))
    );
    assert_eq!(
        get_mods("-hdnf!"),
        Some(ModSelection::Exclude(Mods { bits: 0x8 | 0x1 }))
    );
    assert_eq!(get_mods("+zz"), None);
    assert_eq!(get_mods("hdhr"), None);
    assert_eq!(get_mods("-hd"), None);
}

fn grades() -> GradeEmotes {
    GradeEmotes {
        xh: String::from("XH"),
        x: String::from("X"),
        sh: String::from("SH"),
        s: String::from("S"),
        a: String::from("A"),
        b: String::from("B"),
        c: String::from("C"),
        d: String::from("D"),
        f: String::from("F"),
    }
}

fn map_info() -> MapInfo {
    MapInfo {
        map_id: 2240404,
        mapset_id: 902425,
        mode: GameMode::Osu,
        version: String::from("Extra"),
        stars_centis: 612,
        cs: 4,
        status: RankStatus::Ranked,
        max_combo: Some(1200),
        artist: String::from("Artist"),
        title: String::from("Title"),
        creator_name: String::from("Creator"),
        creator_id: 99,
    }
}

#[test]
fn leaderboard_end_to_end() {
    // Sixty matching scores, no modifier filter on a standard map: the
    // plan is a single query whose result is handed back as fetched.
    let plan = plan_leaderboard(None, GameMode::Osu);
    assert_eq!(plan.requests.len(), 1);
    let fetched: Vec<ScoreEntry> = (1..=60).map(|i| entry(i, 100_000 - i)).collect();
    let scores = merge_leaderboard_results(&plan, vec![fetched]);
    assert_eq!(scores.len(), 60);

    let mut pagination = LeaderboardPagination::new(777, 42, map_info(), scores, None, 0);
    assert_eq!(pagination.session.pages.total_pages, 6);

    // Page one shows entries one through ten.
    let (start, end) = pagination.page_bounds();
    assert_eq!((start, end), (0, 10));
    let rows: Vec<RowData> = pagination.scores[start..end]
        .iter()
        .map(|e| RowData { entry: e.clone(), pp_centis: 30012, max_pp_centis: 41000 })
        .collect();
    let embed = LeaderboardEmbed::new(&map_info(), &rows, &grades(), &None, start, (1, 6));
    assert!(embed.description.starts_with("**1.** S **[player1]"));
    assert!(embed.description.contains("**10.**"));
    assert!(!embed.description.contains("**11.**"));
    assert_eq!(embed.footer_text, "Ranked map by Creator - Page 1/6");

    // One step forward shows entries eleven through twenty.
    let action = pagination.session.on_event(SessionEvent::Reaction {
        user: 42,
        change: PageChange::StepForward,
        now: 1000,
    });
    assert_eq!(action, SessionAction::Rebuild { cursor: 1 });
    let (start, end) = pagination.page_bounds();
    assert_eq!((start, end), (10, 20));

    // After sixty seconds of inactivity the session closes and removes its
    // controls; a further step is ignored.
    let action = pagination.session.on_event(SessionEvent::Idle { now: 61_000 });
    assert_eq!(action, SessionAction::RemoveControls);
    let action = pagination.session.on_event(SessionEvent::Reaction {
        user: 42,
        change: PageChange::StepForward,
        now: 61_001,
    });
    assert_eq!(action, SessionAction::Ignore);
    let (start, end) = pagination.page_bounds();
    assert_eq!((start, end), (10, 20));
}

#[test]
fn sixty_entry_listing_makes_six_pages() {
    let pages = botcore::Pages::new(10, 60);
    assert_eq!(pages.total_pages, 6);
    assert_eq!(botcore::Pages::new(10, 0).total_pages, 1);
    assert_eq!(botcore::Pages::new(10, 61).total_pages, 7);
}

#[test]
fn embed_without_scores() {
    let embed = LeaderboardEmbed::new(&map_info(), &Vec::new(), &grades(), &None, 0, (1, 1));
    assert_eq!(embed.description, "No scores found");
    assert_eq!(embed.thumbnail, "https://b.ppy.sh/thumb/902425l.jpg");
    assert_eq!(embed.author_url, "https://osu.ppy.sh/b/2240404");
    assert_eq!(embed.footer_icon, "https://a.ppy.sh/99");
    assert_eq!(embed.author_text, "Artist - Title [Extra] [6.12*]");
}

#[test]
fn grades_from_counts() {
    let mut e = entry(1, 100);
    // All three hundreds: a perfect grade.
    e.count_100 = 0;
    e.count_50 = 0;
    e.count_miss = 0;
    e.count_300 = 100;
    assert_eq!(e.osu_grade(), Grade::X);
    e.mods = Mods { bits: 0x8 };
    assert_eq!(e.osu_grade(), Grade::XH);
    // A high ratio with a miss can only reach an A.
    e.mods = Mods { bits: 0 };
    e.count_300 = 95;
    e.count_100 = 4;
    e.count_miss = 1;
    assert_eq!(e.osu_grade(), Grade::A);
    assert_eq!(e.ctb_grade(10_000), Grade::X);
    assert_eq!(e.ctb_grade(9_850), Grade::S);
    assert_eq!(e.mania_grade(9_501), Grade::S);
    assert_eq!(e.mania_grade(9_100), Grade::A);
}
