use sdvx_b50::b50::{
    find_player, generate_b50_inner, player_list, scan_inputs_inner, select_b50, sort_records,
    total_volforce,
};
use sdvx_b50::jacket::{JacketEntry, JacketIndex};
use sdvx_b50::models::{MusicEntry, MusicRecord, PlayerSummary, Profile, SDVX_VERSION};
use sdvx_b50::savedata::{count_version7_scores, read_nedb_lines};
use std::collections::HashMap;

const DB: &str = "{\"collection\":\"profile\",\"version\":7,\"__refid\":\"R1\",\"name\":\"BETA\",\"id\":2}\n{\"collection\":\"profile\",\"version\":7,\"__refid\":\"R2\",\"name\":\"ALPHA\",\"id\":1}\n{\"collection\":\"profile\",\"version\":7,\"__refid\":\"R3\",\"name\":\"ALPHA\",\"id\":3}\n{\"collection\":\"profile\",\"version\":7,\"__refid\":\"R4\",\"name\":\"NOBODY\",\"id\":4}\n{\"collection\":\"profile\",\"version\":7,\"__refid\":\"R0\",\"name\":\"ZED\",\"id\":5}\n{\"collection\":\"music\",\"version\":7,\"__refid\":\"R1\",\"mid\":1,\"type\":0}\n{\"collection\":\"music\",\"version\":7,\"__refid\":\"R2\",\"mid\":1,\"type\":0}\n{\"collection\":\"music\",\"version\":7,\"__refid\":\"R3\",\"mid\":1,\"type\":0}\n{\"collection\":\"music\",\"version\":7,\"__refid\":\"R0\",\"mid\":1,\"type\":0}\n{\"collection\":\"music\",\"version\":7,\"__refid\":\"R0\",\"mid\":2,\"type\":0}\n";

fn record(mid: u32, chart_type: u8, score: u32, volforce: u32) -> MusicRecord {
    MusicRecord { mid, chart_type, score, clear: 2, grade: 8, volforce }
}

fn entry(title: &str, inf_ver: Option<u8>, levels: Vec<Option<u32>>) -> MusicEntry {
    MusicEntry { title: title.to_string(), inf_ver, levels }
}

#[test]
fn players_with_scores_are_listed_by_count_then_name_then_refid() {
    let scan = scan_inputs_inner(DB, "db").unwrap();
    assert_eq!(scan.version, SDVX_VERSION);
    let listed: Vec<(&str, &str, usize)> = scan
        .players
        .iter()
        .map(|p| (p.refid.as_str(), p.name.as_str(), p.score_count))
        .collect();
    assert_eq!(
        listed,
        vec![("R0", "ZED", 2), ("R2", "ALPHA", 1), ("R3", "ALPHA", 1), ("R1", "BETA", 1)]
    );
}

#[test]
fn a_scan_reports_a_bad_line() {
    let err = scan_inputs_inner("{}\n[oops\n", "db").err().unwrap();
    assert!(err.starts_with("Failed to parse db line 2 as JSON: "), "{err}");
}

#[test]
fn player_list_keeps_only_players_with_scores() {
    let docs = read_nedb_lines(DB, "db").unwrap();
    let counts = count_version7_scores(&docs);
    let profiles = vec![
        Profile { refid: "R4".to_string(), name: "NOBODY".to_string(), sdvx_id: 4 },
        Profile { refid: "R1".to_string(), name: "BETA".to_string(), sdvx_id: 2 },
    ];
    let players = player_list(profiles, &counts);
    assert_eq!(players.len(), 1);
    assert_eq!(players[0].refid, "R1");
    assert_eq!(players[0].sdvx_id, 2);
}

#[test]
fn the_selected_player_needs_a_profile() {
    let docs = read_nedb_lines(DB, "db").unwrap();
    let counts = count_version7_scores(&docs);
    let profiles = vec![
        Profile { refid: "R4".to_string(), name: "NOBODY".to_string(), sdvx_id: 4 },
        Profile { refid: "R0".to_string(), name: "ZED".to_string(), sdvx_id: 5 },
    ];
    let p = find_player(&profiles, &counts, "R4").unwrap();
    assert_eq!((p.name.as_str(), p.score_count), ("NOBODY", 0));
    let p = find_player(&profiles, &counts, "R0").unwrap();
    assert_eq!((p.name.as_str(), p.sdvx_id, p.score_count), ("ZED", 5, 2));
    assert_eq!(
        find_player(&profiles, &counts, "R9").err(),
        Some("Selected player has no SDVX 7 profile.".to_string())
    );
}

#[test]
fn records_sort_by_volforce_then_score_then_song_then_chart() {
    let records = vec![
        record(5, 1, 100, 10),
        record(3, 2, 100, 10),
        record(3, 1, 100, 10),
        record(9, 0, 200, 10),
        record(1, 0, 50, 20),
    ];
    let sorted = sort_records(&records);
    let keys: Vec<(u32, u8)> = sorted.iter().map(|r| (r.mid, r.chart_type)).collect();
    assert_eq!(keys, vec![(1, 0), (9, 0), (3, 1), (3, 2), (5, 1)]);
}

#[test]
fn the_b50_ranks_fifty_known_records() {
    let mut music_db = HashMap::new();
    for mid in 0..60u32 {
        music_db.insert(mid, entry("song", None, vec![Some(10); 6]));
    }
    let mut records: Vec<MusicRecord> = (0..60u32).map(|mid| record(mid, 0, 1000, mid)).collect();
    records.push(record(999, 0, 1000, 100_000));
    let top = select_b50(&records, &music_db);
    assert_eq!(top.len(), 50);
    assert_eq!(top[0].mid, 59);
    assert_eq!(top[49].mid, 10);
    assert_eq!(total_volforce(&top), (10..60u64).sum::<u64>());
}

#[test]
fn a_short_b50_holds_every_known_record() {
    let mut music_db = HashMap::new();
    music_db.insert(1, entry("one", None, vec![Some(1)]));
    let records = vec![record(2, 0, 1, 5), record(1, 0, 1, 4), record(1, 1, 1, 6)];
    let top = select_b50(&records, &music_db);
    assert_eq!(top, vec![record(1, 1, 1, 6), record(1, 0, 1, 4)]);
    assert_eq!(total_volforce(&top), 10);
    assert_eq!(total_volforce(&Vec::new()), 0);
}

#[test]
fn b50_cards_take_titles_levels_and_jackets() {
    let mut music_db = HashMap::new();
    music_db.insert(10, entry("Ten", Some(4), vec![Some(5), Some(12), Some(175), Some(185)]));
    music_db.insert(20, entry("Twenty", None, vec![Some(3)]));
    let mut jackets = JacketIndex::new();
    jackets.add(10, JacketEntry { number: 1, path: "m/jk_10_1.png".to_string() });
    jackets.add(10, JacketEntry { number: 4, path: "m/jk_10_4.png".to_string() });
    jackets.add(10, JacketEntry { number: 3, path: "m/jk_10_3.png".to_string() });
    let player = PlayerSummary { refid: "R".to_string(), name: "N".to_string(), sdvx_id: 7, score_count: 3 };
    let records = vec![
        MusicRecord { mid: 10, chart_type: 3, score: 9_900_000, clear: 6, grade: 10, volforce: 400 },
        MusicRecord { mid: 20, chart_type: 2, score: 9_000_000, clear: 0, grade: 1, volforce: 100 },
        MusicRecord { mid: 30, chart_type: 0, score: 9_000_000, clear: 2, grade: 8, volforce: 500 },
        MusicRecord { mid: 10, chart_type: 1, score: 9_500_000, clear: 2, grade: 8, volforce: 300 },
    ];
    let plan = generate_b50_inner(player, &records, &music_db, &jackets);
    assert_eq!(plan.version, 7);
    assert_eq!(plan.player.refid, "R");
    assert_eq!(plan.total_volforce, 800);
    assert_eq!(plan.cards.len(), 3);

    let c = &plan.cards[0];
    assert_eq!((c.rank, c.mid, c.title.as_str()), (1, 10, "Ten"));
    assert_eq!((c.difficulty_label.as_str(), c.level), ("HVN", Some(185)));
    assert_eq!((c.score, c.clear_lamp.as_str(), c.volforce), (9_900_000, "PUC", 400));
    assert_eq!(c.jacket_path.as_deref(), Some("m/jk_10_4.png"));

    let c = &plan.cards[1];
    assert_eq!((c.rank, c.mid, c.difficulty_label.as_str(), c.level), (2, 10, "ADV", Some(12)));
    assert_eq!(c.jacket_path.as_deref(), Some("m/jk_10_1.png"));

    let c = &plan.cards[2];
    assert_eq!((c.rank, c.mid, c.title.as_str()), (3, 20, "Twenty"));
    assert_eq!((c.difficulty_label.as_str(), c.level, c.clear_lamp.as_str()), ("EXH", None, "ND"));
    assert_eq!(c.jacket_path, None);
}
