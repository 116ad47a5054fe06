use sdvx_b50::models::MusicRecord;
use sdvx_b50::savedata::{
    aggregate_music_records, count_version7_scores, extract_music_records, extract_profiles,
    read_nedb_lines, savedata_db_path, validate_savedata_dir, SDVX_DB_FILE,
};

const DB: &str = "{\"collection\":\"profile\",\"version\":7,\"__refid\":\"AAA\",\"name\":\"ALPHA\",\"id\":12345678}\n{\"collection\":\"profile\",\"version\":7,\"__refid\":\"AAA\",\"name\":\"ALPHA AGAIN\",\"id\":1}\n\n   \n{\"collection\":\"profile\",\"version\":6,\"__refid\":\"BBB\",\"name\":\"OLD\"}\n{\"collection\":\"profile\",\"version\":7,\"__refid\":\"CCC\"}\n{\"collection\":\"music\",\"version\":7,\"__refid\":\"AAA\",\"mid\":100,\"type\":2,\"score\":9500000,\"clear\":2,\"grade\":8,\"volforce\":300}\n{\"collection\":\"music\",\"version\":7,\"__refid\":\"AAA\",\"mid\":100,\"type\":2,\"score\":9700000,\"clear\":1,\"grade\":9,\"volforce\":310}\n{\"collection\":\"music\",\"version\":7,\"__refid\":\"AAA\",\"mid\":100,\"type\":3,\"score\":9000000,\"clear\":3,\"grade\":7,\"volforce\":280}\n{\"collection\":\"music\",\"version\":6,\"__refid\":\"AAA\",\"mid\":101,\"type\":0,\"score\":1}\n{\"collection\":\"music\",\"version\":7,\"__refid\":\"AAA\",\"type\":1,\"score\":5}\n{\"collection\":\"music\",\"version\":7,\"__refid\":\"CCC\",\"mid\":7,\"type\":1}\n";

fn record(mid: u32, chart_type: u8, score: u32, clear: u8, grade: u8, volforce: u32) -> MusicRecord {
    MusicRecord { mid, chart_type, score, clear, grade, volforce }
}

#[test]
fn savedata_folder_checks_come_in_order() {
    assert_eq!(
        validate_savedata_dir("save", false, true),
        Err("The selected savedata path is not a directory.".to_string())
    );
    assert_eq!(
        validate_savedata_dir("save", true, false),
        Err("Missing sdvx@asphyxia.db under the selected savedata path.".to_string())
    );
    assert_eq!(validate_savedata_dir("save", true, true), Ok(format!("save/{SDVX_DB_FILE}")));
}

#[test]
fn json_lines_read_their_fields() {
    let docs = read_nedb_lines(
        r#"{"collection":"music","version":7,"mid":-3,"type":"x","score":12,"clear":1.5}"#,
        "db",
    )
    .unwrap();
    let doc = &docs[0];
    assert_eq!(doc.collection.as_deref(), Some("music"));
    assert_eq!(doc.version, Some(7));
    assert_eq!(doc.mid, None);
    assert_eq!(doc.chart_type, None);
    assert_eq!(doc.score, Some(12));
    assert_eq!(doc.clear, None);
    assert!(read_nedb_lines("{", "db").is_err());
}

#[test]
fn the_database_file_is_in_the_savedata_folder() {
    assert_eq!(savedata_db_path("/save"), "/save/sdvx@asphyxia.db");
}

#[test]
fn blank_lines_are_skipped() {
    let docs = read_nedb_lines(DB, "db").unwrap();
    assert_eq!(docs.len(), 10);
}

#[test]
fn a_bad_line_is_reported_with_its_number() {
    let content = "{\"collection\":\"music\"}\n\n  not json\n";
    let err = read_nedb_lines(content, "/save/sdvx@asphyxia.db").unwrap_err();
    assert!(err.starts_with("Failed to parse /save/sdvx@asphyxia.db line 3 as JSON: "), "{err}");
}

#[test]
fn profiles_are_deduplicated_by_refid() {
    let docs = read_nedb_lines(DB, "db").unwrap();
    let profiles = extract_profiles(&docs);
    assert_eq!(profiles.len(), 2);
    assert_eq!(profiles[0].refid, "AAA");
    assert_eq!(profiles[0].name, "ALPHA");
    assert_eq!(profiles[0].sdvx_id, 12345678);
    assert_eq!(profiles[1].refid, "CCC");
    assert_eq!(profiles[1].name, "UNKNOWN");
    assert_eq!(profiles[1].sdvx_id, 0);
}

#[test]
fn version7_scores_are_counted_per_player() {
    let docs = read_nedb_lines(DB, "db").unwrap();
    let counts = count_version7_scores(&docs);
    assert_eq!(counts.get("AAA"), Some(&4));
    assert_eq!(counts.get("CCC"), Some(&1));
    assert_eq!(counts.get("BBB"), None);
}

#[test]
fn records_need_a_song_and_chart() {
    let docs = read_nedb_lines(DB, "db").unwrap();
    let records = extract_music_records(&docs, "AAA");
    assert_eq!(
        records,
        vec![
            record(100, 2, 9_500_000, 2, 8, 300),
            record(100, 2, 9_700_000, 1, 9, 310),
            record(100, 3, 9_000_000, 3, 7, 280),
        ]
    );
    let other = extract_music_records(&docs, "CCC");
    assert_eq!(other, vec![record(7, 1, 0, 0, 0, 0)]);
}

#[test]
fn duplicate_charts_keep_the_best_of_each() {
    let merged = aggregate_music_records(vec![
        record(100, 2, 9_500_000, 2, 8, 300),
        record(100, 2, 9_700_000, 1, 9, 310),
        record(100, 3, 9_000_000, 3, 7, 280),
        record(100, 2, 9_600_000, 6, 8, 320),
    ]);
    assert_eq!(
        merged,
        vec![record(100, 2, 9_700_000, 6, 9, 300), record(100, 3, 9_000_000, 3, 7, 280)]
    );
}

#[test]
fn an_unknown_lamp_does_not_replace_a_known_one() {
    let merged = aggregate_music_records(vec![record(1, 0, 10, 2, 1, 0), record(1, 0, 5, 9, 1, 0)]);
    assert_eq!(merged, vec![record(1, 0, 10, 2, 1, 0)]);
    let merged = aggregate_music_records(vec![record(1, 0, 10, 0, 1, 0), record(1, 0, 5, 9, 1, 0)]);
    assert_eq!(merged[0].clear, 0);
}
