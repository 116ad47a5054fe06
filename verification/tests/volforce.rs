use sdvx_b50::models::{MusicEntry, MusicRecord};
use sdvx_b50::volforce::{better_clear, chart_level, clear_factor, clear_lamp, difficulty_label, grade_factor};
use std::collections::HashMap;

#[test]
fn clear_and_grade_factors_in_hundredths() {
    let clears: Vec<u32> = (0..=7).map(clear_factor).collect();
    assert_eq!(clears, vec![0, 50, 100, 102, 104, 106, 110, 0]);
    let grades: Vec<u32> = (0..=11).map(grade_factor).collect();
    assert_eq!(grades, vec![0, 80, 82, 85, 88, 91, 94, 97, 100, 102, 105, 0]);
}

#[test]
fn the_better_clear_has_the_larger_factor() {
    assert_eq!(better_clear(1, 2), 2);
    assert_eq!(better_clear(2, 1), 2);
    assert_eq!(better_clear(6, 5), 6);
    assert_eq!(better_clear(3, 3), 3);
    assert_eq!(better_clear(0, 9), 0);
    assert_eq!(better_clear(9, 1), 1);
    assert_eq!(better_clear(2, better_clear(6, 4)), better_clear(better_clear(2, 6), 4));
}

#[test]
fn difficulty_labels_follow_chart_type_and_infinite_version() {
    assert_eq!(difficulty_label(0, None), "NOV");
    assert_eq!(difficulty_label(1, Some(5)), "ADV");
    assert_eq!(difficulty_label(2, None), "EXH");
    assert_eq!(difficulty_label(3, None), "INF");
    assert_eq!(difficulty_label(3, Some(2)), "INF");
    assert_eq!(difficulty_label(3, Some(3)), "GRV");
    assert_eq!(difficulty_label(3, Some(4)), "HVN");
    assert_eq!(difficulty_label(3, Some(5)), "VVD");
    assert_eq!(difficulty_label(3, Some(6)), "XCD");
    assert_eq!(difficulty_label(3, Some(7)), "INF");
    assert_eq!(difficulty_label(4, None), "MXM");
    assert_eq!(difficulty_label(5, None), "ULT");
    assert_eq!(difficulty_label(6, None), "UNK");
}

#[test]
fn clear_lamps_have_names() {
    let lamps: Vec<String> = (0..=7).map(clear_lamp).collect();
    assert_eq!(lamps, vec!["ND", "C", "EC", "HC", "MC", "UC", "PUC", "ND"]);
}

#[test]
fn chart_levels_come_from_the_music_database() {
    let mut db = HashMap::new();
    db.insert(1, MusicEntry { title: "t".to_string(), inf_ver: None, levels: vec![Some(3), None, Some(185)] });
    let rec = |mid: u32, chart_type: u8| MusicRecord { mid, chart_type, score: 0, clear: 0, grade: 0, volforce: 0 };
    assert_eq!(chart_level(&rec(1, 0), &db), Some(3));
    assert_eq!(chart_level(&rec(1, 1), &db), None);
    assert_eq!(chart_level(&rec(1, 2), &db), Some(185));
    assert_eq!(chart_level(&rec(1, 3), &db), None);
    assert_eq!(chart_level(&rec(2, 0), &db), None);
}
