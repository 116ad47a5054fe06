use sdvx_b50::music_db::{
    music_db_path, music_dir_path, parse_music_db, translate_special_chars,
    validate_data_dir,
};

#[test]
fn data_folder_checks_come_in_order() {
    assert_eq!(
        validate_data_dir(false, true, true),
        Err("The selected game data path is not a directory.".to_string())
    );
    assert_eq!(
        validate_data_dir(true, false, false),
        Err("Missing others/music_db.xml under the selected game data path.".to_string())
    );
    assert_eq!(
        validate_data_dir(true, true, false),
        Err("Missing music directory under the selected game data path.".to_string())
    );
    assert_eq!(validate_data_dir(true, true, true), Ok(()));
}

#[test]
fn music_database_paths_are_under_the_data_folder() {
    assert_eq!(music_db_path("/game/data"), "/game/data/others/music_db.xml");
    assert_eq!(music_dir_path("/game/data"), "/game/data/music");
}

#[test]
fn special_characters_are_translated() {
    assert_eq!(translate_special_chars("龕 and 齷 Ryu??"), "€ and é Ryu☆");
    assert_eq!(translate_special_chars("plain"), "plain");
}

#[test]
fn titles_are_decoded_from_shift_jis() {
    let mut bytes = b"<mdb><music id=\"4\"><info><title_name>".to_vec();
    bytes.extend_from_slice(&[0x82, 0xa0, 0x8b, 0xc8]);
    bytes.extend_from_slice(b"</title_name></info></music></mdb>");
    let db = parse_music_db(&bytes).unwrap();
    assert_eq!(db.get(&4).unwrap().title, "\u{3042}\u{66f2}");
}

#[test]
fn songs_are_read_from_the_music_database() {
    let xml = "<?xml version=\"1.0\" encoding=\"shift-jis\"?><mdb><music id=\"1\"><info><title_name> Ryu?? </title_name><inf_ver>3</inf_ver></info><difficulty><novice><difnum>5</difnum></novice><advanced><difnum>10</difnum></advanced><exhaust><difnum>155</difnum></exhaust><infinite><difnum>0</difnum></infinite><maximum><difnum>x</difnum></maximum></difficulty></music><music id=\"abc\"><info><title_name>skipped</title_name></info></music><music id=\"2\"></music><music id=\"3\"><info><title_name>  </title_name><inf_ver>300</inf_ver></info></music></mdb>";
    let (bytes, _, _) = encoding_rs::SHIFT_JIS.encode(xml);
    let db = parse_music_db(&bytes).unwrap();
    assert_eq!(db.len(), 2);
    let one = db.get(&1).unwrap();
    assert_eq!(one.title, "Ryu☆");
    assert_eq!(one.inf_ver, Some(3));
    assert_eq!(one.levels, vec![Some(5), Some(10), Some(155), Some(0), None, None]);
    let three = db.get(&3).unwrap();
    assert_eq!(three.title, "Unknown Song 3");
    assert_eq!(three.inf_ver, None);
    assert_eq!(three.levels, vec![None; 6]);
}

#[test]
fn a_broken_music_database_is_an_error() {
    let err = parse_music_db(b"<mdb><music>").err().unwrap();
    assert!(err.starts_with("Failed to parse music_db.xml: "), "{err}");
}

#[test]
fn text_without_keys_is_kept_by_the_translation() {
    for text in ["plain ascii", "曲名 ♥ Σ", "Ryu?", "=Σ 瀑 i"] {
        assert_eq!(translate_special_chars(text), text);
    }
}

#[test]
fn translating_twice_is_translating_once() {
    for text in ["瀑瀑i", "Ryu???", "==墸Σ龕", "盥隍 Ryu?? 鑒鑒", "瀑i瀑i"] {
        let once = translate_special_chars(text);
        assert_eq!(translate_special_chars(&once), once);
        assert!(!once.contains("瀑i") && !once.contains("Ryu??") && !once.contains("=墸Σ"), "{once}");
    }
    assert_eq!(translate_special_chars("瀑瀑i"), "瀑Ài");
}
