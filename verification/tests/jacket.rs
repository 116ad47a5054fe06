use base64::Engine;
use sdvx_b50::jacket::{
    image_data_url, jacket_or_placeholder, parse_jacket_file_name, scan_jackets, placeholder_data_url, png_data_url, select_jacket,
    target_for_chart, JacketEntry, JacketIndex, PLACEHOLDER_SVG,
};

fn entries(numbers: &[u8]) -> Vec<JacketEntry> {
    numbers
        .iter()
        .enumerate()
        .map(|(i, n)| JacketEntry { number: *n, path: format!("p{i}") })
        .collect()
}

#[test]
fn base64_data_urls_pad_to_four_characters() {
    assert_eq!(png_data_url(b"Man"), "data:image/png;base64,TWFu");
    assert_eq!(png_data_url(b"Ma"), "data:image/png;base64,TWE=");
    assert_eq!(png_data_url(b"M"), "data:image/png;base64,TQ==");
    assert_eq!(png_data_url(b""), "data:image/png;base64,");
    assert_eq!(image_data_url("image/gif", &[0xfb, 0xff]), "data:image/gif;base64,+/8=");
}

#[test]
fn the_placeholder_is_an_svg_data_url() {
    let expected = format!(
        "data:image/svg+xml;base64,{}",
        base64::engine::general_purpose::STANDARD.encode(PLACEHOLDER_SVG)
    );
    assert_eq!(placeholder_data_url(), expected);
}

#[test]
fn jacket_file_names_give_song_and_number() {
    assert_eq!(parse_jacket_file_name("jk_123_2.png"), Some((123, 2)));
    assert_eq!(parse_jacket_file_name("jk_0001_255.png"), Some((1, 255)));
    assert_eq!(parse_jacket_file_name("jk_+5_1.png"), Some((5, 1)));
    assert_eq!(parse_jacket_file_name("jk_123_256.png"), None);
    assert_eq!(parse_jacket_file_name("jk_123_2.jpg"), None);
    assert_eq!(parse_jacket_file_name("jk_123.png"), None);
    assert_eq!(parse_jacket_file_name("jk_1_2_3.png"), None);
    assert_eq!(parse_jacket_file_name("xx_1_1.png"), None);
    assert_eq!(parse_jacket_file_name("jk__1.png"), None);
    assert_eq!(parse_jacket_file_name(".png"), None);
}

#[test]
fn a_written_jacket_name_reads_back() {
    for (mid, n) in [(0u32, 0u8), (7, 1), (4_294_967_295, 255), (1234, 56)] {
        let name = format!("jk_{mid}_{n}.png");
        assert_eq!(parse_jacket_file_name(&name), Some((mid, n)));
    }
}

#[test]
fn the_largest_jacket_up_to_the_target_is_chosen() {
    assert_eq!(select_jacket(&entries(&[1, 3, 2]), 2), Some(2));
    assert_eq!(select_jacket(&entries(&[1, 3, 2]), 5), Some(1));
    assert_eq!(select_jacket(&entries(&[2, 2]), 3), Some(1));
}

#[test]
fn without_one_up_to_the_target_the_smallest_is_chosen() {
    assert_eq!(select_jacket(&entries(&[4, 3, 3]), 1), Some(1));
    assert_eq!(select_jacket(&entries(&[]), 1), None);
}

#[test]
fn the_jacket_index_selects_per_song() {
    let mut index = JacketIndex::new();
    index.add(5, JacketEntry { number: 2, path: "a".to_string() });
    index.add(5, JacketEntry { number: 1, path: "b".to_string() });
    index.add(6, JacketEntry { number: 3, path: "c".to_string() });
    assert_eq!(index.select(5, 1).as_deref(), Some("b"));
    assert_eq!(index.select(5, 4).as_deref(), Some("a"));
    assert_eq!(index.select(6, 1).as_deref(), Some("c"));
    assert_eq!(index.select(7, 1), None);
}

#[test]
fn the_target_is_the_chart_type_plus_one() {
    assert_eq!(target_for_chart(0), 1);
    assert_eq!(target_for_chart(3), 4);
    assert_eq!(target_for_chart(255), 255);
}

#[test]
fn jacket_files_are_indexed_by_song() {
    let files: Vec<(String, String)> = [
        ("jk_1_2.png", "m/a/jk_1_2.png"),
        ("readme.txt", "m/a/readme.txt"),
        ("jk_2_1.png", "m/b/jk_2_1.png"),
        ("jk_1_1.png", "m/a/jk_1_1.png"),
        ("jk_3_999.png", "m/c/jk_3_999.png"),
    ]
    .iter()
    .map(|(n, p)| (n.to_string(), p.to_string()))
    .collect();
    let index = scan_jackets(&files);
    assert_eq!(index.jackets.len(), 2);
    let one: Vec<(u8, &str)> = index.jackets[&1].iter().map(|e| (e.number, e.path.as_str())).collect();
    assert_eq!(one, vec![(1, "m/a/jk_1_1.png"), (2, "m/a/jk_1_2.png")]);
    assert_eq!(index.select(1, 1).as_deref(), Some("m/a/jk_1_1.png"));
    assert_eq!(index.select(2, 4).as_deref(), Some("m/b/jk_2_1.png"));
    assert_eq!(index.select(3, 1), None);
}

#[test]
fn a_card_without_a_jacket_shows_the_placeholder() {
    assert_eq!(jacket_or_placeholder(Some(b"Man")), "data:image/png;base64,TWFu");
    assert_eq!(jacket_or_placeholder(None), placeholder_data_url());
}

#[test]
fn each_songs_jackets_are_sorted_by_number() {
    let files: Vec<(String, String)> = [
        ("jk_1_3.png", "x/jk_1_3.png"),
        ("jk_1_1.png", "x/jk_1_1.png"),
        ("jk_1_2.png", "y/jk_1_2.png"),
        ("jk_1_2.png", "z/jk_1_2.png"),
    ]
    .iter()
    .map(|(n, p)| (n.to_string(), p.to_string()))
    .collect();
    let index = scan_jackets(&files);
    let order: Vec<(u8, &str)> = index.jackets[&1].iter().map(|e| (e.number, e.path.as_str())).collect();
    assert_eq!(
        order,
        vec![(1, "x/jk_1_1.png"), (2, "y/jk_1_2.png"), (2, "z/jk_1_2.png"), (3, "x/jk_1_3.png")]
    );

    let mut added = JacketIndex::new();
    added.add(9, JacketEntry { number: 4, path: "a".to_string() });
    added.add(9, JacketEntry { number: 2, path: "b".to_string() });
    added.add(9, JacketEntry { number: 4, path: "c".to_string() });
    let numbers: Vec<&str> = added.jackets[&9].iter().map(|e| e.path.as_str()).collect();
    assert_eq!(numbers, vec!["b", "a", "c"]);
}
