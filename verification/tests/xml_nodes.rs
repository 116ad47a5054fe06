use sdvx_b50::eamuse::{card_of_nodes, profile_name_of, score_records_of};
use sdvx_b50::models::MusicRecord;
use sdvx_b50::music_db::music_entries_of;
use sdvx_b50::xml::{XmlAttribute, XmlNode};

fn element(name: &str, attrs: &[(&str, &str)], text: Option<&str>, children: Vec<usize>) -> XmlNode {
    XmlNode {
        element: true,
        name: name.to_string(),
        attributes: attrs
            .iter()
            .map(|(n, v)| XmlAttribute { name: n.to_string(), namespaced: false, value: v.to_string() })
            .collect(),
        text: text.map(str::to_string),
        children,
    }
}

fn root(children: Vec<usize>) -> XmlNode {
    XmlNode { element: false, name: String::new(), attributes: vec![], text: None, children }
}

#[test]
fn score_records_come_from_param_nodes() {
    let nodes = vec![
        root(vec![1]),
        element("r", &[], None, vec![2, 3, 4]),
        element("param", &[], Some("4 1 9000000 0 3 9 0 0 0 0 0 250"), vec![]),
        element("param", &[], None, vec![]),
        element("value", &[], Some("1 2 3 4 5 6 7 8 9 10 11 12"), vec![]),
    ];
    assert_eq!(
        score_records_of(&nodes),
        vec![MusicRecord { mid: 4, chart_type: 1, score: 9_000_000, clear: 3, grade: 9, volforce: 250 }]
    );
}

#[test]
fn the_first_card_node_answers() {
    let nodes = vec![
        root(vec![1, 2]),
        element("cardmng", &[("refid", "A"), ("authneeded", "1")], None, vec![]),
        element("cardmng", &[("refid", "B")], None, vec![]),
    ];
    let card = card_of_nodes(&nodes).unwrap();
    assert_eq!((card.refid.as_deref(), card.status.as_deref(), card.authneeded), (Some("A"), None, true));
    assert_eq!(
        card_of_nodes(&vec![root(vec![])]).err(),
        Some("Cloud server returned no card response.".to_string())
    );
}

#[test]
fn the_profile_name_comes_from_nodes() {
    let nodes = vec![
        root(vec![1, 2]),
        element("p", &[("name", "  ")], None, vec![]),
        element("player", &[("player_name", " P ")], None, vec![]),
    ];
    assert_eq!(profile_name_of(&nodes), Some("P".to_string()));
    assert_eq!(profile_name_of(&vec![root(vec![])]), None);
}

#[test]
fn music_entries_come_from_nodes() {
    let nodes = vec![
        root(vec![1]),
        element("music", &[("id", "5")], None, vec![2]),
        element("info", &[], None, vec![3]),
        element("title_name", &[], Some("T"), vec![]),
    ];
    let db = music_entries_of(&nodes);
    assert_eq!(db.len(), 1);
    let e = db.get(&5).unwrap();
    assert_eq!((e.title.as_str(), e.inf_ver), ("T", None));
    assert_eq!(e.levels, vec![None; 6]);
}
