use md5::{Digest, Md5};
use sdvx_b50::eamuse::{normalized_pcbid, parse_score_records, parse_services, DEFAULT_PCBID};
use sdvx_b50::rc4::rc4_crypt;

#[test]
fn rc4_matches_known_vector() {
    assert_eq!(rc4_crypt(b"Key", b"Plaintext"), b"\xbb\xf3\x16\xe8\xd9@\xaf\n\xd3");
}

#[test]
fn parses_sv7_score_params() {
    let xml = r#"<response><game><music><info><param __type="u32" __count="26">1 2 9900000 0 5 10 0 0 0 0 0 12345 0 0 0 0 0 0 0 0 0 0 0 0 0 0</param></info></music></game></response>"#;
    let records = parse_score_records(xml).unwrap();

    assert_eq!(records.len(), 1);
    assert_eq!(records[0].mid, 1);
    assert_eq!(records[0].chart_type, 2);
    assert_eq!(records[0].score, 9_900_000);
    assert_eq!(records[0].clear, 5);
    assert_eq!(records[0].grade, 10);
    assert_eq!(records[0].volforce, 12_345);
}

#[test]
fn falls_back_to_default_pcbid() {
    assert_eq!(normalized_pcbid(""), DEFAULT_PCBID);
}

#[test]
fn parses_service_urls_with_raw_ampersands() {
    let xml = r#"<response><services><item name="keepalive" url="ping://127.0.0.1/core/keepalive?t1=2&t2=15"/><item name="cardmng" url="http://example.test/service/card"/><item name="local" url="http://example.test/service/sdvx"/></services></response>"#;
    let services = parse_services(xml).unwrap();

    assert_eq!(
        services.get("cardmng").map(String::as_str),
        Some("http://example.test/service/card")
    );
    assert_eq!(
        services.get("sdvx").map(String::as_str),
        Some("http://example.test/service/sdvx")
    );
}

use sdvx_b50::eamuse::{
    body_len_header, card_authpass_outcome, card_inquire_outcome, cardmng_authpass_xml,
    cardmng_inquire_xml, cloud_http_error, cloud_scores_result, cloud_session, decode_hex,
    decrypt_response, derive_key, eamuse_info, escape_xml_attr, escape_xml_text, extract_attr,
    method_endpoint, normalize_server_url, parse_cardmng, parse_profile_name, profile_load_xml,
    response_suffix, response_xml_text, score_load_xml, service_url, services_get_xml,
    should_authenticate, CardmngResponse, MODEL,
};
use sdvx_b50::models::MusicRecord;

const HEAD: &str = r#"<?xml version="1.0" encoding="UTF-8"?><call model="KFC:J:G:A:2026020300" srcid="PCB" tag="TAG">"#;

const INTERNAL_KEY: [u8; 26] = [
    0x69, 0xD7, 0x46, 0x27, 0xD9, 0x85, 0xEE, 0x21, 0x87, 0x16, 0x15, 0x70, 0xD0, 0x8D, 0x93,
    0xB1, 0x24, 0x55, 0x03, 0x5B, 0x6D, 0xF0, 0xD8, 0x20, 0x5D, 0xF5,
];

fn card(refid: Option<&str>, status: Option<&str>, authneeded: bool) -> CardmngResponse {
    CardmngResponse {
        refid: refid.map(str::to_string),
        status: status.map(str::to_string),
        authneeded,
    }
}

#[test]
fn xml_text_and_attributes_are_escaped() {
    assert_eq!(escape_xml_text("a&b<c>\"d\""), "a&amp;b&lt;c&gt;\"d\"");
    assert_eq!(escape_xml_attr("a&b<c>\"d\""), "a&amp;b&lt;c&gt;&quot;d&quot;");
    assert_eq!(escape_xml_text("&amp;"), "&amp;amp;");
}

#[test]
fn requests_are_written_in_full() {
    assert_eq!(services_get_xml("PCB", "TAG"), format!("{HEAD}<services method=\"get\"/></call>"));
    assert_eq!(
        cardmng_inquire_xml("PCB", "TAG", "E004\"1"),
        format!("{HEAD}<cardmng cardid=\"E004&quot;1\" cardtype=\"1\" method=\"inquire\" update=\"0\"/></call>")
    );
    assert_eq!(
        cardmng_authpass_xml("PCB", "TAG", "R&1", "12<4"),
        format!("{HEAD}<cardmng method=\"authpass\" pass=\"12&lt;4\" refid=\"R&amp;1\"/></call>")
    );
    assert_eq!(
        score_load_xml("PCB", "TAG", "R<1"),
        format!("{HEAD}<game k=\"c4120d310ac9830010c110c108132139\" method=\"sv7_load_m\" ver=\"0\"><refid __type=\"str\">R&lt;1</refid></game></call>")
    );
    assert_eq!(
        profile_load_xml("PCB", "TAG", "R1"),
        format!("{HEAD}<game k=\"c4120d310ac9830010c110c108132139\" method=\"sv7_load\" ver=\"0\"><refid __type=\"str\">R1</refid></game></call>")
    );
}

#[test]
fn server_addresses_are_normalized() {
    assert_eq!(normalize_server_url("  example.test:8083/// "), Ok("http://example.test:8083".to_string()));
    assert_eq!(normalize_server_url("https://x.test/core/"), Ok("https://x.test/core".to_string()));
    assert_eq!(normalize_server_url("http://x.test"), Ok("http://x.test".to_string()));
    assert_eq!(normalize_server_url(" /"), Err("Cloud server address is required.".to_string()));
}

#[test]
fn a_given_pcbid_is_trimmed() {
    assert_eq!(normalized_pcbid("  0120 "), "0120");
    assert_eq!(normalized_pcbid(" \t "), DEFAULT_PCBID);
}

#[test]
fn method_endpoints_add_model_and_method() {
    assert_eq!(
        method_endpoint("http://a.test/core", "cardmng.inquire"),
        format!("http://a.test/core?model={MODEL}&f=cardmng.inquire")
    );
    assert_eq!(method_endpoint("http://a.test/?x=1", "game.sv7_load"), format!("http://a.test/?x=1&model={MODEL}&f=game.sv7_load"));
}

#[test]
fn small_response_helpers() {
    assert_eq!(body_len_header(&[0u8; 1234]), "1234");
    assert_eq!(body_len_header(&[]), "0");
    assert_eq!(response_suffix("  oops \n"), ": oops");
    assert_eq!(response_suffix(" \n "), "");
    assert_eq!(cloud_http_error(503, b" busy "), "Cloud server returned HTTP 503: busy");
    assert_eq!(cloud_http_error(500, &[0xff, b'x']), "Cloud server returned HTTP 500: \u{fffd}x");
}

#[test]
fn attributes_are_found_by_key() {
    assert_eq!(extract_attr(r#" name="a" url="b" "#, "url"), Some("b".to_string()));
    assert_eq!(extract_attr(r#" myname="a" name="b""#, "name"), Some("a".to_string()));
    assert_eq!(extract_attr(r#" name="a"#, "name"), None);
    assert_eq!(extract_attr(r#" name='a'"#, "name"), None);
}

#[test]
fn a_missing_sdvx_service_falls_back_in_order() {
    let xml = r#"<services><item name="lobby2" url="http://l2"/><item name="lobby" url="http://l1"/></services>"#;
    let services = parse_services(xml).unwrap();
    assert_eq!(services.get("sdvx").map(String::as_str), Some("http://l1"));
    let none = parse_services("<services/>").unwrap();
    assert!(none.is_empty());
    assert_eq!(service_url(&services, "cardmng", "http://base"), "http://base");
    assert_eq!(service_url(&services, "lobby2", "http://base"), "http://l2");
    let mut local = parse_services(r#"<item name="local" url="http://loc"/>"#).unwrap();
    assert_eq!(service_url(&local, "sdvx", "http://base"), "http://loc");
    local.insert("x".to_string(), "http://x".to_string());
    assert!(local.contains_key("x"));
}

#[test]
fn hex_key_material_is_decoded_as_pairs() {
    assert_eq!(decode_hex("0aFF10"), Ok(vec![0x0a, 0xff, 0x10]));
    assert_eq!(decode_hex(""), Ok(vec![]));
    assert_eq!(decode_hex("+f"), Ok(vec![0x0f]));
    assert_eq!(decode_hex("abc"), Err("Invalid Eamuse key material.".to_string()));
    assert_eq!(decode_hex("zz"), Err("Invalid hex data.".to_string()));
    assert_eq!(decode_hex("f+"), Err("Invalid hex data.".to_string()));
}

#[test]
fn packet_keys_hash_the_info_with_the_internal_key() {
    let info = eamuse_info(0x5f00_0a0b, 0x00cd);
    assert_eq!(info, "1-5f000a0b-00cd");
    let mut hasher = Md5::new();
    hasher.update([0x5f, 0x00, 0x0a, 0x0b, 0x00, 0xcd]);
    hasher.update(INTERNAL_KEY);
    let expected: [u8; 16] = hasher.finalize().into();
    assert_eq!(derive_key(&info), Ok(expected));
    assert_eq!(derive_key("5f000a0b00cd"), Ok(expected));
    assert_eq!(derive_key("1-5f0"), Err("Invalid Eamuse key material.".to_string()));
    assert_eq!(eamuse_info(0x1_0000_0000, 1), "1-100000000-0001");
}

#[test]
fn responses_are_decrypted_with_their_info_key() {
    let info = "1-00000001-0002";
    let key = derive_key(info).unwrap();
    let body = rc4_crypt(&key, b"<response/>");
    assert_eq!(decrypt_response(Some(info), &body), Ok(b"<response/>".to_vec()));
    assert_eq!(decrypt_response(None, b"plain"), Ok(b"plain".to_vec()));
    assert!(decrypt_response(Some("1-xyz"), b"x").is_err());
}

#[test]
fn response_text_comes_from_the_body_or_its_rendering() {
    assert_eq!(response_xml_text(b"<a/>", None), Ok("<a/>".to_string()));
    assert_eq!(response_xml_text(&[b'<', 0xc3, b'>'], None), Ok("<\u{fffd}>".to_string()));
    assert_eq!(response_xml_text(&[], None), Err("Cloud server returned an empty response body.".to_string()));
    assert_eq!(response_xml_text(b"\xa0\x42", Some(Ok(b"<r/>".to_vec()))), Ok("<r/>".to_string()));
    assert_eq!(response_xml_text(b"\xa0\x42", Some(Err("bad".to_string()))), Err("bad".to_string()));
    let err = response_xml_text(b"\xa0\x42", Some(Ok(vec![0xff]))).err().unwrap();
    assert!(err.starts_with("Cloud XML response is not UTF-8: "), "{err}");
}

#[test]
fn card_answers_are_read() {
    let c = parse_cardmng(r#"<response><cardmng refid="R1" status="0" authneeded="1"/></response>"#).unwrap();
    assert_eq!((c.refid.as_deref(), c.status.as_deref(), c.authneeded), (Some("R1"), Some("0"), true));
    assert_eq!(
        parse_cardmng("<response/>").err(),
        Some("Cloud server returned no card response.".to_string())
    );
    assert!(parse_cardmng("<response>").err().unwrap().starts_with("Failed to parse card response: "));
}

#[test]
fn cards_are_authenticated_when_asked_or_when_a_password_is_given() {
    assert!(!should_authenticate(&card(Some("R"), Some("0"), false)));
    assert!(should_authenticate(&card(Some("R"), Some("116"), false)));
    assert!(should_authenticate(&card(Some("R"), None, true)));
    assert_eq!(card_inquire_outcome(&card(Some("R"), None, false), " "), Ok(("R".to_string(), false)));
    assert_eq!(card_inquire_outcome(&card(Some("R"), None, false), "1234"), Ok(("R".to_string(), true)));
    assert_eq!(
        card_inquire_outcome(&card(Some("R"), None, true), ""),
        Err("Cloud server requires a password for this card.".to_string())
    );
    assert_eq!(
        card_inquire_outcome(&card(None, None, false), "1234"),
        Err("Card was not found on the cloud server.".to_string())
    );
    assert_eq!(card_authpass_outcome(&card(None, None, false)), Ok(()));
    assert_eq!(card_authpass_outcome(&card(None, Some("0"), false)), Ok(()));
    assert_eq!(
        card_authpass_outcome(&card(None, Some("1"), false)),
        Err("Cloud server rejected the card password.".to_string())
    );
}

#[test]
fn score_params_need_twelve_numbers() {
    let xml = r#"<r><param>1 2 3 4 5 6 7 8 9 10 11</param><param>1 2 x 4 5 6 7 8 9 10 11 12</param><param>7 300 9000000 0 2 8 0 0 0 0 0 321</param><param/></r>"#;
    let records = parse_score_records(xml).unwrap();
    assert_eq!(records, vec![MusicRecord { mid: 7, chart_type: 44, score: 9_000_000, clear: 2, grade: 8, volforce: 321 }]);
    assert!(parse_score_records("<r>").err().unwrap().starts_with("Failed to parse score XML: "));
}

#[test]
fn the_profile_name_is_the_first_one_given() {
    assert_eq!(parse_profile_name(r#"<r><game><name> ZED </name></game></r>"#), Some("ZED".to_string()));
    assert_eq!(parse_profile_name(r#"<r><p nickname=" "/><q playerName="P1"/><name>N</name></r>"#), Some("P1".to_string()));
    assert_eq!(parse_profile_name(r#"<r><name>  </name></r>"#), None);
    assert_eq!(parse_profile_name(""), None);
}

#[test]
fn cloud_sessions_check_address_then_card() {
    let s = cloud_session("cloud.test/", "  E004 ", "").unwrap();
    assert_eq!((s.base_url.as_str(), s.card_id.as_str(), s.pcbid.as_str()), ("http://cloud.test", "E004", DEFAULT_PCBID));
    assert_eq!(cloud_session("", "", "").err(), Some("Cloud server address is required.".to_string()));
    assert_eq!(cloud_session("x", " ", "").err(), Some("Card ID is required.".to_string()));
}

#[test]
fn cloud_results_need_records() {
    let r = cloud_scores_result("R".to_string(), None, vec![]);
    assert_eq!(r.err(), Some("Cloud server returned no SDVX 7 score data.".to_string()));
    let rec = MusicRecord { mid: 1, chart_type: 0, score: 1, clear: 1, grade: 1, volforce: 1 };
    let r = cloud_scores_result("R".to_string(), Some("<r name=\"NAME\"/>".to_string()), vec![rec, rec]).unwrap();
    assert_eq!((r.player.refid.as_str(), r.player.name.as_str(), r.player.sdvx_id, r.player.score_count), ("R", "NAME", 0, 2));
    assert_eq!(r.records.len(), 2);
    let r = cloud_scores_result("R".to_string(), None, vec![rec]).unwrap();
    assert_eq!(r.player.name, "UNKNOWN");
}

#[test]
fn generated_info_headers_select_a_key_until_the_clock_outgrows_eight_digits() {
    for (t, s) in [(0u64, 0u16), (0x6000_0000, 0xffff), (0xffff_ffff, 1)] {
        assert!(derive_key(&eamuse_info(t, s)).is_ok());
    }
    assert_eq!(
        derive_key(&eamuse_info(0x1_0000_0000, 0)),
        Err("Invalid Eamuse key material.".to_string())
    );
}
