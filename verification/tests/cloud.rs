use sdvx_b50::cloud::{CloudAction, CloudFlow};
use sdvx_b50::eamuse::{
    cardmng_authpass_xml, cardmng_inquire_xml, profile_load_xml, score_load_xml, services_get_xml,
    DEFAULT_PCBID,
};

const SERVICES: &str = r#"<response><services><item name="cardmng" url="http://svc.test/card"/><item name="local" url="http://svc.test/local"/></services></response>"#;
const SCORES: &str = r#"<response><game><music><info><param>1 2 9900000 0 5 10 0 0 0 0 0 12345</param></info></music></game></response>"#;

fn expect_send(action: CloudAction, progress: &str, url: &str, method: &str, xml: &str) -> CloudFlow {
    match action {
        CloudAction::Send { flow, progress: p, request } => {
            assert_eq!(p, progress);
            assert_eq!(request.url, url);
            assert_eq!(request.method, method);
            assert_eq!(request.xml, xml);
            flow
        },
        CloudAction::Finish(r) => panic!("lookup ended early: {:?}", r.err()),
    }
}

fn expect_error(action: CloudAction) -> String {
    match action {
        CloudAction::Finish(Err(e)) => e,
        _ => panic!("lookup did not fail"),
    }
}

fn started(password: &str) -> CloudFlow {
    let action = CloudFlow::start("cloud.test/", " E004 ", password, "", "TAG").unwrap();
    expect_send(
        action,
        "discover_services",
        "http://cloud.test",
        "services.get",
        &services_get_xml(DEFAULT_PCBID, "TAG"),
    )
}

#[test]
fn a_lookup_without_password_runs_to_the_scores() {
    let flow = started("");
    let inquire = cardmng_inquire_xml(DEFAULT_PCBID, "TAG", "E004");
    let flow = expect_send(
        flow.step(Ok(SERVICES.to_string())),
        "query_card",
        "http://svc.test/card",
        "cardmng.inquire",
        &inquire,
    );
    let flow = expect_send(
        flow.step(Ok(r#"<response><cardmng refid="REF1" status="0"/></response>"#.to_string())),
        "load_profile",
        "http://svc.test/local",
        "game.sv7_load",
        &profile_load_xml(DEFAULT_PCBID, "TAG", "REF1"),
    );
    let flow = expect_send(
        flow.step(Err("timed out".to_string())),
        "load_scores",
        "http://svc.test/local",
        "game.sv7_load_m",
        &score_load_xml(DEFAULT_PCBID, "TAG", "REF1"),
    );
    match flow.step(Ok(SCORES.to_string())) {
        CloudAction::Finish(Ok(result)) => {
            assert_eq!(result.player.refid, "REF1");
            assert_eq!(result.player.name, "UNKNOWN");
            assert_eq!(result.player.sdvx_id, 0);
            assert_eq!(result.player.score_count, 1);
            assert_eq!(result.records.len(), 1);
            assert_eq!(result.records[0].volforce, 12345);
        },
        _ => panic!("lookup did not finish"),
    }
}

#[test]
fn without_a_service_list_the_base_address_is_used() {
    let flow = started("");
    let flow = expect_send(
        flow.step(Err("refused".to_string())),
        "query_card",
        "http://cloud.test",
        "cardmng.inquire",
        &cardmng_inquire_xml(DEFAULT_PCBID, "TAG", "E004"),
    );
    let flow = expect_send(
        flow.step(Ok(r#"<cardmng refid="R"/>"#.to_string())),
        "load_profile",
        "http://cloud.test",
        "game.sv7_load",
        &profile_load_xml(DEFAULT_PCBID, "TAG", "R"),
    );
    let flow = expect_send(
        flow.step(Ok(r#"<r><player name="ZED"/></r>"#.to_string())),
        "load_scores",
        "http://cloud.test",
        "game.sv7_load_m",
        &score_load_xml(DEFAULT_PCBID, "TAG", "R"),
    );
    match flow.step(Ok(SCORES.to_string())) {
        CloudAction::Finish(Ok(result)) => assert_eq!(result.player.name, "ZED"),
        _ => panic!("lookup did not finish"),
    }
}

#[test]
fn a_given_password_is_checked() {
    let flow = started("1234");
    let flow = expect_send(
        flow.step(Ok(SERVICES.to_string())),
        "query_card",
        "http://svc.test/card",
        "cardmng.inquire",
        &cardmng_inquire_xml(DEFAULT_PCBID, "TAG", "E004"),
    );
    let flow = expect_send(
        flow.step(Ok(r#"<cardmng refid="R9" status="0"/>"#.to_string())),
        "auth_card",
        "http://svc.test/card",
        "cardmng.authpass",
        &cardmng_authpass_xml(DEFAULT_PCBID, "TAG", "R9", "1234"),
    );
    let err = expect_error(flow.step(Ok(r#"<cardmng status="116"/>"#.to_string())));
    assert_eq!(err, "Cloud server rejected the card password.");
}

#[test]
fn an_accepted_password_goes_on_to_the_profile() {
    let flow = started("1234");
    let flow = expect_send(
        flow.step(Ok("<services/>".to_string())),
        "query_card",
        "http://cloud.test",
        "cardmng.inquire",
        &cardmng_inquire_xml(DEFAULT_PCBID, "TAG", "E004"),
    );
    let flow = expect_send(
        flow.step(Ok(r#"<cardmng refid="R9"/>"#.to_string())),
        "auth_card",
        "http://cloud.test",
        "cardmng.authpass",
        &cardmng_authpass_xml(DEFAULT_PCBID, "TAG", "R9", "1234"),
    );
    expect_send(
        flow.step(Ok(r#"<cardmng status="0"/>"#.to_string())),
        "load_profile",
        "http://cloud.test",
        "game.sv7_load",
        &profile_load_xml(DEFAULT_PCBID, "TAG", "R9"),
    );
}

#[test]
fn lookups_end_on_card_errors() {
    let flow = started("");
    let flow = expect_send(flow.step(Err("x".to_string())), "query_card", "http://cloud.test", "cardmng.inquire", &cardmng_inquire_xml(DEFAULT_PCBID, "TAG", "E004"));
    assert_eq!(expect_error(flow.step(Err("Cloud request failed: down".to_string()))), "Cloud request failed: down");

    let flow = started("");
    let flow = expect_send(flow.step(Err("x".to_string())), "query_card", "http://cloud.test", "cardmng.inquire", &cardmng_inquire_xml(DEFAULT_PCBID, "TAG", "E004"));
    assert_eq!(expect_error(flow.step(Ok("<cardmng status=\"0\"/>".to_string()))), "Card was not found on the cloud server.");

    let flow = started(" ");
    let flow = expect_send(flow.step(Err("x".to_string())), "query_card", "http://cloud.test", "cardmng.inquire", &cardmng_inquire_xml(DEFAULT_PCBID, "TAG", "E004"));
    assert_eq!(
        expect_error(flow.step(Ok("<cardmng refid=\"R\" authneeded=\"1\"/>".to_string()))),
        "Cloud server requires a password for this card."
    );
}

#[test]
fn lookups_end_without_scores() {
    let flow = started("");
    let flow = expect_send(flow.step(Err("x".to_string())), "query_card", "http://cloud.test", "cardmng.inquire", &cardmng_inquire_xml(DEFAULT_PCBID, "TAG", "E004"));
    let flow = expect_send(flow.step(Ok("<cardmng refid=\"R\"/>".to_string())), "load_profile", "http://cloud.test", "game.sv7_load", &profile_load_xml(DEFAULT_PCBID, "TAG", "R"));
    let flow = expect_send(flow.step(Err("x".to_string())), "load_scores", "http://cloud.test", "game.sv7_load_m", &score_load_xml(DEFAULT_PCBID, "TAG", "R"));
    assert_eq!(expect_error(flow.step(Ok("<response/>".to_string()))), "Cloud server returned no SDVX 7 score data.");
}

#[test]
fn a_lookup_needs_an_address_and_a_card() {
    assert_eq!(CloudFlow::start(" ", "E004", "", "", "T").err(), Some("Cloud server address is required.".to_string()));
    assert_eq!(CloudFlow::start("x.test", "  ", "", "", "T").err(), Some("Card ID is required.".to_string()));
}
