//! The cloud score lookup, one request at a time: given the answer to the
//! last request, which request comes next, or how the lookup ends. Sending
//! a request and reading its answer is left to the caller.
use vstd::prelude::*;
use crate::b50::PlayerView;
use crate::eamuse::{
    authpass_request, call_address, card_answer, card_authpass_outcome, card_inquire_outcome,
    cardmng_authpass_xml, cardmng_inquire_xml, cloud_name, cloud_scores_result, cloud_session,
    game_request, inquire_outcome, authpass_outcome, inquire_request, parse_cardmng,
    parse_score_records, parse_services, profile_load_xml, score_load_xml, score_records,
    service_url, services_get_xml, services_of, services_request, session_for, CloudScoreResult,
    CloudSession, ServiceMap,
};
use crate::models::{opt_text, MusicRecord};
use crate::text::text_result;
use crate::xml::xml_document;
use vstd::string::StringExecFns;

verus! {

/// Where the lookup stands: which answer it waits for.
pub enum CloudStage {
    /// The answer to `services.get`.
    Discover,
    /// The answer to `cardmng.inquire`.
    Inquire,
    /// The answer to `cardmng.authpass` for the card's refid.
    Authenticate { refid: String },
    /// The answer to `game.sv7_load` for the refid.
    LoadProfile { refid: String },
    /// The answer to `game.sv7_load_m`, with the profile answer if one came.
    LoadScores { refid: String, profile_xml: Option<String> },
}

/// A stage as the specifications see it.
pub enum StageView {
    Discover,
    Inquire,
    Authenticate { refid: Seq<char> },
    LoadProfile { refid: Seq<char> },
    LoadScores { refid: Seq<char>, profile_xml: Option<Seq<char>> },
}

impl View for CloudStage {
    type V = StageView;

    open spec fn view(&self) -> StageView {
        match self {
            CloudStage::Discover => StageView::Discover,
            CloudStage::Inquire => StageView::Inquire,
            CloudStage::Authenticate { refid } => StageView::Authenticate { refid: refid@ },
            CloudStage::LoadProfile { refid } => StageView::LoadProfile { refid: refid@ },
            CloudStage::LoadScores { refid, profile_xml } => StageView::LoadScores {
                refid: refid@,
                profile_xml: opt_text(*profile_xml),
            },
        }
    }
}

/// A lookup under way.
pub struct CloudFlow {
    pub session: CloudSession,
    pub password: String,
    /// The tag every request carries.
    pub tag: String,
    /// The service addresses the server announced.
    pub services: ServiceMap,
    pub stage: CloudStage,
}

/// A lookup as the specifications see it.
pub struct FlowView {
    pub base: Seq<char>,
    pub card_id: Seq<char>,
    pub pcbid: Seq<char>,
    pub password: Seq<char>,
    pub tag: Seq<char>,
    pub services: Map<Seq<char>, Seq<char>>,
    pub stage: StageView,
}

impl View for CloudFlow {
    type V = FlowView;

    open spec fn view(&self) -> FlowView {
        FlowView {
            base: self.session.base_url@,
            card_id: self.session.card_id@,
            pcbid: self.session.pcbid@,
            password: self.password@,
            tag: self.tag@,
            services: self.services@,
            stage: self.stage@,
        }
    }
}

/// A request to send: its address, method name and XML text.
pub struct CloudRequest {
    pub url: String,
    pub method: String,
    pub xml: String,
}

/// What the caller does next: report the progress stage and send the
/// request, then step `flow` with the answer; or end with the result.
pub enum CloudAction {
    Send { flow: CloudFlow, progress: String, request: CloudRequest },
    Finish(Result<CloudScoreResult, String>),
}

/// An action as the specifications see it; a finished lookup gives the
/// player and the records.
pub enum ActionView {
    Send {
        flow: FlowView,
        progress: Seq<char>,
        url: Seq<char>,
        method: Seq<char>,
        xml: Seq<char>,
    },
    Finish(Result<(PlayerView, Seq<MusicRecord>), Seq<char>>),
}

impl View for CloudAction {
    type V = ActionView;

    open spec fn view(&self) -> ActionView {
        match self {
            CloudAction::Send { flow, progress, request } => ActionView::Send {
                flow: flow@,
                progress: progress@,
                url: request.url@,
                method: request.method@,
                xml: request.xml@,
            },
            CloudAction::Finish(Ok(c)) => ActionView::Finish(Ok((c.player@, c.records@))),
            CloudAction::Finish(Err(e)) => ActionView::Finish(Err(e@)),
        }
    }
}

/// Sending a request to `service` and waiting in `stage`.
pub open spec fn send(
    f: FlowView,
    stage: StageView,
    progress: Seq<char>,
    service: Seq<char>,
    method: Seq<char>,
    xml: Seq<char>,
) -> ActionView {
    ActionView::Send {
        flow: FlowView { stage, ..f },
        progress,
        url: call_address(f.services, service, f.base),
        method,
        xml,
    }
}

/// The profile request for `refid`.
pub open spec fn profile_step(f: FlowView, refid: Seq<char>) -> ActionView {
    send(
        f,
        StageView::LoadProfile { refid },
        "load_profile"@,
        "sdvx"@,
        "game.sv7_load"@,
        game_request(f.pcbid, f.tag, "sv7_load"@, refid),
    )
}

/// The next action of lookup `f` after the answer `response` (the answer's
/// XML text, or the error that sending the request gave).
///
/// The service list is kept when it has any service; a failed service or
/// profile request is passed over, any other failure ends the lookup. The
/// password is checked when the card answer asks for it or when one is
/// given.
pub open spec fn cloud_next(f: FlowView, response: Result<Seq<char>, Seq<char>>) -> ActionView {
    match f.stage {
        StageView::Discover => {
            let services = match response {
                Ok(xml) => if services_of(xml).dom() == Set::<Seq<char>>::empty() {
                    f.services
                } else {
                    services_of(xml)
                },
                Err(_) => f.services,
            };
            send(
                FlowView { services, ..f },
                StageView::Inquire,
                "query_card"@,
                "cardmng"@,
                "cardmng.inquire"@,
                inquire_request(f.pcbid, f.tag, f.card_id),
            )
        },
        StageView::Inquire => match response {
            Err(e) => ActionView::Finish(Err(e)),
            Ok(xml) => match card_answer(xml) {
                Err(e) => ActionView::Finish(Err(e)),
                Ok(card) => match inquire_outcome(card, f.password) {
                    Err(e) => ActionView::Finish(Err(e)),
                    Ok((refid, check)) => if check {
                        send(
                            f,
                            StageView::Authenticate { refid },
                            "auth_card"@,
                            "cardmng"@,
                            "cardmng.authpass"@,
                            authpass_request(f.pcbid, f.tag, refid, f.password),
                        )
                    } else {
                        profile_step(f, refid)
                    },
                },
            },
        },
        StageView::Authenticate { refid } => match response {
            Err(e) => ActionView::Finish(Err(e)),
            Ok(xml) => match card_answer(xml) {
                Err(e) => ActionView::Finish(Err(e)),
                Ok(auth) => match authpass_outcome(auth) {
                    Err(e) => ActionView::Finish(Err(e)),
                    Ok(()) => profile_step(f, refid),
                },
            },
        },
        StageView::LoadProfile { refid } => send(
            f,
            StageView::LoadScores {
                refid,
                profile_xml: match response {
                    Ok(xml) => Some(xml),
                    Err(_) => None,
                },
            },
            "load_scores"@,
            "sdvx"@,
            "game.sv7_load_m"@,
            game_request(f.pcbid, f.tag, "sv7_load_m"@, refid),
        ),
        StageView::LoadScores { refid, profile_xml } => match response {
            Err(e) => ActionView::Finish(Err(e)),
            Ok(xml) => match xml_document(xml) {
                Err(e) => ActionView::Finish(Err("Failed to parse score XML: "@ + e)),
                Ok(nodes) => {
                    let records = score_records(nodes);
                    if records.len() == 0 {
                        ActionView::Finish(Err("Cloud server returned no SDVX 7 score data."@))
                    } else {
                        ActionView::Finish(
                            Ok(
                                (
                                    PlayerView {
                                        refid,
                                        name: cloud_name(profile_xml),
                                        sdvx_id: 0,
                                        score_count: records.len() as usize,
                                    },
                                    records,
                                ),
                            ),
                        )
                    }
                },
            },
        },
    }
}

/// How far a lookup has come: each stage waits for a later answer than the
/// ones before it.
pub open spec fn stage_rank(s: StageView) -> nat {
    match s {
        StageView::Discover => 0,
        StageView::Inquire => 1,
        StageView::Authenticate { .. } => 2,
        StageView::LoadProfile { .. } => 3,
        StageView::LoadScores { .. } => 4,
    }
}

/// Every answer moves the lookup to a later stage or ends it, so a lookup
/// sends at most five requests after the first.
pub proof fn cloud_steps_move_forward(f: FlowView, response: Result<Seq<char>, Seq<char>>)
    ensures
        cloud_next(f, response) matches ActionView::Send { flow, .. } ==> stage_rank(f.stage)
            < stage_rank(flow.stage),
        f.stage is LoadScores ==> cloud_next(f, response) is Finish,
{
}

/// A password that is given is always checked: once the card is found, the
/// next request is `cardmng.authpass` for the card's refid.
pub proof fn given_passwords_are_checked(f: FlowView, response: Result<Seq<char>, Seq<char>>)
    requires
        f.stage is Inquire,
        crate::text::trim(f.password).len() > 0,
    ensures
        cloud_next(f, response) matches ActionView::Send { flow, method, .. } ==> flow.stage is Authenticate
            && method == "cardmng.authpass"@,
{
}

impl CloudFlow {
    /// Starts a lookup for the user's input, or refuses it (the address is
    /// checked first, then the card ID). The first request asks the base
    /// address for the service list.
    pub fn start(server_url: &str, card_id: &str, password: &str, pcbid: &str, tag: &str) -> (r:
        Result<CloudAction, String>)
        ensures
            match session_for(server_url@, card_id@, pcbid@) {
                Err(e) => r matches Err(m) && m@ == e,
                Ok((base, card, pcb)) => r matches Ok(a) && a@ == ActionView::Send {
                    flow: FlowView {
                        base,
                        card_id: card,
                        pcbid: pcb,
                        password: password@,
                        tag: tag@,
                        services: Map::empty(),
                        stage: StageView::Discover,
                    },
                    progress: "discover_services"@,
                    url: base,
                    method: "services.get"@,
                    xml: services_request(pcb, tag@),
                },
            },
    {
        let session = cloud_session(server_url, card_id, pcbid)?;
        let xml = services_get_xml(session.pcbid.as_str(), tag);
        let url = session.base_url.clone();
        let flow = CloudFlow {
            session,
            password: String::from_str(password),
            tag: String::from_str(tag),
            services: ServiceMap::new(),
            stage: CloudStage::Discover,
        };
        Ok(
            CloudAction::Send {
                flow,
                progress: String::from_str("discover_services"),
                request: CloudRequest { url, method: String::from_str("services.get"), xml },
            },
        )
    }

    fn send_to(
        self,
        stage: CloudStage,
        progress: &str,
        service: &str,
        method: &str,
        xml: String,
    ) -> (r: CloudAction)
        ensures
            r@ == send(self@, stage@, progress@, service@, method@, xml@),
    {
        let url = service_url(&self.services, service, self.session.base_url.as_str());
        let CloudFlow { session, password, tag, services, stage: _ } = self;
        CloudAction::Send {
            flow: CloudFlow { session, password, tag, services, stage },
            progress: String::from_str(progress),
            request: CloudRequest { url, method: String::from_str(method), xml },
        }
    }

    fn load_profile(self, refid: String) -> (r: CloudAction)
        ensures
            r@ == profile_step(self@, refid@),
    {
        let xml = profile_load_xml(self.session.pcbid.as_str(), self.tag.as_str(), refid.as_str());
        self.send_to(CloudStage::LoadProfile { refid }, "load_profile", "sdvx", "game.sv7_load", xml)
    }

    /// Takes the answer to the last request (its XML text, or the error that
    /// sending it gave) and says what comes next.
    pub fn step(self, response: Result<String, String>) -> (r: CloudAction)
        ensures
            r@ == cloud_next(self@, text_result(response)),
    {
        match &self.stage {
            CloudStage::Discover => {
                let CloudFlow { session, password, tag, services, stage } = self;
                let services = match response {
                    Ok(xml) => match parse_services(xml.as_str()) {
                        Ok(found) => if found.is_empty() {
                            services
                        } else {
                            found
                        },
                        Err(_) => services,
                    },
                    Err(_) => services,
                };
                let flow = CloudFlow { session, password, tag, services, stage };
                let xml = cardmng_inquire_xml(
                    flow.session.pcbid.as_str(),
                    flow.tag.as_str(),
                    flow.session.card_id.as_str(),
                );
                flow.send_to(CloudStage::Inquire, "query_card", "cardmng", "cardmng.inquire", xml)
            },
            CloudStage::Inquire => {
                let xml = match response {
                    Err(e) => {
                        return CloudAction::Finish(Err(e));
                    },
                    Ok(x) => x,
                };
                let card = match parse_cardmng(xml.as_str()) {
                    Err(e) => {
                        return CloudAction::Finish(Err(e));
                    },
                    Ok(c) => c,
                };
                match card_inquire_outcome(&card, self.password.as_str()) {
                    Err(e) => CloudAction::Finish(Err(e)),
                    Ok((refid, check)) => if check {
                        let xml = cardmng_authpass_xml(
                            self.session.pcbid.as_str(),
                            self.tag.as_str(),
                            refid.as_str(),
                            self.password.as_str(),
                        );
                        self.send_to(
                            CloudStage::Authenticate { refid },
                            "auth_card",
                            "cardmng",
                            "cardmng.authpass",
                            xml,
                        )
                    } else {
                        self.load_profile(refid)
                    },
                }
            },
            CloudStage::Authenticate { refid } => {
                let refid = refid.clone();
                let xml = match response {
                    Err(e) => {
                        return CloudAction::Finish(Err(e));
                    },
                    Ok(x) => x,
                };
                let auth = match parse_cardmng(xml.as_str()) {
                    Err(e) => {
                        return CloudAction::Finish(Err(e));
                    },
                    Ok(c) => c,
                };
                match card_authpass_outcome(&auth) {
                    Err(e) => CloudAction::Finish(Err(e)),
                    Ok(()) => self.load_profile(refid),
                }
            },
            CloudStage::LoadProfile { refid } => {
                let refid = refid.clone();
                let profile_xml = match response {
                    Ok(x) => Some(x),
                    Err(_) => None,
                };
                let xml = score_load_xml(self.session.pcbid.as_str(), self.tag.as_str(), refid.as_str());
                self.send_to(
                    CloudStage::LoadScores { refid, profile_xml },
                    "load_scores",
                    "sdvx",
                    "game.sv7_load_m",
                    xml,
                )
            },
            CloudStage::LoadScores { refid, profile_xml } => {
                let refid = refid.clone();
                let profile_xml = profile_xml.clone();
                let xml = match response {
                    Err(e) => {
                        return CloudAction::Finish(Err(e));
                    },
                    Ok(x) => x,
                };
                match parse_score_records(xml.as_str()) {
                    Err(e) => CloudAction::Finish(Err(e)),
                    Ok(records) => CloudAction::Finish(cloud_scores_result(refid, profile_xml, records)),
                }
            },
        }
    }
}

} // verus!
