//! The e-amusement cloud protocol: request documents, addresses, service
//! discovery, key derivation and the card-check decisions.
use vstd::prelude::*;
use crate::models::{opt_text, MusicRecord, PlayerSummary};
use crate::rc4::{rc4, rc4_crypt};
use crate::xml::{attribute_of, has_tag, node_attribute, node_has_tag, parse_xml, xml_document, XmlNode};
use crate::text::{
    hex_char, hex_digits, parse_unsigned, parse_unsigned_chars, push_hex_padded, split_words, words,
    zero_padded,
    find_from, find_from_chars, lemma_find_from_bounds, pieces_after, pieces_from, slice_chars,
    append_str, chars_of, contains_char, decimal, decimal_string, replace_all, replace_chars,
    same_text, starts_with, starts_with_chars, string_of, text_result, trim, trim_chars,
    trim_end_char, trim_end_char_chars, trimmed,
};
use vstd::hash_map::StringHashMap;
use vstd::string::StringExecFns;
use vstd::string::StringSliceAdditionalSpecFns;
use vstd::utf8::{decode_utf8, encode_utf8, valid_utf8};
use md5::Digest;

verus! {

/// The game model that requests identify themselves with.
pub const MODEL: &'static str = "KFC:J:G:A:2026020300";

/// The key that the game sends with its score and profile requests.
pub const GAME_SECURITY_KEY: &'static str = "c4120d310ac9830010c110c108132139";

/// The PCBID used when the user gives none.
pub const DEFAULT_PCBID: &'static str = "00010203040506070809";

/// `s` with `&`, `<` and `>` written as entities, `&` first.
pub open spec fn escape_text(s: Seq<char>) -> Seq<char> {
    replace_all(
        replace_all(replace_all(s, "&"@, "&amp;"@), "<"@, "&lt;"@),
        ">"@,
        "&gt;"@,
    )
}

/// `escape_text` followed by writing `"` as `&quot;`.
pub open spec fn escape_attr(s: Seq<char>) -> Seq<char> {
    replace_all(escape_text(s), "\""@, "&quot;"@)
}

/// Replacing leaves no `c` behind when the replacement has none and either
/// the text has none or the pattern is `c` itself.
proof fn lemma_replace_all_leaves_out(s: Seq<char>, p: Seq<char>, r: Seq<char>, c: char)
    requires
        p.len() > 0,
        !r.contains(c),
        !s.contains(c) || p == seq![c],
    ensures
        !replace_all(s, p, r).contains(c),
    decreases s.len(),
{
    if s.len() > 0 {
        if starts_with(s, p) {
            let rest = s.skip(p.len() as int);
            assert(!s.contains(c) ==> !rest.contains(c)) by {
                if rest.contains(c) {
                    let i = choose|i: int| 0 <= i < rest.len() && rest[i] == c;
                    assert(s[i + p.len()] == c);
                }
            }
            lemma_replace_all_leaves_out(rest, p, r, c);
            let out = r + replace_all(rest, p, r);
            assert(!out.contains(c)) by {
                if out.contains(c) {
                    let i = choose|i: int| 0 <= i < out.len() && out[i] == c;
                    if i < r.len() {
                        assert(r[i] == c);
                    } else {
                        assert(replace_all(rest, p, r)[i - r.len()] == c);
                    }
                }
            }
        } else {
            let rest = s.drop_first();
            assert(!s.contains(c) ==> !rest.contains(c)) by {
                if rest.contains(c) {
                    let i = choose|i: int| 0 <= i < rest.len() && rest[i] == c;
                    assert(s[i + 1] == c);
                }
            }
            assert(s[0] != c) by {
                if p == seq![c] && s[0] == c {
                    assert(s.take(1) =~= p);
                }
            }
            lemma_replace_all_leaves_out(rest, p, r, c);
            let out = seq![s[0]] + replace_all(rest, p, r);
            assert(!out.contains(c)) by {
                if out.contains(c) {
                    let i = choose|i: int| 0 <= i < out.len() && out[i] == c;
                    if i > 0 {
                        assert(replace_all(rest, p, r)[i - 1] == c);
                    }
                }
            }
        }
    }
}

/// Escaped text holds no `<` and no `>`, so it cannot open or close an
/// element of the request it is put in.
pub proof fn escaped_text_has_no_markup(s: Seq<char>)
    ensures
        !escape_text(s).contains('<'),
        !escape_text(s).contains('>'),
{
    reveal_strlit("&");
    reveal_strlit("&amp;");
    reveal_strlit("<");
    reveal_strlit("&lt;");
    reveal_strlit(">");
    reveal_strlit("&gt;");
    let a = replace_all(s, "&"@, "&amp;"@);
    let b = replace_all(a, "<"@, "&lt;"@);
    assert("<"@ =~= seq!['<']);
    assert(">"@ =~= seq!['>']);
    assert(!"&lt;"@.contains('<') && !"&gt;"@.contains('<') && !"&gt;"@.contains('>'));
    lemma_replace_all_leaves_out(a, "<"@, "&lt;"@, '<');
    lemma_replace_all_leaves_out(b, ">"@, "&gt;"@, '<');
    lemma_replace_all_leaves_out(b, ">"@, "&gt;"@, '>');
}

/// An escaped attribute value holds no `<`, no `>` and no `"`, so it stays
/// inside the quotes it is put in.
pub proof fn escaped_attr_has_no_markup(s: Seq<char>)
    ensures
        !escape_attr(s).contains('<'),
        !escape_attr(s).contains('>'),
        !escape_attr(s).contains('"'),
{
    escaped_text_has_no_markup(s);
    reveal_strlit("\"");
    reveal_strlit("&quot;");
    assert("\""@ =~= seq!['"']);
    assert(!"&quot;"@.contains('<') && !"&quot;"@.contains('>') && !"&quot;"@.contains('"'));
    lemma_replace_all_leaves_out(escape_text(s), "\""@, "&quot;"@, '<');
    lemma_replace_all_leaves_out(escape_text(s), "\""@, "&quot;"@, '>');
    lemma_replace_all_leaves_out(escape_text(s), "\""@, "&quot;"@, '"');
}

/// Replaces every occurrence of the literal `pat` in `s`.
pub fn replace_literal(s: &Vec<char>, pat: &str, rep: &str) -> (out: Vec<char>)
    ensures
        out@ == replace_all(s@, pat@, rep@),
{
    let p = chars_of(pat);
    let r = chars_of(rep);
    replace_chars(s, &p, &r)
}

/// Escapes text content of an XML element.
pub fn escape_xml_text(value: &str) -> (out: String)
    ensures
        out@ == escape_text(value@),
{
    let v = chars_of(value);
    let v = replace_literal(&v, "&", "&amp;");
    let v = replace_literal(&v, "<", "&lt;");
    let v = replace_literal(&v, ">", "&gt;");
    string_of(v.as_slice())
}

/// Escapes an XML attribute value written between double quotes.
pub fn escape_xml_attr(value: &str) -> (out: String)
    ensures
        out@ == escape_attr(value@),
{
    let t = escape_xml_text(value);
    let v = chars_of(t.as_str());
    let v = replace_literal(&v, "\"", "&quot;");
    string_of(v.as_slice())
}

/// The XML declaration and the opening `call` element of every request.
pub open spec fn call_head(pcbid: Seq<char>, tag: Seq<char>) -> Seq<char> {
    "<?xml version=\"1.0\" encoding=\"UTF-8\"?><call model=\""@ + MODEL@ + "\" srcid=\""@ + pcbid
        + "\" tag=\""@ + tag + "\">"@
}

fn push_call_head(out: &mut String, pcbid: &str, tag: &str)
    ensures
        final(out)@ == old(out)@ + call_head(pcbid@, tag@),
{
    append_str(out, "<?xml version=\"1.0\" encoding=\"UTF-8\"?><call model=\"");
    append_str(out, MODEL);
    append_str(out, "\" srcid=\"");
    append_str(out, pcbid);
    append_str(out, "\" tag=\"");
    append_str(out, tag);
    append_str(out, "\">");
    assert(final(out)@ =~= old(out)@ + call_head(pcbid@, tag@));
}

/// The `services.get` request.
pub open spec fn services_request(pcbid: Seq<char>, tag: Seq<char>) -> Seq<char> {
    call_head(pcbid, tag) + "<services method=\"get\"/></call>"@
}

pub fn services_get_xml(pcbid: &str, tag: &str) -> (xml: String)
    ensures
        xml@ == services_request(pcbid@, tag@),
{
    let mut out = String::new();
    push_call_head(&mut out, pcbid, tag);
    append_str(&mut out, "<services method=\"get\"/></call>");
    assert(out@ =~= services_request(pcbid@, tag@));
    out
}

/// The `cardmng.inquire` request for a card.
pub open spec fn inquire_request(pcbid: Seq<char>, tag: Seq<char>, card_id: Seq<char>) -> Seq<
    char,
> {
    call_head(pcbid, tag) + "<cardmng cardid=\""@ + escape_attr(card_id)
        + "\" cardtype=\"1\" method=\"inquire\" update=\"0\"/></call>"@
}

pub fn cardmng_inquire_xml(pcbid: &str, tag: &str, card_id: &str) -> (xml: String)
    ensures
        xml@ == inquire_request(pcbid@, tag@, card_id@),
{
    let mut out = String::new();
    push_call_head(&mut out, pcbid, tag);
    append_str(&mut out, "<cardmng cardid=\"");
    let id = escape_xml_attr(card_id);
    append_str(&mut out, id.as_str());
    append_str(&mut out, "\" cardtype=\"1\" method=\"inquire\" update=\"0\"/></call>");
    assert(out@ =~= inquire_request(pcbid@, tag@, card_id@));
    out
}

/// The `cardmng.authpass` request that checks a card's password.
pub open spec fn authpass_request(
    pcbid: Seq<char>,
    tag: Seq<char>,
    refid: Seq<char>,
    password: Seq<char>,
) -> Seq<char> {
    call_head(pcbid, tag) + "<cardmng method=\"authpass\" pass=\""@ + escape_attr(password)
        + "\" refid=\""@ + escape_attr(refid) + "\"/></call>"@
}

pub fn cardmng_authpass_xml(pcbid: &str, tag: &str, refid: &str, password: &str) -> (xml: String)
    ensures
        xml@ == authpass_request(pcbid@, tag@, refid@, password@),
{
    let mut out = String::new();
    push_call_head(&mut out, pcbid, tag);
    append_str(&mut out, "<cardmng method=\"authpass\" pass=\"");
    let pass = escape_xml_attr(password);
    append_str(&mut out, pass.as_str());
    append_str(&mut out, "\" refid=\"");
    let r = escape_xml_attr(refid);
    append_str(&mut out, r.as_str());
    append_str(&mut out, "\"/></call>");
    assert(out@ =~= authpass_request(pcbid@, tag@, refid@, password@));
    out
}

/// A `game` request with the given method for a player.
pub open spec fn game_request(
    pcbid: Seq<char>,
    tag: Seq<char>,
    method: Seq<char>,
    refid: Seq<char>,
) -> Seq<char> {
    call_head(pcbid, tag) + "<game k=\""@ + GAME_SECURITY_KEY@ + "\" method=\""@ + method
        + "\" ver=\"0\"><refid __type=\"str\">"@ + escape_text(refid) + "</refid></game></call>"@
}

fn game_xml(pcbid: &str, tag: &str, method: &str, refid: &str) -> (xml: String)
    ensures
        xml@ == game_request(pcbid@, tag@, method@, refid@),
{
    let mut out = String::new();
    push_call_head(&mut out, pcbid, tag);
    append_str(&mut out, "<game k=\"");
    append_str(&mut out, GAME_SECURITY_KEY);
    append_str(&mut out, "\" method=\"");
    append_str(&mut out, method);
    append_str(&mut out, "\" ver=\"0\"><refid __type=\"str\">");
    let r = escape_xml_text(refid);
    append_str(&mut out, r.as_str());
    append_str(&mut out, "</refid></game></call>");
    assert(out@ =~= game_request(pcbid@, tag@, method@, refid@));
    out
}

/// The `game.sv7_load_m` request for a player's scores.
pub fn score_load_xml(pcbid: &str, tag: &str, refid: &str) -> (xml: String)
    ensures
        xml@ == game_request(pcbid@, tag@, "sv7_load_m"@, refid@),
{
    game_xml(pcbid, tag, "sv7_load_m", refid)
}

/// The `game.sv7_load` request for a player's profile.
pub fn profile_load_xml(pcbid: &str, tag: &str, refid: &str) -> (xml: String)
    ensures
        xml@ == game_request(pcbid@, tag@, "sv7_load"@, refid@),
{
    game_xml(pcbid, tag, "sv7_load", refid)
}

} // verus!

verus! {

/// An address with `http://` put in front when it names no scheme.
pub open spec fn with_scheme(t: Seq<char>) -> Seq<char> {
    if starts_with(t, "http://"@) || starts_with(t, "https://"@) {
        t
    } else {
        "http://"@ + t
    }
}

/// An address the user typed, trimmed and without trailing slashes.
pub open spec fn address_core(value: Seq<char>) -> Seq<char> {
    trim_end_char(trim(value), '/')
}

/// The base address of the cloud server, or the error for an empty one.
pub open spec fn server_url(value: Seq<char>) -> Result<Seq<char>, Seq<char>> {
    let t = address_core(value);
    if t.len() == 0 {
        Err("Cloud server address is required."@)
    } else {
        Ok(with_scheme(t))
    }
}

proof fn lemma_trim_end_char_last(s: Seq<char>, c: char)
    ensures
        trim_end_char(s, c).len() > 0 ==> trim_end_char(s, c).last() != c,
    decreases s.len(),
{
    if s.len() > 0 && s.last() == c {
        lemma_trim_end_char_last(s.drop_last(), c);
    }
}

/// A server address the user gives is used with an `http://` or `https://`
/// scheme and without a trailing slash.
pub proof fn server_urls_have_a_scheme_and_no_trailing_slash(value: Seq<char>)
    ensures
        server_url(value) matches Ok(u) ==> (starts_with(u, "http://"@) || starts_with(
            u,
            "https://"@,
        )) && u.len() > 0 && u.last() != '/',
{
    let t = address_core(value);
    lemma_trim_end_char_last(trim(value), '/');
    if t.len() > 0 && !(starts_with(t, "http://"@) || starts_with(t, "https://"@)) {
        let u = "http://"@ + t;
        assert(u.take("http://"@.len() as int) =~= "http://"@);
        assert(u.last() == t.last());
    }
}

/// The trimmed address without trailing slashes, with a scheme when it is not empty.
pub fn address_with_scheme(value: &str) -> (r: Vec<char>)
    ensures
        address_core(value@).len() == 0 ==> r@.len() == 0,
        address_core(value@).len() != 0 ==> r@ == with_scheme(address_core(value@)),
{
    let v = chars_of(value);
    let t = trim_chars(&v);
    let t = trim_end_char_chars(&t, '/');
    if t.len() == 0 {
        return t;
    }
    let http = chars_of("http://");
    let https = chars_of("https://");
    if starts_with_chars(&t, &http) || starts_with_chars(&t, &https) {
        t
    } else {
        let mut r = http;
        let mut k: usize = 0;
        while k < t.len()
            invariant
                k <= t@.len(),
                r@ == "http://"@ + t@.take(k as int),
            decreases t@.len() - k,
        {
            r.push(t[k]);
            k = k + 1;
            assert(r@ =~= "http://"@ + t@.take(k as int));
        }
        assert(t@.take(t@.len() as int) == t@);
        r
    }
}

/// Normalizes the cloud server address the user gave.
pub fn normalize_server_url(value: &str) -> (r: Result<String, String>)
    ensures
        text_result(r) == server_url(value@),
{
    let a = address_with_scheme(value);
    if a.len() == 0 {
        Err(String::from_str("Cloud server address is required."))
    } else {
        Ok(string_of(a.as_slice()))
    }
}

/// The PCBID to use: the trimmed one given, or the default when that is empty.
pub open spec fn pcbid_of(value: Seq<char>) -> Seq<char> {
    if trim(value).len() == 0 {
        DEFAULT_PCBID@
    } else {
        trim(value)
    }
}

pub fn normalized_pcbid(value: &str) -> (r: String)
    ensures
        r@ == pcbid_of(value@),
{
    let t = trimmed(value);
    if t.as_str().is_empty() {
        String::from_str(DEFAULT_PCBID)
    } else {
        t
    }
}

/// The address a method is posted to.
pub open spec fn endpoint(url: Seq<char>, method: Seq<char>) -> Seq<char> {
    url + (if url.contains('?') {
        "&"@
    } else {
        "?"@
    }) + "model="@ + MODEL@ + "&f="@ + method
}

pub fn method_endpoint(url: &str, method_name: &str) -> (r: String)
    ensures
        r@ == endpoint(url@, method_name@),
{
    let v = chars_of(url);
    let mut out = String::from_str(url);
    if contains_char(&v, '?') {
        append_str(&mut out, "&");
    } else {
        append_str(&mut out, "?");
    }
    append_str(&mut out, "model=");
    append_str(&mut out, MODEL);
    append_str(&mut out, "&f=");
    append_str(&mut out, method_name);
    assert(out@ =~= endpoint(url@, method_name@));
    out
}

/// The `Content-Length` header value for a body.
pub fn body_len_header(body: &[u8]) -> (r: String)
    ensures
        r@ == decimal(body@.len()),
{
    decimal_string(body.len() as u64)
}

/// What an error message appends of a response body: nothing for a blank
/// body, else `": "` and the trimmed body.
pub open spec fn suffix_of(body: Seq<char>) -> Seq<char> {
    if trim(body).len() == 0 {
        Seq::empty()
    } else {
        ": "@ + trim(body)
    }
}

pub fn response_suffix(body: &str) -> (r: String)
    ensures
        r@ == suffix_of(body@),
{
    let t = trimmed(body);
    if t.as_str().is_empty() {
        String::new()
    } else {
        let mut out = String::from_str(": ");
        append_str(&mut out, t.as_str());
        out
    }
}

/// The answer of the server to a card request.
pub struct CardmngResponse {
    pub refid: Option<String>,
    pub status: Option<String>,
    pub authneeded: bool,
}

/// A card answer as the specifications see it.
pub struct CardView {
    pub refid: Option<Seq<char>>,
    pub status: Option<Seq<char>>,
    pub authneeded: bool,
}

impl View for CardmngResponse {
    type V = CardView;

    open spec fn view(&self) -> CardView {
        CardView {
            refid: opt_text(self.refid),
            status: opt_text(self.status),
            authneeded: self.authneeded,
        }
    }
}

/// Whether a status other than `"0"` is present.
pub open spec fn status_is_failure(status: Option<Seq<char>>) -> bool {
    match status {
        Some(s) => s != "0"@,
        None => false,
    }
}

fn status_failed(status: &Option<String>) -> (r: bool)
    ensures
        r == status_is_failure(opt_text(*status)),
{
    match status {
        Some(s) => !same_text(s.as_str(), "0"),
        None => false,
    }
}

/// Whether the card answer asks for the password to be checked.
pub open spec fn needs_auth(card: CardView) -> bool {
    card.authneeded || status_is_failure(card.status)
}

pub fn should_authenticate(card: &CardmngResponse) -> (r: bool)
    ensures
        r == needs_auth(card@),
{
    card.authneeded || status_failed(&card.status)
}

/// What follows from the answer to `cardmng.inquire`: the player's refid and
/// whether the password must be checked, or the error that ends the lookup.
pub open spec fn inquire_outcome(card: CardView, password: Seq<char>) -> Result<
    (Seq<char>, bool),
    Seq<char>,
> {
    match card.refid {
        None => Err("Card was not found on the cloud server."@),
        Some(refid) => {
            let check = needs_auth(card) || trim(password).len() != 0;
            if check && trim(password).len() == 0 {
                Err("Cloud server requires a password for this card."@)
            } else {
                Ok((refid, check))
            }
        },
    }
}

pub fn card_inquire_outcome(card: &CardmngResponse, password: &str) -> (r: Result<
    (String, bool),
    String,
>)
    ensures
        match r {
            Ok((refid, check)) => inquire_outcome(card@, password@) == Ok::<(Seq<char>, bool), Seq<char>>((refid@, check)),
            Err(e) => inquire_outcome(card@, password@) == Err::<(Seq<char>, bool), Seq<char>>(e@),
        },
{
    match &card.refid {
        None => Err(String::from_str("Card was not found on the cloud server.")),
        Some(refid) => {
            let pass = trimmed(password);
            let check = should_authenticate(card) || !pass.as_str().is_empty();
            if check && pass.as_str().is_empty() {
                Err(String::from_str("Cloud server requires a password for this card."))
            } else {
                Ok((refid.clone(), check))
            }
        },
    }
}

/// What follows from the answer to `cardmng.authpass`: a status other than
/// `"0"` (an absent one counts as `"0"`) rejects the password.
pub open spec fn authpass_outcome(auth: CardView) -> Result<(), Seq<char>> {
    if status_is_failure(auth.status) {
        Err("Cloud server rejected the card password."@)
    } else {
        Ok(())
    }
}

pub fn card_authpass_outcome(auth: &CardmngResponse) -> (r: Result<(), String>)
    ensures
        match r {
            Ok(()) => authpass_outcome(auth@) == Ok::<(), Seq<char>>(()),
            Err(e) => authpass_outcome(auth@) == Err::<(), Seq<char>>(e@),
        },
{
    if status_failed(&auth.status) {
        Err(String::from_str("Cloud server rejected the card password."))
    } else {
        Ok(())
    }
}

} // verus!

verus! {

/// The value of the attribute `key` in the text of an element's attributes:
/// what follows the first `key="`, up to the next `"`.
pub open spec fn attr_value(attrs: Seq<char>, key: Seq<char>) -> Option<Seq<char>> {
    let needle = key + "=\""@;
    match find_from(attrs, needle, 0) {
        None => None,
        Some(i) => {
            let rest = attrs.skip(i + needle.len());
            match find_from(rest, "\""@, 0) {
                None => None,
                Some(e) => Some(rest.take(e)),
            }
        },
    }
}

/// Looks up an attribute in the text of an element's attributes.
pub fn extract_attr(attrs: &str, key: &str) -> (r: Option<String>)
    ensures
        match r {
            Some(v) => attr_value(attrs@, key@) == Some(v@),
            None => attr_value(attrs@, key@) is None,
        },
{
    let a = chars_of(attrs);
    let mut needle = chars_of(key);
    needle.push('=');
    needle.push('"');
    assert(needle@ == key@ + "=\""@) by {
        reveal_strlit("=\"");
    }
    let quote = chars_of("\"");
    proof {
        reveal_strlit("\"");
        lemma_find_from_bounds(a@, needle@, 0);
    }
    let alen = a.len();
    match find_from_chars(&a, &needle, 0) {
        None => None,
        Some(i) => {
            let start = i + needle.len();
            let rest = slice_chars(&a, start, a.len());
            assert(rest@ == a@.skip(start as int));
            proof {
                lemma_find_from_bounds(rest@, quote@, 0);
            }
            match find_from_chars(&rest, &quote, 0) {
                None => None,
                Some(e) => {
                    let v = slice_chars(&rest, 0, e);
                    assert(v@ == rest@.take(e as int));
                    Some(string_of(v.as_slice()))
                },
            }
        },
    }
}

/// The attribute text of an `<item` piece: up to its first `>`.
pub open spec fn item_attrs(item: Seq<char>) -> Seq<char> {
    match find_from(item, ">"@, 0) {
        Some(e) => item.take(e),
        None => item,
    }
}

/// The services named by the items, in document order; a later item with the
/// same name replaces an earlier one.
pub open spec fn collect_services(items: Seq<Seq<char>>) -> Map<Seq<char>, Seq<char>>
    decreases items.len(),
{
    if items.len() == 0 {
        Map::empty()
    } else {
        let m = collect_services(items.drop_last());
        let a = item_attrs(items.last());
        match (attr_value(a, "name"@), attr_value(a, "url"@)) {
            (Some(n), Some(u)) => m.insert(n, u),
            _ => m,
        }
    }
}

/// The services that stand in for `sdvx`, in the order they are tried.
pub open spec fn fallback_services() -> Seq<Seq<char>> {
    seq![
        "local"@,
        "lobby"@,
        "local2"@,
        "lobby2"@,
        "player2"@,
        "pcb2"@,
        "shop2"@,
        "info2"@,
        "lab"@,
        "local3"@,
    ]
}

/// The address of the first of `names` that `m` holds.
pub open spec fn first_present(m: Map<Seq<char>, Seq<char>>, names: Seq<Seq<char>>) -> Option<
    Seq<char>,
>
    decreases names.len(),
{
    if names.len() == 0 {
        None
    } else if m.contains_key(names[0]) {
        Some(m[names[0]])
    } else {
        first_present(m, names.drop_first())
    }
}

/// The services that a `services.get` answer names: every `<item` with a
/// `name` and a `url`, and, when no `sdvx` service is named, `sdvx` mapped to
/// the first fallback service present.
pub open spec fn services_of(xml: Seq<char>) -> Map<Seq<char>, Seq<char>> {
    let m = collect_services(pieces_from(xml, "<item"@, 0));
    if m.contains_key("sdvx"@) {
        m
    } else {
        match first_present(m, fallback_services()) {
            Some(u) => m.insert("sdvx"@, u),
            None => m,
        }
    }
}

/// Service names and their addresses.
pub struct ServiceMap {
    map: StringHashMap<String>,
}

impl View for ServiceMap {
    type V = Map<Seq<char>, Seq<char>>;

    closed spec fn view(&self) -> Map<Seq<char>, Seq<char>> {
        Map::new(|k: Seq<char>| self.map@.contains_key(k), |k: Seq<char>| self.map@[k]@)
    }
}

impl ServiceMap {
    pub fn new() -> (m: ServiceMap)
        ensures
            m@ == Map::<Seq<char>, Seq<char>>::empty(),
    {
        let m = ServiceMap { map: StringHashMap::new() };
        assert(m@ =~= Map::<Seq<char>, Seq<char>>::empty());
        m
    }

    pub fn insert(&mut self, name: String, url: String)
        ensures
            final(self)@ == old(self)@.insert(name@, url@),
    {
        let ghost n = name@;
        let ghost u = url@;
        self.map.insert(name, url);
        assert(final(self)@ =~= old(self)@.insert(n, u));
    }

    pub fn get(&self, name: &str) -> (r: Option<&String>)
        ensures
            match r {
                Some(v) => self@.contains_key(name@) && v@ == self@[name@],
                None => !self@.contains_key(name@),
            },
    {
        self.map.get(name)
    }

    pub fn contains_key(&self, name: &str) -> (r: bool)
        ensures
            r == self@.contains_key(name@),
    {
        self.map.contains_key(name)
    }

    pub fn is_empty(&self) -> (r: bool)
        ensures
            r == (self@.dom() =~= Set::<Seq<char>>::empty()),
    {
        let r = self.map.is_empty();
        assert(self@.dom() =~= self.map@.dom());
        assert(r == (self.map@.dom() =~= Set::<Seq<char>>::empty()));
        r
    }
}

fn fallback_names() -> (v: Vec<&'static str>)
    ensures
        v@.len() == fallback_services().len(),
        forall|k: int| 0 <= k < v@.len() ==> #[trigger] v@[k]@ == fallback_services()[k],
{
    let v = vec![
        "local",
        "lobby",
        "local2",
        "lobby2",
        "player2",
        "pcb2",
        "shop2",
        "info2",
        "lab",
        "local3",
    ];
    v
}

/// Reads the service list out of a `services.get` answer.
pub fn parse_services(xml: &str) -> (r: Result<ServiceMap, String>)
    ensures
        r matches Ok(m) && m@ == services_of(xml@),
{
    let s = chars_of(xml);
    let p = chars_of("<item");
    proof {
        reveal_strlit("<item");
    }
    let items = pieces_after(&s, &p);
    let gt = chars_of(">");
    proof {
        reveal_strlit(">");
    }
    let mut services = ServiceMap::new();
    let ghost all = pieces_from(s@, p@, 0);
    let mut k: usize = 0;
    while k < items.len()
        invariant
            k <= items@.len(),
            items@.len() == all.len(),
            all == pieces_from(s@, p@, 0),
            forall|j: int| 0 <= j < items@.len() ==> #[trigger] items@[j]@ == all[j],
            gt@ == ">"@,
            gt@.len() == 1,
            services@ == collect_services(all.take(k as int)),
        decreases items@.len() - k,
    {
        let item = &items[k];
        assert(item@ == all[k as int]);
        proof {
            lemma_find_from_bounds(item@, gt@, 0);
        }
        let end = match find_from_chars(item, &gt, 0) {
            Some(e) => e,
            None => item.len(),
        };
        let attrs_chars = slice_chars(item, 0, end);
        assert(attrs_chars@ == item_attrs(item@)) by {
            if find_from(item@, gt@, 0) is None {
                assert(item@.subrange(0, item@.len() as int) == item@);
            }
        }
        let attrs = string_of(attrs_chars.as_slice());
        assert(all.take(k + 1).drop_last() == all.take(k as int));
        match (extract_attr(attrs.as_str(), "name"), extract_attr(attrs.as_str(), "url")) {
            (Some(name), Some(url)) => {
                services.insert(name, url);
            },
            _ => {},
        }
        k = k + 1;
    }
    assert(all.take(all.len() as int) == all);
    let ghost m = services@;
    assert(m == collect_services(pieces_from(xml@, "<item"@, 0)));
    if !services.contains_key("sdvx") {
        let names = fallback_names();
        assert(fallback_services().skip(0) == fallback_services());
        let mut j: usize = 0;
        while j < names.len()
            invariant
                j <= names@.len(),
                names@.len() == fallback_services().len(),
                forall|i: int| 0 <= i < names@.len() ==> #[trigger] names@[i]@ == fallback_services()[i],
                services@ == m,
                m == collect_services(pieces_from(xml@, "<item"@, 0)),
                !m.contains_key("sdvx"@),
                first_present(m, fallback_services()) == first_present(
                    m,
                    fallback_services().skip(j as int),
                ),
            decreases names@.len() - j,
        {
            let name = names[j];
            assert(fallback_services().skip(j as int)[0] == name@);
            assert(fallback_services().skip(j as int).drop_first() == fallback_services().skip(
                j + 1,
            ));
            match services.get(name) {
                Some(url) => {
                    let u = url.clone();
                    services.insert(String::from_str("sdvx"), u);
                    return Ok(services);
                },
                None => {},
            }
            j = j + 1;
        }
    }
    Ok(services)
}

/// The address a call to `service` goes to: the service's own address, for
/// `sdvx` the `local` one when it has none, else the base address.
pub open spec fn call_address(
    services: Map<Seq<char>, Seq<char>>,
    service: Seq<char>,
    base: Seq<char>,
) -> Seq<char> {
    if services.contains_key(service) {
        services[service]
    } else if service == "sdvx"@ && services.contains_key("local"@) {
        services["local"@]
    } else {
        base
    }
}

pub fn service_url(services: &ServiceMap, service: &str, base_url: &str) -> (r: String)
    ensures
        r@ == call_address(services@, service@, base_url@),
{
    match services.get(service) {
        Some(u) => u.clone(),
        None => {
            if same_text(service, "sdvx") {
                match services.get("local") {
                    Some(u) => u.clone(),
                    None => String::from_str(base_url),
                }
            } else {
                String::from_str(base_url)
            }
        },
    }
}

} // verus!

verus! {

/// The value of an ASCII hexadecimal digit.
pub open spec fn hex_value(b: u8) -> Option<nat> {
    if 48 <= b <= 57 {
        Some((b - 48) as nat)
    } else if 97 <= b <= 102 {
        Some((b - 87) as nat)
    } else if 65 <= b <= 70 {
        Some((b - 55) as nat)
    } else {
        None
    }
}

/// What `u8::from_str_radix(.., 16)` gives for two bytes: two hex digits, or
/// a `+` and one hex digit.
pub open spec fn hex_pair(a: u8, b: u8) -> Option<u8> {
    match (hex_value(a), hex_value(b)) {
        (Some(x), Some(y)) => Some((x * 16 + y) as u8),
        _ => if a == 43 {
            match hex_value(b) {
                Some(y) => Some(y as u8),
                None => None,
            }
        } else {
            None
        },
    }
}

/// The bytes that consecutive pairs of `bytes` denote, if every pair is valid.
pub open spec fn hex_pairs(bytes: Seq<u8>) -> Option<Seq<u8>>
    decreases bytes.len(),
{
    if bytes.len() < 2 {
        Some(Seq::empty())
    } else {
        match hex_pair(bytes[0], bytes[1]) {
            None => None,
            Some(v) => match hex_pairs(bytes.skip(2)) {
                Some(rest) => Some(seq![v] + rest),
                None => None,
            },
        }
    }
}

/// The key material a hex string denotes, or the error it is refused with.
pub open spec fn hex_decode(bytes: Seq<u8>) -> Result<Seq<u8>, Seq<char>> {
    if bytes.len() % 2 != 0 {
        Err("Invalid Eamuse key material."@)
    } else {
        match hex_pairs(bytes) {
            Some(v) => Ok(v),
            None => Err("Invalid hex data."@),
        }
    }
}

fn hex_value_of(b: u8) -> (r: Option<u8>)
    ensures
        match r {
            Some(v) => hex_value(b) == Some(v as nat) && v < 16,
            None => hex_value(b) is None,
        },
{
    if 48 <= b && b <= 57 {
        Some(b - 48)
    } else if 97 <= b && b <= 102 {
        Some(b - 87)
    } else if 65 <= b && b <= 70 {
        Some(b - 55)
    } else {
        None
    }
}

/// Decodes the hexadecimal text of an `X-Eamuse-Info` value, pair by pair of bytes.
pub fn decode_hex(value: &str) -> (r: Result<Vec<u8>, String>)
    ensures
        match r {
            Ok(v) => hex_decode(value.spec_bytes()) == Ok::<Seq<u8>, Seq<char>>(v@),
            Err(e) => hex_decode(value.spec_bytes()) == Err::<Seq<u8>, Seq<char>>(e@),
        },
{
    let bytes = value.as_bytes();
    let n = bytes.len();
    if n % 2 != 0 {
        return Err(String::from_str("Invalid Eamuse key material."));
    }
    let ghost b = bytes@;
    let mut out: Vec<u8> = Vec::new();
    let mut k: usize = 0;
    assert(b.skip(0) == b);
    while k < n
        invariant
            n == b.len(),
            b == bytes@,
            b == value.spec_bytes(),
            n % 2 == 0,
            k % 2 == 0,
            k <= n,
            hex_pairs(b) == match hex_pairs(b.skip(k as int)) {
                Some(rest) => Some(out@ + rest),
                None => None::<Seq<u8>>,
            },
        decreases n - k,
    {
        let x = bytes[k];
        let y = bytes[k + 1];
        let ghost tail = b.skip(k as int);
        assert(tail[0] == x && tail[1] == y);
        assert(tail.skip(2) == b.skip(k + 2));
        let v: u8 = match (hex_value_of(x), hex_value_of(y)) {
            (Some(hx), Some(hy)) => hx * 16 + hy,
            _ => {
                if x == 43 {
                    match hex_value_of(y) {
                        Some(hy) => hy,
                        None => {
                            assert(hex_pair(x, y) is None);
                            assert(hex_pairs(tail) is None);
                            return Err(String::from_str("Invalid hex data."));
                        },
                    }
                } else {
                    assert(hex_pair(x, y) is None);
                    assert(hex_pairs(tail) is None);
                    return Err(String::from_str("Invalid hex data."));
                }
            },
        };
        assert(hex_pair(x, y) == Some(v));
        let ghost before = out@;
        out.push(v);
        proof {
            match hex_pairs(b.skip(k + 2)) {
                Some(rest) => {
                    assert(before + (seq![v] + rest) == out@ + rest);
                },
                None => {},
            }
        }
        k = k + 2;
    }
    assert(b.skip(n as int).len() == 0);
    assert(out@ + Seq::<u8>::empty() == out@);
    Ok(out)
}

/// The MD5 digest of `data`. The name stands for what the `md-5` crate
/// computes; the digest is not written out here.
pub uninterp spec fn md5_of(data: Seq<u8>) -> Seq<u8>;

/// MD5 of `data` by the `md-5` crate's `Md5::digest`; the contract claims
/// only that the 16 bytes are the digest of exactly `data`.
#[verifier::external_body]
fn md5_digest(data: &[u8]) -> (d: [u8; 16])
    ensures
        d@ == md5_of(data@),
{
    md5::Md5::digest(data).into()
}

/// The fixed key mixed into every packet key.
pub open spec fn internal_key() -> Seq<u8> {
    seq![
        0x69u8, 0xD7, 0x46, 0x27, 0xD9, 0x85, 0xEE, 0x21, 0x87, 0x16, 0x15, 0x70, 0xD0, 0x8D,
        0x93, 0xB1, 0x24, 0x55, 0x03, 0x5B, 0x6D, 0xF0, 0xD8, 0x20, 0x5D, 0xF5,
    ]
}

fn internal_key_bytes() -> (v: Vec<u8>)
    ensures
        v@ == internal_key(),
{
    let v: Vec<u8> = vec![
        0x69u8, 0xD7, 0x46, 0x27, 0xD9, 0x85, 0xEE, 0x21, 0x87, 0x16, 0x15, 0x70, 0xD0, 0x8D,
        0x93, 0xB1, 0x24, 0x55, 0x03, 0x5B, 0x6D, 0xF0, 0xD8, 0x20, 0x5D, 0xF5,
    ];
    assert(v@ =~= internal_key());
    v
}

/// The hex text of an `X-Eamuse-Info` value: without a leading `1-`, and
/// without any `-`.
pub open spec fn info_hex(info: Seq<char>) -> Seq<char> {
    let body = if starts_with(info, "1-"@) {
        info.skip(2)
    } else {
        info
    };
    replace_all(body, "-"@, ""@)
}

/// The packet key an `X-Eamuse-Info` value selects: the MD5 of its hex
/// bytes followed by the fixed key.
pub open spec fn packet_key(info: Seq<char>) -> Result<Seq<u8>, Seq<char>> {
    match hex_decode(encode_utf8(info_hex(info))) {
        Ok(material) => Ok(md5_of(material + internal_key())),
        Err(e) => Err(e),
    }
}

/// The RC4 key of a packet sent with the `X-Eamuse-Info` value `info`.
pub fn derive_key(info: &str) -> (r: Result<[u8; 16], String>)
    ensures
        match r {
            Ok(k) => packet_key(info@) == Ok::<Seq<u8>, Seq<char>>(k@),
            Err(e) => packet_key(info@) == Err::<Seq<u8>, Seq<char>>(e@),
        },
{
    let v = chars_of(info);
    let prefix = chars_of("1-");
    proof {
        reveal_strlit("1-");
    }
    let body = if starts_with_chars(&v, &prefix) {
        slice_chars(&v, 2, v.len())
    } else {
        v
    };
    proof {
        reveal_strlit("1-");
    }
    let hex_chars = replace_literal(&body, "-", "");
    let hex = string_of(hex_chars.as_slice());
    let hex_text = hex.as_str();
    assert(hex_text.spec_bytes() == encode_utf8(info_hex(info@)));
    let material = match decode_hex(hex_text) {
        Ok(m) => m,
        Err(e) => {
            return Err(e);
        },
    };
    let mut data = material;
    let key = internal_key_bytes();
    let ghost m = data@;
    let mut k: usize = 0;
    while k < key.len()
        invariant
            k <= key@.len(),
            data@ == m + key@.take(k as int),
        decreases key@.len() - k,
    {
        data.push(key[k]);
        k = k + 1;
        assert(data@ =~= m + key@.take(k as int));
    }
    assert(key@.take(key@.len() as int) == key@);
    Ok(md5_digest(data.as_slice()))
}

/// The `X-Eamuse-Info` value for a request sent at `timestamp` with the
/// random salt `salt`: `1-`, eight or more hex digits, `-`, four or more.
pub open spec fn info_header(timestamp: nat, salt: nat) -> Seq<char> {
    "1-"@ + zero_padded(hex_digits(timestamp), 8) + "-"@ + zero_padded(hex_digits(salt), 4)
}

pub fn eamuse_info(timestamp: u64, salt: u16) -> (r: String)
    ensures
        r@ == info_header(timestamp as nat, salt as nat),
{
    let mut v: Vec<char> = Vec::new();
    v.push('1');
    v.push('-');
    push_hex_padded(&mut v, timestamp, 8);
    v.push('-');
    push_hex_padded(&mut v, salt as u64, 4);
    proof {
        reveal_strlit("1-");
        reveal_strlit("-");
    }
    assert(v@ =~= info_header(timestamp as nat, salt as nat));
    string_of(v.as_slice())
}

/// Whether `c` is a lower-case hexadecimal digit.
spec fn lower_hex(c: char) -> bool {
    (48 <= (c as u32) <= 57) || (97 <= (c as u32) <= 102)
}

spec fn all_lower_hex(s: Seq<char>) -> bool {
    forall|i: int| 0 <= i < s.len() ==> lower_hex(#[trigger] s[i])
}

spec fn sixteen_pow(k: nat) -> nat
    decreases k,
{
    if k == 0 {
        1
    } else {
        16 * sixteen_pow((k - 1) as nat)
    }
}

proof fn lemma_hex_char(d: nat)
    requires
        d < 16,
    ensures
        lower_hex(hex_char(d)),
{
    if d < 10 {
        assert(hex_char(d) as u32 == 48 + d);
    } else {
        assert(hex_char(d) as u32 == 87 + d);
    }
}

proof fn lemma_hex_digits_are_hex(n: nat)
    ensures
        all_lower_hex(hex_digits(n)),
    decreases n,
{
    if n < 16 {
        lemma_hex_char(n);
    } else {
        lemma_hex_digits_are_hex(n / 16);
        lemma_hex_char(n % 16);
        let d = hex_digits(n);
        assert forall|i: int| 0 <= i < d.len() implies lower_hex(#[trigger] d[i]) by {
            if i < d.len() - 1 {
                assert(d[i] == hex_digits(n / 16)[i]);
            }
        }
    }
}

proof fn lemma_hex_digits_len(n: nat, k: nat)
    requires
        1 <= k,
        n < sixteen_pow(k),
    ensures
        hex_digits(n).len() <= k,
    decreases k,
{
    if n >= 16 {
        assert(sixteen_pow(1) == 16) by {
            reveal_with_fuel(sixteen_pow, 2);
        }
        assert(k >= 2);
        let p = sixteen_pow((k - 1) as nat);
        assert(n / 16 < p) by (nonlinear_arith)
            requires
                n < 16 * p,
        ;
        lemma_hex_digits_len(n / 16, (k - 1) as nat);
    }
}

proof fn lemma_zero_padded(d: Seq<char>, width: nat)
    requires
        d.len() <= width,
        all_lower_hex(d),
    ensures
        zero_padded(d, width).len() == width,
        all_lower_hex(zero_padded(d, width)),
{
    let z = zero_padded(d, width);
    if d.len() < width {
        let pad = Seq::new((width - d.len()) as nat, |i: int| '0');
        assert forall|i: int| 0 <= i < z.len() implies lower_hex(#[trigger] z[i]) by {
            if i < pad.len() {
                assert(z[i] == '0');
            } else {
                assert(z[i] == d[i - pad.len()]);
            }
        }
    }
}

/// Replacing a one-character pattern passes over a prefix without it.
proof fn lemma_replace_all_prefix(x: Seq<char>, y: Seq<char>, c: char, r: Seq<char>)
    requires
        !x.contains(c),
    ensures
        replace_all(x + y, seq![c], r) == x + replace_all(y, seq![c], r),
    decreases x.len(),
{
    if x.len() == 0 {
        assert(x + y =~= y);
    } else {
        let xy = x + y;
        assert(xy[0] == x[0]);
        assert(x[0] != c);
        assert(!starts_with(xy, seq![c])) by {
            if starts_with(xy, seq![c]) {
                assert(xy.take(1)[0] == c);
            }
        }
        assert(!x.drop_first().contains(c)) by {
            if x.drop_first().contains(c) {
                let i = choose|i: int| 0 <= i < x.drop_first().len() && x.drop_first()[i] == c;
                assert(x[i + 1] == c);
            }
        }
        assert(xy.drop_first() =~= x.drop_first() + y);
        lemma_replace_all_prefix(x.drop_first(), y, c, r);
        assert(seq![x[0]] + (x.drop_first() + replace_all(y, seq![c], r)) =~= x + replace_all(
            y,
            seq![c],
            r,
        ));
    }
}

proof fn lemma_no_dash(s: Seq<char>)
    requires
        all_lower_hex(s),
    ensures
        !s.contains('-'),
{
    if s.contains('-') {
        let i = choose|i: int| 0 <= i < s.len() && s[i] == '-';
        assert(lower_hex(s[i]));
    }
}

/// The UTF-8 bytes of hexadecimal digits are their ASCII codes.
proof fn lemma_encode_hex(s: Seq<char>)
    requires
        all_lower_hex(s),
    ensures
        encode_utf8(s).len() == s.len(),
        forall|i: int| 0 <= i < s.len() ==> #[trigger] encode_utf8(s)[i] == (s[i] as u32) as u8,
    decreases s.len(),
{
    if s.len() > 0 {
        let rest = s.drop_first();
        assert(all_lower_hex(rest)) by {
            assert forall|i: int| 0 <= i < rest.len() implies lower_hex(#[trigger] rest[i]) by {
                assert(rest[i] == s[i + 1]);
            }
        }
        lemma_encode_hex(rest);
        let v = s[0] as u32;
        assert(lower_hex(s[0]));
        assert(v <= 0x7f);
        assert((v & 0x7f) == v) by (bit_vector)
            requires
                v <= 0x7f,
        ;
        let e = encode_utf8(s);
        assert(e == seq![v as u8] + encode_utf8(rest));
        assert forall|i: int| 0 <= i < s.len() implies #[trigger] e[i] == (s[i] as u32) as u8 by {
            if i > 0 {
                assert(e[i] == encode_utf8(rest)[i - 1]);
                assert(rest[i - 1] == s[i]);
            }
        }
    }
}

proof fn lemma_hex_pairs(bytes: Seq<u8>)
    requires
        bytes.len() % 2 == 0,
        forall|i: int| 0 <= i < bytes.len() ==> #[trigger] hex_value(bytes[i]) is Some,
    ensures
        hex_pairs(bytes) is Some,
    decreases bytes.len(),
{
    if bytes.len() >= 2 {
        let rest = bytes.skip(2);
        assert forall|i: int| 0 <= i < rest.len() implies #[trigger] hex_value(rest[i]) is Some by {
            assert(rest[i] == bytes[i + 2]);
        }
        assert(hex_value(bytes[0]) is Some && hex_value(bytes[1]) is Some);
        lemma_hex_pairs(rest);
    }
}

/// The `X-Eamuse-Info` values this client makes select a packet key: their
/// hex text has an even number of digits as long as the timestamp has at
/// most eight, that is before the year 2106.
pub proof fn client_info_headers_select_a_key(timestamp: nat, salt: nat)
    requires
        timestamp < 0x1_0000_0000,
        salt < 0x1_0000,
    ensures
        packet_key(info_header(timestamp, salt)) is Ok,
{
    reveal_strlit("1-");
    reveal_strlit("-");
    reveal_strlit("");
    assert(sixteen_pow(8) == 0x1_0000_0000 && sixteen_pow(4) == 0x1_0000) by {
        reveal_with_fuel(sixteen_pow, 9);
    }
    lemma_hex_digits_len(timestamp, 8);
    lemma_hex_digits_len(salt, 4);
    lemma_hex_digits_are_hex(timestamp);
    lemma_hex_digits_are_hex(salt);
    let a = zero_padded(hex_digits(timestamp), 8);
    let b = zero_padded(hex_digits(salt), 4);
    lemma_zero_padded(hex_digits(timestamp), 8);
    lemma_zero_padded(hex_digits(salt), 4);
    let info = info_header(timestamp, salt);
    assert(info.take(2) =~= "1-"@);
    assert(info.skip(2) =~= a + (seq!['-'] + b));
    assert("-"@ =~= seq!['-']);
    lemma_no_dash(a);
    lemma_no_dash(b);
    lemma_replace_all_prefix(a, seq!['-'] + b, '-', ""@);
    assert((seq!['-'] + b).skip(1) =~= b);
    assert((seq!['-'] + b).take(1) =~= seq!['-']);
    assert(starts_with(seq!['-'] + b, seq!['-']));
    lemma_replace_all_prefix(b, Seq::empty(), '-', ""@);
    assert(b + Seq::<char>::empty() =~= b);
    let hex = a + b;
    assert(info_hex(info) =~= hex);
    assert(all_lower_hex(hex)) by {
        assert forall|i: int| 0 <= i < hex.len() implies lower_hex(#[trigger] hex[i]) by {
            if i < a.len() {
                assert(hex[i] == a[i]);
            } else {
                assert(hex[i] == b[i - a.len()]);
            }
        }
    }
    lemma_encode_hex(hex);
    let bytes = encode_utf8(hex);
    assert forall|i: int| 0 <= i < bytes.len() implies #[trigger] hex_value(bytes[i]) is Some by {
        assert(lower_hex(hex[i]));
        assert(bytes[i] == (hex[i] as u32) as u8);
    }
    lemma_hex_pairs(bytes);
}

/// The body of a response as the protocol delivers it: decrypted with the
/// key its `X-Eamuse-Info` header selects, or unchanged without the header.
pub open spec fn response_plain(info: Option<Seq<char>>, body: Seq<u8>) -> Result<
    Seq<u8>,
    Seq<char>,
> {
    match info {
        None => Ok(body),
        Some(i) => match packet_key(i) {
            Ok(k) => Ok(rc4(k, body)),
            Err(e) => Err(e),
        },
    }
}

/// A body encrypted with the packet key of an `X-Eamuse-Info` value is read
/// back unchanged when it comes with that value: requests and responses use
/// the same cipher under the same key.
pub proof fn bodies_decrypt_under_their_info_key(info: Seq<char>, key: Seq<u8>, body: Seq<u8>)
    requires
        packet_key(info) == Ok::<Seq<u8>, Seq<char>>(key),
        key.len() == 16,
    ensures
        response_plain(Some(info), rc4(key, body)) == Ok::<Seq<u8>, Seq<char>>(body),
{
    crate::rc4::rc4_is_an_involution(key, body);
}

/// Decrypts a response body with the key its `X-Eamuse-Info` value selects.
pub fn decrypt_response(info: Option<&str>, body: &[u8]) -> (r: Result<Vec<u8>, String>)
    ensures
        match r {
            Ok(v) => response_plain(
                match info {
                    Some(i) => Some(i@),
                    None => None,
                },
                body@,
            ) == Ok::<Seq<u8>, Seq<char>>(v@),
            Err(e) => response_plain(
                match info {
                    Some(i) => Some(i@),
                    None => None,
                },
                body@,
            ) == Err::<Seq<u8>, Seq<char>>(e@),
        },
{
    match info {
        None => {
            let mut v: Vec<u8> = Vec::new();
            let mut k: usize = 0;
            while k < body.len()
                invariant
                    k <= body@.len(),
                    v@ == body@.take(k as int),
                decreases body@.len() - k,
            {
                v.push(body[k]);
                k = k + 1;
            }
            assert(body@.take(body@.len() as int) == body@);
            Ok(v)
        },
        Some(i) => {
            let key = derive_key(i)?;
            Ok(rc4_crypt(&key, body))
        },
    }
}

} // verus!

verus! {

/// The position of the first node at or after `from` that is an element named `tag`.
pub open spec fn first_tagged(nodes: Seq<XmlNode>, tag: Seq<char>, from: int) -> Option<int>
    decreases nodes.len() - from,
{
    if from < 0 || from >= nodes.len() {
        None
    } else if has_tag(nodes[from], tag) {
        Some(from)
    } else {
        first_tagged(nodes, tag, from + 1)
    }
}

fn find_tagged(nodes: &Vec<XmlNode>, tag: &str) -> (r: Option<usize>)
    ensures
        match r {
            Some(i) => first_tagged(nodes@, tag@, 0) == Some(i as int) && i < nodes@.len(),
            None => first_tagged(nodes@, tag@, 0) is None,
        },
{
    let mut k: usize = 0;
    while k < nodes.len()
        invariant
            k <= nodes@.len(),
            first_tagged(nodes@, tag@, 0) == first_tagged(nodes@, tag@, k as int),
        decreases nodes@.len() - k,
    {
        if node_has_tag(&nodes[k], tag) {
            return Some(k);
        }
        k = k + 1;
    }
    None
}

/// The card answer that an element of a card response states.
pub open spec fn card_of_node(node: XmlNode) -> CardView {
    CardView {
        refid: attribute_of(node, "refid"@),
        status: attribute_of(node, "status"@),
        authneeded: attribute_of(node, "authneeded"@) == Some("1"@),
    }
}

/// The card answer of a card response's text: its first `cardmng` element.
pub open spec fn card_answer(xml: Seq<char>) -> Result<CardView, Seq<char>> {
    match xml_document(xml) {
        Err(e) => Err("Failed to parse card response: "@ + e),
        Ok(nodes) => match first_tagged(nodes, "cardmng"@, 0) {
            None => Err("Cloud server returned no card response."@),
            Some(i) => Ok(card_of_node(nodes[i])),
        },
    }
}

/// Reads the first `cardmng` element of a card response.
pub fn parse_cardmng(xml: &str) -> (r: Result<CardmngResponse, String>)
    ensures
        match r {
            Ok(card) => card_answer(xml@) == Ok::<CardView, Seq<char>>(card@),
            Err(e) => card_answer(xml@) == Err::<CardView, Seq<char>>(e@),
        },
{
    let nodes = match parse_xml(xml) {
        Ok(n) => n,
        Err(e) => {
            let mut m = String::from_str("Failed to parse card response: ");
            append_str(&mut m, e.as_str());
            return Err(m);
        },
    };
    card_of_nodes(&nodes)
}

/// The card answer of a parsed card response: its first `cardmng` element.
pub fn card_of_nodes(nodes: &Vec<XmlNode>) -> (r: Result<CardmngResponse, String>)
    ensures
        match first_tagged(nodes@, "cardmng"@, 0) {
            None => r matches Err(m) && m@ == "Cloud server returned no card response."@,
            Some(i) => r matches Ok(card) && card@ == card_of_node(nodes@[i]),
        },
{
    match find_tagged(nodes, "cardmng") {
        None => Err(String::from_str("Cloud server returned no card response.")),
        Some(i) => {
            let node = &nodes[i];
            let authneeded = match node_attribute(node, "authneeded") {
                Some(v) => same_text(v.as_str(), "1"),
                None => false,
            };
            Ok(
                CardmngResponse {
                    refid: node_attribute(node, "refid"),
                    status: node_attribute(node, "status"),
                    authneeded,
                },
            )
        },
    }
}

/// The numbers of a `param` text, if every word is a `u32`.
pub open spec fn word_values(ws: Seq<Seq<char>>) -> Option<Seq<nat>>
    decreases ws.len(),
{
    if ws.len() == 0 {
        Some(Seq::empty())
    } else {
        match (word_values(ws.drop_last()), parse_unsigned(ws.last(), u32::MAX as nat)) {
            (Some(v), Some(x)) => Some(v.push(x)),
            _ => None,
        }
    }
}

/// The record that the numbers of a score `param` hold.
pub open spec fn record_from(v: Seq<nat>) -> MusicRecord {
    MusicRecord {
        mid: v[0] as u32,
        chart_type: v[1] as u8,
        score: v[2] as u32,
        clear: v[4] as u8,
        grade: v[5] as u8,
        volforce: v[11] as u32,
    }
}

/// The record a node stands for: a `param` element whose text is more than
/// eleven `u32` numbers.
pub open spec fn param_record(node: XmlNode) -> Option<MusicRecord> {
    if has_tag(node, "param"@) {
        match node.text {
            None => None,
            Some(t) => match word_values(words(t@)) {
                Some(v) => if v.len() > 11 {
                    Some(record_from(v))
                } else {
                    None
                },
                None => None,
            },
        }
    } else {
        None
    }
}

/// The score records of a score answer, in document order.
pub open spec fn score_records(nodes: Seq<XmlNode>) -> Seq<MusicRecord>
    decreases nodes.len(),
{
    if nodes.len() == 0 {
        Seq::empty()
    } else {
        match param_record(nodes.last()) {
            Some(r) => score_records(nodes.drop_last()).push(r),
            None => score_records(nodes.drop_last()),
        }
    }
}

fn param_values(text: &str) -> (r: Option<Vec<u32>>)
    ensures
        match r {
            Some(v) => word_values(words(text@)) matches Some(w) && w.len() == v@.len() && forall|
                k: int,
            | 0 <= k < w.len() ==> #[trigger] w[k] == v@[k] as nat,
            None => word_values(words(text@)) is None,
        },
{
    let ws = split_words(text);
    let ghost all = words(text@);
    let mut values: Vec<u32> = Vec::new();
    let mut k: usize = 0;
    while k < ws.len()
        invariant
            k <= ws@.len(),
            ws@.len() == all.len(),
            all == words(text@),
            forall|j: int| 0 <= j < ws@.len() ==> #[trigger] ws@[j]@ == all[j],
            word_values(all.take(k as int)) matches Some(w) && w.len() == values@.len() && forall|
                j: int,
            | 0 <= j < w.len() ==> #[trigger] w[j] == values@[j] as nat,
        decreases ws@.len() - k,
    {
        assert(all.take(k + 1).drop_last() == all.take(k as int));
        assert(all.take(k + 1).last() == ws@[k as int]@);
        match parse_unsigned_chars(&ws[k], 4294967295u64) {
            None => {
                proof {
                    lemma_word_values_prefix(all, k as int + 1, all.len() as int);
                    assert(all.take(all.len() as int) == all);
                }
                return None;
            },
            Some(x) => {
                values.push(x as u32);
            },
        }
        k = k + 1;
    }
    assert(all.take(all.len() as int) == all);
    Some(values)
}

proof fn lemma_word_values_prefix(ws: Seq<Seq<char>>, k: int, j: int)
    requires
        0 <= k <= j <= ws.len(),
        word_values(ws.take(k)) is None,
    ensures
        word_values(ws.take(j)) is None,
    decreases j - k,
{
    if k < j {
        lemma_word_values_prefix(ws, k, j - 1);
        assert(ws.take(j).drop_last() == ws.take(j - 1));
    }
}

/// Reads the score records of a `game.sv7_load_m` answer.
pub fn parse_score_records(xml: &str) -> (r: Result<Vec<MusicRecord>, String>)
    ensures
        match xml_document(xml@) {
            Err(e) => r matches Err(m) && m@ == "Failed to parse score XML: "@ + e,
            Ok(nodes) => r matches Ok(v) && v@ == score_records(nodes),
        },
{
    let nodes = match parse_xml(xml) {
        Ok(n) => n,
        Err(e) => {
            let mut m = String::from_str("Failed to parse score XML: ");
            append_str(&mut m, e.as_str());
            return Err(m);
        },
    };
    Ok(score_records_of(&nodes))
}

/// The score records of a parsed score answer, in document order.
pub fn score_records_of(nodes: &Vec<XmlNode>) -> (records: Vec<MusicRecord>)
    ensures
        records@ == score_records(nodes@),
{
    let mut records: Vec<MusicRecord> = Vec::new();
    let mut k: usize = 0;
    while k < nodes.len()
        invariant
            k <= nodes@.len(),
            records@ == score_records(nodes@.take(k as int)),
        decreases nodes@.len() - k,
    {
        assert(nodes@.take(k + 1).drop_last() == nodes@.take(k as int));
        assert(nodes@.take(k + 1).last() == nodes@[k as int]);
        let node = &nodes[k];
        if node_has_tag(node, "param") {
            match &node.text {
                None => {},
                Some(t) => match param_values(t.as_str()) {
                    None => {},
                    Some(v) => {
                        if v.len() > 11 {
                            let rec = MusicRecord {
                                mid: v[0],
                                chart_type: v[1] as u8,
                                score: v[2],
                                clear: v[4] as u8,
                                grade: v[5] as u8,
                                volforce: v[11],
                            };
                            proof {
                                let w = word_values(words(t@)).unwrap();
                                assert(w[0] == v@[0] as nat);
                                assert(w[1] == v@[1] as nat);
                                assert(w[2] == v@[2] as nat);
                                assert(w[4] == v@[4] as nat);
                                assert(w[5] == v@[5] as nat);
                                assert(w[11] == v@[11] as nat);
                                assert(rec == record_from(w));
                            }
                            records.push(rec);
                        }
                    },
                },
            }
        }
        k = k + 1;
    }
    assert(nodes@.take(nodes@.len() as int) == nodes@);
    records
}

/// The names under which a profile answer may carry the player's name.
pub open spec fn name_keys() -> Seq<Seq<char>> {
    seq!["name"@, "player_name"@, "playerName"@, "nickname"@]
}

/// The first of `keys` that names an attribute of `node` whose trimmed value is not empty.
pub open spec fn name_attribute(node: XmlNode, keys: Seq<Seq<char>>) -> Option<Seq<char>>
    decreases keys.len(),
{
    if keys.len() == 0 {
        None
    } else {
        match attribute_of(node, keys[0]) {
            Some(v) => if trim(v).len() != 0 {
                Some(trim(v))
            } else {
                name_attribute(node, keys.drop_first())
            },
            None => name_attribute(node, keys.drop_first()),
        }
    }
}

/// The name a single node gives: an attribute first, then its own text when
/// it is an element with one of the name tags.
pub open spec fn node_name(node: XmlNode) -> Option<Seq<char>> {
    match name_attribute(node, name_keys()) {
        Some(v) => Some(v),
        None => if name_keys().contains(node.name@) && node.element {
            match node.text {
                Some(t) => if trim(t@).len() != 0 {
                    Some(trim(t@))
                } else {
                    None
                },
                None => None,
            }
        } else {
            None
        },
    }
}

/// The name of the first node, in document order, that gives one.
pub open spec fn first_name(nodes: Seq<XmlNode>) -> Option<Seq<char>>
    decreases nodes.len(),
{
    if nodes.len() == 0 {
        None
    } else {
        match node_name(nodes[0]) {
            Some(v) => Some(v),
            None => first_name(nodes.drop_first()),
        }
    }
}

fn name_key_list() -> (v: Vec<&'static str>)
    ensures
        v@.len() == name_keys().len(),
        forall|k: int| 0 <= k < v@.len() ==> #[trigger] v@[k]@ == name_keys()[k],
{
    vec!["name", "player_name", "playerName", "nickname"]
}

fn name_of_node(node: &XmlNode) -> (r: Option<String>)
    ensures
        match r {
            Some(v) => node_name(*node) == Some(v@),
            None => node_name(*node) is None,
        },
{
    let keys = name_key_list();
    let mut k: usize = 0;
    assert(name_keys().skip(0) == name_keys());
    while k < keys.len()
        invariant
            k <= keys@.len(),
            keys@.len() == name_keys().len(),
            forall|j: int| 0 <= j < keys@.len() ==> #[trigger] keys@[j]@ == name_keys()[j],
            name_attribute(*node, name_keys()) == name_attribute(*node, name_keys().skip(k as int)),
        decreases keys@.len() - k,
    {
        assert(name_keys().skip(k as int)[0] == keys@[k as int]@);
        assert(name_keys().skip(k as int).drop_first() == name_keys().skip(k + 1));
        match node_attribute(node, keys[k]) {
            Some(v) => {
                let t = trimmed(v.as_str());
                if !t.as_str().is_empty() {
                    return Some(t);
                }
            },
            None => {},
        }
        k = k + 1;
    }
    let mut tagged = false;
    let mut j: usize = 0;
    while j < keys.len()
        invariant
            j <= keys@.len(),
            keys@.len() == name_keys().len(),
            forall|i: int| 0 <= i < keys@.len() ==> #[trigger] keys@[i]@ == name_keys()[i],
            tagged == (exists|i: int| 0 <= i < j && keys@[i]@ == node.name@),
        decreases keys@.len() - j,
    {
        if same_text(node.name.as_str(), keys[j]) {
            tagged = true;
        }
        j = j + 1;
    }
    assert(tagged == name_keys().contains(node.name@)) by {
        if name_keys().contains(node.name@) {
            let i = choose|i: int| 0 <= i < name_keys().len() && name_keys()[i] == node.name@;
            assert(keys@[i]@ == node.name@);
        }
    }
    if tagged && node.element {
        match &node.text {
            Some(t) => {
                let s = trimmed(t.as_str());
                if !s.as_str().is_empty() {
                    return Some(s);
                }
            },
            None => {},
        }
    }
    None
}

/// Finds the player's name in a profile answer; `None` when the answer is
/// not XML or names no player.
pub fn parse_profile_name(xml: &str) -> (r: Option<String>)
    ensures
        match xml_document(xml@) {
            Err(_) => r is None,
            Ok(nodes) => match r {
                Some(v) => first_name(nodes) == Some(v@),
                None => first_name(nodes) is None,
            },
        },
{
    match parse_xml(xml) {
        Ok(nodes) => profile_name_of(&nodes),
        Err(_) => None,
    }
}

/// The player name of a parsed profile answer: the first one it gives.
pub fn profile_name_of(nodes: &Vec<XmlNode>) -> (r: Option<String>)
    ensures
        opt_text(r) == first_name(nodes@),
{
    let mut k: usize = 0;
    assert(nodes@.skip(0) == nodes@);
    while k < nodes.len()
        invariant
            k <= nodes@.len(),
            first_name(nodes@) == first_name(nodes@.skip(k as int)),
        decreases nodes@.len() - k,
    {
        assert(nodes@.skip(k as int)[0] == nodes@[k as int]);
        assert(nodes@.skip(k as int).drop_first() == nodes@.skip(k + 1));
        match name_of_node(&nodes[k]) {
            Some(v) => {
                return Some(v);
            },
            None => {},
        }
        k = k + 1;
    }
    None
}

} // verus!

verus! {

/// What `String::from_utf8_lossy` makes of bytes.
pub uninterp spec fn lossy_text(bytes: Seq<u8>) -> Seq<char>;

/// The text of the error `std::str::from_utf8` reports for bytes.
pub uninterp spec fn utf8_error_text(bytes: Seq<u8>) -> Seq<char>;

/// `String::from_utf8_lossy`: the text of valid UTF-8 is decoded as is;
/// what it gives for other bytes is named, not written out.
#[verifier::external_body]
pub(crate) fn utf8_lossy(bytes: &[u8]) -> (r: String)
    ensures
        r@ == lossy_text(bytes@),
        valid_utf8(bytes@) ==> r@ == decode_utf8(bytes@),
{
    String::from_utf8_lossy(bytes).into_owned()
}

/// `std::str::from_utf8`: valid UTF-8 decodes, anything else is refused
/// with the error's text.
#[verifier::external_body]
pub(crate) fn utf8_text(bytes: &[u8]) -> (r: Result<String, String>)
    ensures
        match r {
            Ok(s) => valid_utf8(bytes@) && s@ == decode_utf8(bytes@),
            Err(e) => !valid_utf8(bytes@) && e@ == utf8_error_text(bytes@),
        },
{
    std::str::from_utf8(bytes).map(|s| s.to_string()).map_err(|err| err.to_string())
}

/// The XML text of a decrypted response body. `rendered` is what KBinXML
/// decoding gave when the body is binary XML, `None` when it is not; a
/// body that is not binary XML is read as lossy UTF-8 text.
pub open spec fn response_xml(body: Seq<u8>, rendered: Option<Result<Seq<u8>, Seq<char>>>) -> Result<
    Seq<char>,
    Seq<char>,
> {
    if body.len() == 0 {
        Err("Cloud server returned an empty response body."@)
    } else {
        match rendered {
            None => Ok(lossy_text(body)),
            Some(Err(e)) => Err(e),
            Some(Ok(xml)) => if valid_utf8(xml) {
                Ok(decode_utf8(xml))
            } else {
                Err("Cloud XML response is not UTF-8: "@ + utf8_error_text(xml))
            },
        }
    }
}

/// The XML text of a decrypted response body.
pub fn response_xml_text(body: &[u8], rendered: Option<Result<Vec<u8>, String>>) -> (r: Result<
    String,
    String,
>)
    ensures
        text_result(r) == response_xml(
            body@,
            match rendered {
                None => None,
                Some(Ok(x)) => Some(Ok(x@)),
                Some(Err(e)) => Some(Err(e@)),
            },
        ),
{
    if body.len() == 0 {
        return Err(String::from_str("Cloud server returned an empty response body."));
    }
    match rendered {
        None => Ok(utf8_lossy(body)),
        Some(Err(e)) => Err(e),
        Some(Ok(xml)) => match utf8_text(xml.as_slice()) {
            Ok(s) => Ok(s),
            Err(e) => {
                let mut m = String::from_str("Cloud XML response is not UTF-8: ");
                append_str(&mut m, e.as_str());
                Err(m)
            },
        },
    }
}

/// The error for a response with an HTTP status other than success.
pub open spec fn http_error(status: u16, body: Seq<u8>) -> Seq<char> {
    "Cloud server returned HTTP "@ + decimal(status as nat) + suffix_of(lossy_text(body))
}

/// The error for a cloud answer with a failing HTTP status.
pub fn cloud_http_error(status: u16, body: &[u8]) -> (r: String)
    ensures
        r@ == http_error(status, body@),
{
    let mut m = String::from_str("Cloud server returned HTTP ");
    let code = decimal_string(status as u64);
    append_str(&mut m, code.as_str());
    let text = utf8_lossy(body);
    let s = response_suffix(text.as_str());
    append_str(&mut m, s.as_str());
    m
}

/// The settings a cloud session starts from: the server's base address, the
/// trimmed card ID and the PCBID.
pub struct CloudSession {
    pub base_url: String,
    pub card_id: String,
    pub pcbid: String,
}

/// The session for the user's input, or the error that refuses it: the
/// address is checked first, then the card ID.
pub open spec fn session_for(address: Seq<char>, card_id: Seq<char>, pcbid: Seq<char>) -> Result<
    (Seq<char>, Seq<char>, Seq<char>),
    Seq<char>,
> {
    match server_url(address) {
        Err(e) => Err(e),
        Ok(base) => if trim(card_id).len() == 0 {
            Err("Card ID is required."@)
        } else {
            Ok((base, trim(card_id), pcbid_of(pcbid)))
        },
    }
}

/// Checks the user's cloud settings and makes the session of a lookup.
pub fn cloud_session(server_url: &str, card_id: &str, pcbid: &str) -> (r: Result<
    CloudSession,
    String,
>)
    ensures
        match r {
            Ok(s) => session_for(server_url@, card_id@, pcbid@) == Ok::<
                (Seq<char>, Seq<char>, Seq<char>),
                Seq<char>,
            >((s.base_url@, s.card_id@, s.pcbid@)),
            Err(e) => session_for(server_url@, card_id@, pcbid@) == Err::<
                (Seq<char>, Seq<char>, Seq<char>),
                Seq<char>,
            >(e@),
        },
{
    let base_url = normalize_server_url(server_url)?;
    let card = trimmed(card_id);
    if card.as_str().is_empty() {
        return Err(String::from_str("Card ID is required."));
    }
    Ok(CloudSession { base_url, card_id: card, pcbid: normalized_pcbid(pcbid) })
}

/// The player and records that cloud scores give.
pub struct CloudScoreResult {
    pub player: PlayerSummary,
    pub records: Vec<MusicRecord>,
}

/// The player name that a profile answer gives: the first name it holds,
/// `UNKNOWN` when it holds none or was not loaded.
pub open spec fn cloud_name(profile_xml: Option<Seq<char>>) -> Seq<char> {
    let xml = match profile_xml {
        Some(x) => x,
        None => Seq::empty(),
    };
    match xml_document(xml) {
        Ok(nodes) => match first_name(nodes) {
            Some(n) => n,
            None => "UNKNOWN"@,
        },
        Err(_) => "UNKNOWN"@,
    }
}

/// Puts together the cloud result: no records is an error; otherwise the
/// player has the refid, the name of the profile answer, id 0 and as many
/// scores as records.
pub fn cloud_scores_result(
    refid: String,
    profile_xml: Option<String>,
    records: Vec<MusicRecord>,
) -> (r: Result<CloudScoreResult, String>)
    ensures
        records@.len() == 0 ==> (r matches Err(e) && e@
            == "Cloud server returned no SDVX 7 score data."@),
        records@.len() > 0 ==> (r matches Ok(c) && c.records@ == records@ && c.player.refid@
            == refid@ && c.player.name@ == cloud_name(opt_text(profile_xml)) && c.player.sdvx_id
            == 0 && c.player.score_count == records@.len()),
{
    let xml = match &profile_xml {
        Some(x) => x.clone(),
        None => String::new(),
    };
    let name = match parse_profile_name(xml.as_str()) {
        Some(n) => n,
        None => String::from_str("UNKNOWN"),
    };
    let score_count = records.len();
    if records.len() == 0 {
        return Err(String::from_str("Cloud server returned no SDVX 7 score data."));
    }
    Ok(
        CloudScoreResult {
            player: PlayerSummary { refid, name, sdvx_id: 0, score_count },
            records,
        },
    )
}

} // verus!
