//! Uploading a B50 to a score server, and the background image.
use vstd::prelude::*;
use crate::eamuse::{address_core, address_with_scheme, suffix_of, with_scheme};
use crate::paths::{extension_of, path_extension};
use crate::text::{append_str, chars_of, decimal, decimal_string, is_digit, string_of, text_result, trim};
use vstd::string::StringExecFns;

verus! {

/// The upload address for a server address the user typed.
pub open spec fn upload_url(server_url: Seq<char>) -> Result<Seq<char>, Seq<char>> {
    let t = address_core(server_url);
    if t.len() == 0 {
        Err("Server address is required."@)
    } else {
        Ok(with_scheme(t) + "/api/sdvx/b50"@)
    }
}

/// The upload endpoint for the server address the user gives.
pub fn upload_endpoint(server_url: &str) -> (r: Result<String, String>)
    ensures
        text_result(r) == upload_url(server_url@),
{
    let a = address_with_scheme(server_url);
    if a.len() == 0 {
        return Err(String::from_str("Server address is required."));
    }
    let mut out = string_of(a.as_slice());
    append_str(&mut out, "/api/sdvx/b50");
    Ok(out)
}

/// A QQ number: five to twelve ASCII digits.
pub open spec fn valid_qq(qq: Seq<char>) -> bool {
    5 <= qq.len() <= 12 && forall|i: int| 0 <= i < qq.len() ==> is_digit(#[trigger] qq[i])
}

/// Checks the QQ number an upload is filed under.
pub fn validate_upload_qq(qq: &str) -> (r: Result<(), String>)
    ensures
        r is Ok <==> valid_qq(qq@),
        r matches Err(e) ==> e@ == "QQ number must be 5 to 12 digits."@,
{
    let v = chars_of(qq);
    let mut ok = 5 <= v.len() && v.len() <= 12;
    let mut k: usize = 0;
    while k < v.len()
        invariant
            k <= v@.len(),
            v@ == qq@,
            ok == (5 <= v@.len() <= 12 && forall|i: int| 0 <= i < k ==> is_digit(#[trigger] v@[i])),
        decreases v@.len() - k,
    {
        let u = v[k] as u32;
        if u < 48 || u > 57 {
            ok = false;
        }
        k = k + 1;
    }
    if ok {
        Ok(())
    } else {
        Err(String::from_str("QQ number must be 5 to 12 digits."))
    }
}

/// The version of the upload format.
pub const UPLOAD_SCHEMA_VERSION: u64 = 1;

/// The game an upload is for.
pub const UPLOAD_GAME: &'static str = "sdvx";

/// The client an upload names.
pub const UPLOAD_CLIENT_APP: &'static str = "sdvx-b50-tool";

/// Where and how a B50 is uploaded: the endpoint and the fixed fields of the
/// upload around the player and the cards.
pub struct UploadPlan {
    pub endpoint: String,
    pub schema_version: u64,
    pub game: String,
    pub version: u64,
    pub qq: String,
    pub app: String,
}

/// The checks before an upload, in order: the server address, the QQ
/// number, then that the B50 has cards. On success, the endpoint.
pub open spec fn upload_checks(server_url: Seq<char>, qq: Seq<char>, card_count: nat) -> Result<
    Seq<char>,
    Seq<char>,
> {
    match upload_url(server_url) {
        Err(e) => Err(e),
        Ok(u) => if !valid_qq(qq) {
            Err("QQ number must be 5 to 12 digits."@)
        } else if card_count == 0 {
            Err("B50 data is empty."@)
        } else {
            Ok(u)
        },
    }
}

/// Prepares the upload of a B50 of game version `version` with
/// `card_count` cards, or refuses it before any request is sent.
pub fn prepare_upload(server_url: &str, qq: &str, version: u64, card_count: usize) -> (r: Result<
    UploadPlan,
    String,
>)
    ensures
        match upload_checks(server_url@, qq@, card_count as nat) {
            Err(e) => r matches Err(m) && m@ == e,
            Ok(u) => r matches Ok(p) && p.endpoint@ == u && p.schema_version == UPLOAD_SCHEMA_VERSION
                && p.game@ == UPLOAD_GAME@ && p.version == version && p.qq@ == qq@ && p.app@
                == UPLOAD_CLIENT_APP@,
        },
{
    let endpoint = upload_endpoint(server_url)?;
    validate_upload_qq(qq)?;
    if card_count == 0 {
        return Err(String::from_str("B50 data is empty."));
    }
    Ok(
        UploadPlan {
            endpoint,
            schema_version: UPLOAD_SCHEMA_VERSION,
            game: String::from_str(UPLOAD_GAME),
            version,
            qq: String::from_str(qq),
            app: String::from_str(UPLOAD_CLIENT_APP),
        },
    )
}

/// What the upload server answered, as JSON.
pub struct UploadB50Result {
    pub ok: bool,
    pub message: String,
}

/// The result of an upload: an HTTP failure is an error naming the status
/// and the body; a blank body or one that is not such an answer counts as
/// success; an answer with `ok` false is an error with its message.
pub open spec fn upload_outcome(
    success: bool,
    status: u16,
    body: Seq<char>,
    reply: Option<(bool, Seq<char>)>,
) -> Result<(bool, Seq<char>), Seq<char>> {
    if !success {
        Err("Server returned HTTP "@ + decimal(status as nat) + suffix_of(body))
    } else if trim(body).len() == 0 {
        Ok((true, "Cloud upload complete."@))
    } else {
        match reply {
            Some((true, m)) => Ok((true, m)),
            Some((false, m)) => Err(m),
            None => Ok((true, "Cloud upload complete."@)),
        }
    }
}

/// The result of an upload from the server's answer.
pub fn upload_reply(success: bool, status: u16, body: &str, reply: Option<UploadB50Result>) -> (r:
    Result<UploadB50Result, String>)
    ensures
        match r {
            Ok(u) => upload_outcome(
                success,
                status,
                body@,
                match reply {
                    Some(x) => Some((x.ok, x.message@)),
                    None => None,
                },
            ) == Ok::<(bool, Seq<char>), Seq<char>>((u.ok, u.message@)),
            Err(e) => upload_outcome(
                success,
                status,
                body@,
                match reply {
                    Some(x) => Some((x.ok, x.message@)),
                    None => None,
                },
            ) == Err::<(bool, Seq<char>), Seq<char>>(e@),
        },
{
    if !success {
        let mut m = String::from_str("Server returned HTTP ");
        let code = decimal_string(status as u64);
        append_str(&mut m, code.as_str());
        let s = crate::eamuse::response_suffix(body);
        append_str(&mut m, s.as_str());
        return Err(m);
    }
    let t = crate::text::trimmed(body);
    if t.as_str().is_empty() {
        return Ok(UploadB50Result { ok: true, message: String::from_str("Cloud upload complete.") });
    }
    match reply {
        Some(x) => {
            if x.ok {
                Ok(x)
            } else {
                Err(x.message)
            }
        },
        None => Ok(UploadB50Result { ok: true, message: String::from_str("Cloud upload complete.") }),
    }
}

/// ASCII letters in lower case, other characters unchanged.
pub open spec fn ascii_lower(s: Seq<char>) -> Seq<char> {
    Seq::new(
        s.len(),
        |i: int|
            if 65 <= (s[i] as u32) <= 90 {
                (((s[i] as u32) + 32) as u8) as char
            } else {
                s[i]
            },
    )
}

/// The media type of a background image by its extension, or the error for
/// an image type that is not supported.
pub open spec fn mime_for(path: Seq<char>) -> Result<Seq<char>, Seq<char>> {
    match extension_of(path) {
        None => Err("Unsupported background image type."@),
        Some(e) => {
            let x = ascii_lower(e);
            if x == "png"@ {
                Ok("image/png"@)
            } else if x == "jpg"@ || x == "jpeg"@ {
                Ok("image/jpeg"@)
            } else if x == "webp"@ {
                Ok("image/webp"@)
            } else if x == "bmp"@ {
                Ok("image/bmp"@)
            } else if x == "gif"@ {
                Ok("image/gif"@)
            } else {
                Err("Unsupported background image type."@)
            }
        },
    }
}

fn lower_ascii(s: &str) -> (r: String)
    ensures
        r@ == ascii_lower(s@),
{
    let v = chars_of(s);
    let mut out: Vec<char> = Vec::new();
    let mut k: usize = 0;
    while k < v.len()
        invariant
            k <= v@.len(),
            v@ == s@,
            out@ == ascii_lower(v@).take(k as int),
        decreases v@.len() - k,
    {
        let c = v[k];
        let u = c as u32;
        if 65 <= u && u <= 90 {
            out.push(((u + 32) as u8) as char);
        } else {
            out.push(c);
        }
        k = k + 1;
        assert(out@ =~= ascii_lower(v@).take(k as int));
    }
    assert(ascii_lower(v@).take(v@.len() as int) =~= ascii_lower(v@));
    string_of(out.as_slice())
}

/// The media type of a background image file.
pub fn image_mime_type(path: &str) -> (r: Result<String, String>)
    ensures
        text_result(r) == mime_for(path@),
{
    match path_extension(path) {
        None => Err(String::from_str("Unsupported background image type.")),
        Some(e) => {
            let x = lower_ascii(e.as_str());
            let xs = x.as_str();
            if crate::text::same_text(xs, "png") {
                Ok(String::from_str("image/png"))
            } else if crate::text::same_text(xs, "jpg") || crate::text::same_text(xs, "jpeg") {
                Ok(String::from_str("image/jpeg"))
            } else if crate::text::same_text(xs, "webp") {
                Ok(String::from_str("image/webp"))
            } else if crate::text::same_text(xs, "bmp") {
                Ok(String::from_str("image/bmp"))
            } else if crate::text::same_text(xs, "gif") {
                Ok(String::from_str("image/gif"))
            } else {
                Err(String::from_str("Unsupported background image type."))
            }
        },
    }
}

} // verus!
