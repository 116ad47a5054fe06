use sdvx_b50::upload::{image_mime_type, prepare_upload, upload_endpoint, upload_reply, validate_upload_qq, UploadB50Result};

#[test]
fn the_upload_endpoint_gets_a_scheme_and_the_api_path() {
    assert_eq!(upload_endpoint(" example.com// "), Ok("http://example.com/api/sdvx/b50".to_string()));
    assert_eq!(upload_endpoint("https://b50.test/"), Ok("https://b50.test/api/sdvx/b50".to_string()));
    assert_eq!(upload_endpoint("  / "), Err("Server address is required.".to_string()));
}

#[test]
fn qq_numbers_have_five_to_twelve_digits() {
    assert_eq!(validate_upload_qq("12345"), Ok(()));
    assert_eq!(validate_upload_qq("123456789012"), Ok(()));
    let err = Err("QQ number must be 5 to 12 digits.".to_string());
    assert_eq!(validate_upload_qq("1234"), err);
    assert_eq!(validate_upload_qq("1234567890123"), err);
    assert_eq!(validate_upload_qq("12a45"), err);
    assert_eq!(validate_upload_qq("１２３４５"), err);
}

fn reply(ok: bool, message: &str) -> Option<UploadB50Result> {
    Some(UploadB50Result { ok, message: message.to_string() })
}

#[test]
fn upload_answers_are_read() {
    assert_eq!(
        upload_reply(false, 502, "  bad gateway \n", None).err(),
        Some("Server returned HTTP 502: bad gateway".to_string())
    );
    assert_eq!(upload_reply(false, 404, "   ", None).err(), Some("Server returned HTTP 404".to_string()));
    let ok = upload_reply(true, 200, " \n", reply(false, "ignored")).unwrap();
    assert!(ok.ok);
    assert_eq!(ok.message, "Cloud upload complete.");
    let ok = upload_reply(true, 200, "{}", reply(true, "stored")).unwrap();
    assert_eq!(ok.message, "stored");
    assert_eq!(upload_reply(true, 200, "{}", reply(false, "denied")).err(), Some("denied".to_string()));
    let ok = upload_reply(true, 200, "not json", None).unwrap();
    assert_eq!((ok.ok, ok.message.as_str()), (true, "Cloud upload complete."));
}

#[test]
fn background_images_are_typed_by_extension() {
    assert_eq!(image_mime_type("/pics/bg.PNG"), Ok("image/png".to_string()));
    assert_eq!(image_mime_type("bg.jpg"), Ok("image/jpeg".to_string()));
    assert_eq!(image_mime_type("bg.JpEg"), Ok("image/jpeg".to_string()));
    assert_eq!(image_mime_type("bg.webp"), Ok("image/webp".to_string()));
    assert_eq!(image_mime_type("bg.bmp"), Ok("image/bmp".to_string()));
    assert_eq!(image_mime_type("bg.gif"), Ok("image/gif".to_string()));
    let err = Err("Unsupported background image type.".to_string());
    assert_eq!(image_mime_type("bg.txt"), err);
    assert_eq!(image_mime_type("background"), err);
    assert_eq!(image_mime_type(".png"), err);
}

#[test]
fn uploads_are_refused_before_any_request() {
    assert_eq!(prepare_upload(" / ", "12345", 7, 0).err(), Some("Server address is required.".to_string()));
    assert_eq!(prepare_upload("h", "1234", 7, 0).err(), Some("QQ number must be 5 to 12 digits.".to_string()));
    assert_eq!(prepare_upload("h", "12345", 7, 0).err(), Some("B50 data is empty.".to_string()));
    let plan = prepare_upload("h/", "12345", 7, 3).unwrap();
    assert_eq!(plan.endpoint, "http://h/api/sdvx/b50");
    assert_eq!((plan.schema_version, plan.game.as_str(), plan.version), (1, "sdvx", 7));
    assert_eq!((plan.qq.as_str(), plan.app.as_str()), ("12345", "sdvx-b50-tool"));
}
