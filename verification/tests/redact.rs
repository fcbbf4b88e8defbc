use heightmap::redact::{redact_secrets, redact_url};

#[test]
fn redact_url_masks_token_but_keeps_path() {
    let dirty =
        "https://api.mapbox.com/v4/mapbox.satellite/12/851/1542.jpg90?access_token=pk.SECRET";
    let clean = redact_url(dirty);
    assert!(!clean.contains("pk.SECRET"), "token must be masked, got {clean}");
    assert!(clean.contains("access_token=***"), "masked param must remain, got {clean}");
    assert!(clean.contains("/12/851/1542.jpg90"), "path must survive, got {clean}");
}

#[test]
fn redact_url_passthrough_for_keyless_urls() {
    let aws = "https://s3.amazonaws.com/elevation-tiles-prod/terrarium/12/851/1542.png";
    assert_eq!(redact_url(aws), aws, "keyless URLs must pass through unchanged");
}

#[test]
fn redact_secrets_masks_token_inside_transport_error_text() {
    // Shape of a transport error: URL embedded mid-sentence.
    let msg = "https://api.mapbox.com/v4/x.png?access_token=pk.eyJSECRET123: \
               Connection refused (os error 111)";
    let clean = redact_secrets(msg);
    assert!(!clean.contains("pk.eyJSECRET123"), "token must be masked: {clean}");
    assert!(clean.contains("access_token=***"));
    assert!(clean.contains("Connection refused"), "error detail must survive");
}

#[test]
fn redact_secrets_masks_multiple_params_and_passes_clean_text() {
    let msg = "API_Key=abc123&demtype=SRTMGL1&token=zzz9 failed";
    let clean = redact_secrets(msg);
    assert!(!clean.contains("abc123") && !clean.contains("zzz9"), "{clean}");
    assert!(clean.contains("demtype=SRTMGL1"), "non-secret params survive");
    assert_eq!(redact_secrets("plain message"), "plain message");
}

#[test]
fn redacting_a_url_again_changes_nothing() {
    let once = redact_url("https://x/y?a=1&api_key=2&b&TOKEN=3");
    assert_eq!(once, "https://x/y?a=1&api_key=***&b&TOKEN=***");
    assert_eq!(redact_url(&once), once);
}

#[test]
fn redacting_a_message_again_changes_nothing() {
    for msg in ["token=", "api_key=abc&key=d", "TOKEN=***tail", "access_token=x: refused", "key=*"] {
        let once = redact_secrets(msg);
        assert_eq!(redact_secrets(&once), once, "{msg}");
    }
    assert_eq!(redact_secrets("token="), "token=***");
    assert_eq!(redact_secrets("api_key=abc&x=1"), "api_key=***&x=1");
    assert_eq!(redact_secrets("token=***tail end"), "token=*** end");
}
