use site_core::paper::{download_url, pick_latest, resolve_version_response, MCVersion};

#[test]
fn version_parses_major_minor_patch() {
    assert_eq!(MCVersion::from_str("1.19.2").unwrap(), MCVersion(1, 19, 2));
    assert_eq!(MCVersion::from_str("1.19").unwrap(), MCVersion(1, 19, 0));
    assert_eq!(MCVersion::from_str("+1.2").unwrap(), MCVersion(1, 2, 0));
    assert_eq!(MCVersion::from_str("1.19.2.9").unwrap(), MCVersion(1, 19, 2));
}

#[test]
fn version_rejects_malformed_strings() {
    for bad in ["", "1", "1.", ".1", "1..2", "x.y", "300.1", "1.19.x", "1.-2"] {
        assert_eq!(MCVersion::from_str(bad).unwrap_err(), "Invalid MC Version");
    }
}

#[test]
fn version_prints_dotted_form() {
    assert_eq!(MCVersion(1, 19, 2).version_string(), "1.19.2");
    assert_eq!(MCVersion(1, 19, 0).version_string(), "1.19");
    assert_eq!(MCVersion(0, 0, 0).version_string(), "0.0");
    assert_eq!(MCVersion(255, 100, 7).version_string(), "255.100.7");
}

#[test]
fn download_url_layout() {
    let url = download_url(&MCVersion(1, 19, 2), 307);
    assert_eq!(
        url,
        "https://papermc.io/api/v2/projects/paper/versions/1.19.2/builds/307/downloads/paper-1.19.2-307.jar"
    );
}

#[test]
fn version_response_resolution() {
    let ver = MCVersion(1, 20, 1);
    let r = resolve_version_response(&ver, Some("no such version".to_string()), None);
    assert_eq!(r.unwrap_err(), "no such version");

    let r = resolve_version_response(&ver, None, Some(vec![100, 105, 130]));
    assert_eq!(
        r.unwrap(),
        "https://papermc.io/api/v2/projects/paper/versions/1.20.1/builds/130/downloads/paper-1.20.1-130.jar"
    );

    let r = resolve_version_response(&ver, None, None);
    assert_eq!(r.unwrap_err(), "Invalid json response");
}

#[test]
fn latest_is_last_listed() {
    let versions = vec!["1.18".to_string(), "1.19".to_string(), "1.19.2".to_string()];
    assert_eq!(pick_latest(&versions).unwrap(), MCVersion(1, 19, 2));
    let versions = vec!["1.20-rc1".to_string()];
    assert_eq!(pick_latest(&versions).unwrap_err(), "Invalid MC Version");
}
