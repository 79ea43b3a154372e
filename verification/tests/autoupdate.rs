use rustcast::autoupdate::{
    app_bundle_ancestor, new_version_available, next_update_stage, release_from_feed, release_from_json,
    verify_sha256,
    ReleaseInfo, UpdateOutcome, UpdateStage,
};
use rustcast::json::JsonValue;

fn s(t: &str) -> String {
    t.to_string()
}

fn obj(members: Vec<(&str, JsonValue)>) -> JsonValue {
    JsonValue::Object(members.into_iter().map(|(k, v)| (k.to_string(), v)).collect())
}

fn text(t: &str) -> JsonValue {
    JsonValue::Str(t.to_string())
}

fn asset(name: &str, url: &str, digest: Option<&str>) -> JsonValue {
    let mut members = vec![("name", text(name)), ("browser_download_url", text(url))];
    if let Some(d) = digest {
        members.push(("digest", text(d)));
    }
    obj(members)
}

const BUNDLE: &str = "Rustcast-universal-macos.app.zip";

fn release_doc(assets: Vec<JsonValue>) -> JsonValue {
    obj(vec![
        ("name", text("v0.5.1")),
        ("id", JsonValue::Number(s("123"))),
        ("draft", JsonValue::Bool(false)),
        ("assets", JsonValue::Array(assets)),
    ])
}

fn info(version: &str) -> ReleaseInfo {
    ReleaseInfo { version: s(version), zip_url: s("https://example.com/a.zip"), sha256: s("00") }
}

#[test]
fn new_version_is_offered_when_versions_differ() {
    let r = new_version_available(Some(info("v2.0.0")), "v1.0.0").unwrap();
    assert_eq!(r.version, "v2.0.0");
    assert_eq!(r.zip_url, "https://example.com/a.zip");
    assert_eq!(r.sha256, "00");
}

#[test]
fn no_new_version_when_versions_match() {
    assert!(new_version_available(Some(info("v1.0.0")), "v1.0.0").is_none());
}

#[test]
fn no_new_version_without_release() {
    assert!(new_version_available(None, "v1.0.0").is_none());
}

#[test]
fn empty_current_version_differs_from_any_release() {
    assert!(new_version_available(Some(info("v1.0.0")), "").is_some());
}

#[test]
fn release_read_from_feed() {
    let doc = release_doc(vec![
        asset("Rustcast-intel.zip", "https://x/intel", Some("sha256:1111")),
        asset(BUNDLE, "https://x/universal", Some("sha256:abcdef")),
    ]);
    let r = release_from_json(&doc).unwrap();
    assert_eq!(r.version, "v0.5.1");
    assert_eq!(r.zip_url, "https://x/universal");
    assert_eq!(r.sha256, "abcdef");
}

#[test]
fn release_uses_last_bundle_asset() {
    let doc = release_doc(vec![
        asset(BUNDLE, "https://x/first", Some("sha256:aa")),
        asset(BUNDLE, "https://x/second", Some("sha256:bb")),
    ]);
    let r = release_from_json(&doc).unwrap();
    assert_eq!(r.zip_url, "https://x/second");
    assert_eq!(r.sha256, "bb");
}

#[test]
fn release_last_bundle_without_digest_gives_none() {
    let doc = release_doc(vec![
        asset(BUNDLE, "https://x/first", Some("sha256:aa")),
        asset(BUNDLE, "https://x/second", None),
    ]);
    assert!(release_from_json(&doc).is_none());
}

#[test]
fn release_digest_without_prefix_gives_none() {
    let doc = release_doc(vec![asset(BUNDLE, "https://x/u", Some("md5:aa"))]);
    assert!(release_from_json(&doc).is_none());
}

#[test]
fn release_empty_digest_after_prefix() {
    let doc = release_doc(vec![asset(BUNDLE, "https://x/u", Some("sha256:"))]);
    assert_eq!(release_from_json(&doc).unwrap().sha256, "");
}

#[test]
fn release_without_bundle_gives_none() {
    let doc = release_doc(vec![asset("other.zip", "https://x/o", Some("sha256:aa"))]);
    assert!(release_from_json(&doc).is_none());
}

#[test]
fn release_with_malformed_asset_gives_none() {
    let bad = obj(vec![("name", text("notes.txt"))]);
    let doc = release_doc(vec![asset(BUNDLE, "https://x/u", Some("sha256:aa")), bad]);
    assert!(release_from_json(&doc).is_none());
    let bad_name = obj(vec![("name", JsonValue::Null), ("browser_download_url", text("u"))]);
    let doc = release_doc(vec![bad_name, asset(BUNDLE, "https://x/u", Some("sha256:aa"))]);
    assert!(release_from_json(&doc).is_none());
}

#[test]
fn release_needs_name_and_assets() {
    let no_name = obj(vec![("assets", JsonValue::Array(vec![asset(BUNDLE, "u", Some("sha256:aa"))]))]);
    assert!(release_from_json(&no_name).is_none());
    let numeric_name = obj(vec![
        ("name", JsonValue::Number(s("5"))),
        ("assets", JsonValue::Array(vec![asset(BUNDLE, "u", Some("sha256:aa"))])),
    ]);
    assert!(release_from_json(&numeric_name).is_none());
    let no_assets = obj(vec![("name", text("v1"))]);
    assert!(release_from_json(&no_assets).is_none());
    let assets_object = obj(vec![("name", text("v1")), ("assets", obj(vec![]))]);
    assert!(release_from_json(&assets_object).is_none());
    assert!(release_from_json(&JsonValue::Array(vec![])).is_none());
    assert!(release_from_json(&JsonValue::Null).is_none());
}

#[test]
fn sha256_of_known_input_verifies() {
    let expected = "ba7816bf8f01cfea414140de5dae2223b00361a396177a9cb410ff61f20015ad";
    assert!(verify_sha256(b"abc", expected));
}

#[test]
fn sha256_of_empty_input_verifies() {
    let expected = "e3b0c44298fc1c149afbf4c8996fb92427ae41e4649b934ca495991b7852b855";
    assert!(verify_sha256(b"", expected));
}

#[test]
fn sha256_comparison_is_exact() {
    let upper = "BA7816BF8F01CFEA414140DE5DAE2223B00361A396177A9CB410FF61F20015AD";
    assert!(!verify_sha256(b"abc", upper));
    let other = "ba7816bf8f01cfea414140de5dae2223b00361a396177a9cb410ff61f20015ae";
    assert!(!verify_sha256(b"abc", other));
    assert!(!verify_sha256(b"abc", ""));
    assert!(!verify_sha256(b"abd", "ba7816bf8f01cfea414140de5dae2223b00361a396177a9cb410ff61f20015ad"));
}

#[test]
fn app_bundle_is_innermost_app_ancestor() {
    let names: Vec<String> = ["rustcast", "MacOS", "Contents", "Rustcast.app", "Outer.app", "Applications", ""]
        .iter()
        .map(|x| x.to_string())
        .collect();
    assert_eq!(app_bundle_ancestor(&names), Some(3));
}

#[test]
fn app_bundle_names() {
    let v = |xs: &[&str]| xs.iter().map(|x| x.to_string()).collect::<Vec<String>>();
    assert_eq!(app_bundle_ancestor(&v(&["a.app"])), Some(0));
    assert_eq!(app_bundle_ancestor(&v(&[".app", "x"])), None);
    assert_eq!(app_bundle_ancestor(&v(&["..app"])), Some(0));
    assert_eq!(app_bundle_ancestor(&v(&["a.App", "app", "a.apps"])), None);
    assert_eq!(app_bundle_ancestor(&v(&[])), None);
}

#[test]
fn update_runs_stages_in_order() {
    let outcomes = [
        UpdateOutcome::Done,
        UpdateOutcome::Done,
        UpdateOutcome::Done,
        UpdateOutcome::Done,
        UpdateOutcome::DigestChecked(true),
        UpdateOutcome::Done,
        UpdateOutcome::InstalledAppFound(true),
        UpdateOutcome::Done,
        UpdateOutcome::Done,
    ];
    let expected = [
        UpdateStage::MakeTempDir,
        UpdateStage::Download,
        UpdateStage::SaveArchive,
        UpdateStage::VerifyDigest,
        UpdateStage::Extract,
        UpdateStage::FindInstalledApp,
        UpdateStage::RemoveInstalledApp,
        UpdateStage::Install,
        UpdateStage::Updated,
    ];
    let mut stage = UpdateStage::CheckRelease;
    for (o, e) in outcomes.iter().zip(expected.iter()) {
        stage = next_update_stage(stage, *o);
        assert_eq!(stage, *e);
    }
    assert_eq!(next_update_stage(stage, UpdateOutcome::Failed), UpdateStage::Updated);
}

#[test]
fn update_aborts_on_digest_mismatch() {
    assert_eq!(
        next_update_stage(UpdateStage::VerifyDigest, UpdateOutcome::DigestChecked(false)),
        UpdateStage::Aborted
    );
    assert_eq!(next_update_stage(UpdateStage::Aborted, UpdateOutcome::Done), UpdateStage::Aborted);
}

#[test]
fn update_aborts_on_failure_or_unexpected_outcome() {
    assert_eq!(next_update_stage(UpdateStage::Download, UpdateOutcome::Failed), UpdateStage::Aborted);
    assert_eq!(next_update_stage(UpdateStage::CheckRelease, UpdateOutcome::Failed), UpdateStage::Aborted);
    assert_eq!(
        next_update_stage(UpdateStage::Download, UpdateOutcome::DigestChecked(true)),
        UpdateStage::Aborted
    );
    assert_eq!(next_update_stage(UpdateStage::VerifyDigest, UpdateOutcome::Done), UpdateStage::Aborted);
}

#[test]
fn update_skips_removal_when_nothing_installed() {
    assert_eq!(
        next_update_stage(UpdateStage::FindInstalledApp, UpdateOutcome::InstalledAppFound(false)),
        UpdateStage::Install
    );
}

#[test]
fn release_read_from_feed_text() {
    let body = r#"{
        "name": "v0.6.0",
        "id": 42,
        "assets": [
            {"name": "Rustcast-universal-macos.app.zip",
             "browser_download_url": "https://x/universal.zip",
             "digest": "sha256:0123abcd",
             "size": 10}
        ]
    }"#;
    let r = release_from_feed(body).unwrap();
    assert_eq!(r.version, "v0.6.0");
    assert_eq!(r.zip_url, "https://x/universal.zip");
    assert_eq!(r.sha256, "0123abcd");
}

#[test]
fn release_feed_that_is_not_json_gives_none() {
    assert!(release_from_feed("not json").is_none());
    assert!(release_from_feed("").is_none());
    assert!(release_from_feed(r#"{"name": "v1", "assets": []}"#).is_none());
    assert!(release_from_feed(r#"{"message": "API rate limit exceeded"}"#).is_none());
}
