//! Deciding about updates: reading the release feed, offering a new version, checking
//! the downloaded archive's digest, locating the installed bundle, and the order of the
//! installation stages.

use sha2::Digest;
use vstd::prelude::*;
use vstd::string::StrSliceExecFns;

use crate::json::{array_member, get_array, get_str, parse_json, parsed_json, str_member, JsonValue};
use crate::text::{strip_prefix, strip_prefix_spec, text_eq};

verus! {

/// What the update checker learns about the latest published release.
#[derive(Debug)]
pub struct ReleaseInfo {
    pub version: String,
    pub zip_url: String,
    pub sha256: String,
}

/// Offers `latest` as an update exactly when a release is known and its
/// version differs from the version of the running build.
pub fn new_version_available(latest: Option<ReleaseInfo>, current: &str) -> (r: Option<ReleaseInfo>)
    ensures
        match latest {
            Some(info) => if info.version@ != current@ { r == Some(info) } else { r is None },
            None => r is None,
        },
{
    let info = match latest {
        Some(info) => info,
        None => return None,
    };
    if info.version != current.to_owned() {
        Some(info)
    } else {
        None
    }
}

/// File name of the release asset that holds the universal macOS bundle.
pub open spec fn bundle_asset_name() -> Seq<char> {
    "Rustcast-universal-macos.app.zip"@
}

/// Prefix that the release feed puts before a hex SHA-256 digest.
pub open spec fn digest_prefix() -> Seq<char> {
    "sha256:"@
}

/// An asset entry is usable when both its name and its download URL are strings.
pub open spec fn asset_well_formed(asset: JsonValue) -> bool {
    &&& str_member(asset, "name"@) is Some
    &&& str_member(asset, "browser_download_url"@) is Some
}

pub open spec fn is_bundle_asset(asset: JsonValue) -> bool {
    str_member(asset, "name"@) == Some(bundle_asset_name())
}

/// The hex digest of an asset: its `digest` string with the `sha256:` prefix removed.
pub open spec fn asset_digest(asset: JsonValue) -> Option<Seq<char>> {
    match str_member(asset, "digest"@) {
        Some(d) => strip_prefix_spec(d, digest_prefix()),
        None => None,
    }
}

/// Index of the last bundle asset in `assets`.
pub open spec fn last_bundle_asset(assets: Seq<JsonValue>) -> Option<int>
    decreases assets.len(),
{
    if assets.len() == 0 {
        None
    } else if is_bundle_asset(assets.last()) {
        Some(assets.len() - 1)
    } else {
        last_bundle_asset(assets.drop_last())
    }
}

/// The release described by a feed document, as (version, bundle URL, bundle digest):
/// the document's `name` is the version; every asset must carry a string name and URL;
/// the last asset named after the bundle supplies the URL and the digest.
pub open spec fn release_spec(doc: JsonValue) -> Option<(Seq<char>, Seq<char>, Seq<char>)> {
    match (str_member(doc, "name"@), array_member(doc, "assets"@)) {
        (Some(version), Some(assets)) => {
            if forall|i: int| 0 <= i < assets.len() ==> asset_well_formed(#[trigger] assets[i]) {
                match last_bundle_asset(assets) {
                    Some(k) => match asset_digest(assets[k]) {
                        Some(sha) => Some(
                            (version, str_member(assets[k], "browser_download_url"@).unwrap(), sha),
                        ),
                        None => None,
                    },
                    None => None,
                }
            } else {
                None
            }
        },
        _ => None,
    }
}

/// Reads the latest release out of the text of the release feed's response.
pub fn release_from_feed(body: &str) -> (r: Option<ReleaseInfo>)
    ensures
        match parsed_json(body@) {
            Some(doc) => match r {
                Some(info) => release_spec(doc) == Some((info.version@, info.zip_url@, info.sha256@)),
                None => release_spec(doc) is None,
            },
            None => r is None,
        },
{
    match parse_json(body) {
        Some(doc) => release_from_json(&doc),
        None => None,
    }
}

/// Position of a stage in the order the update runs its work.
pub open spec fn stage_rank(stage: UpdateStage) -> int {
    match stage {
        UpdateStage::CheckRelease => 0,
        UpdateStage::MakeTempDir => 1,
        UpdateStage::Download => 2,
        UpdateStage::SaveArchive => 3,
        UpdateStage::VerifyDigest => 4,
        UpdateStage::Extract => 5,
        UpdateStage::FindInstalledApp => 6,
        UpdateStage::RemoveInstalledApp => 7,
        UpdateStage::Install => 8,
        UpdateStage::Updated => 9,
        UpdateStage::Aborted => 10,
    }
}

/// A failure at any stage before the update is complete gives the update up.
pub proof fn lemma_failure_aborts(stage: UpdateStage)
    requires
        stage != UpdateStage::Updated,
    ensures
        next_stage_spec(stage, UpdateOutcome::Failed) == UpdateStage::Aborted,
{
}

/// The update is reported complete only when the install itself succeeded (or it was
/// already complete).
pub proof fn lemma_updated_only_after_install_done(stage: UpdateStage, outcome: UpdateOutcome)
    ensures
        next_stage_spec(stage, outcome) == UpdateStage::Updated ==> stage == UpdateStage::Updated || (
        stage == UpdateStage::Install && outcome == UpdateOutcome::Done),
{
}

/// Stages never run out of order: from an unfinished stage the update moves to the
/// next stage, or skips only the removal when nothing is installed, or gives up.
pub proof fn lemma_stages_advance_in_order(stage: UpdateStage, outcome: UpdateOutcome)
    requires
        stage != UpdateStage::Updated,
        stage != UpdateStage::Aborted,
    ensures
        ({
            let next = next_stage_spec(stage, outcome);
            ||| next == UpdateStage::Aborted
            ||| stage_rank(next) == stage_rank(stage) + 1
            ||| (stage == UpdateStage::FindInstalledApp && outcome == UpdateOutcome::InstalledAppFound(false)
                && next == UpdateStage::Install)
        }),
        outcome == UpdateOutcome::Failed ==> next_stage_spec(stage, outcome) == UpdateStage::Aborted,
{
}

/// The stage before each of its successors advances only on the outcome its work
/// reports when it went well: `Done`, a matching digest, or the installed app found.
pub proof fn lemma_advance_needs_success(stage: UpdateStage, outcome: UpdateOutcome)
    requires
        stage != UpdateStage::Updated,
        next_stage_spec(stage, outcome) != UpdateStage::Aborted,
    ensures
        outcome == UpdateOutcome::Done || outcome == UpdateOutcome::DigestChecked(true)
            || outcome is InstalledAppFound,
        outcome == UpdateOutcome::DigestChecked(true) <==> stage == UpdateStage::VerifyDigest,
        outcome is InstalledAppFound <==> stage == UpdateStage::FindInstalledApp,
{
}

/// Work that went well moves the update on: every unfinished stage advances to the next
/// stage on its successful outcome (removal of the installed app is skipped when none is
/// installed), and a finished or given-up update stays as it is.
pub proof fn lemma_success_advances(stage: UpdateStage, outcome: UpdateOutcome)
    ensures
        stage != UpdateStage::VerifyDigest && stage != UpdateStage::FindInstalledApp && stage != UpdateStage::Updated
            && stage != UpdateStage::Aborted ==> stage_rank(next_stage_spec(stage, UpdateOutcome::Done)) == stage_rank(stage) + 1,
        stage == UpdateStage::VerifyDigest ==> next_stage_spec(stage, UpdateOutcome::DigestChecked(true)) == UpdateStage::Extract,
        stage == UpdateStage::FindInstalledApp ==> next_stage_spec(stage, UpdateOutcome::InstalledAppFound(true))
            == UpdateStage::RemoveInstalledApp && next_stage_spec(stage, UpdateOutcome::InstalledAppFound(false))
            == UpdateStage::Install,
        next_stage_spec(UpdateStage::Updated, outcome) == UpdateStage::Updated,
        next_stage_spec(UpdateStage::Aborted, outcome) == UpdateStage::Aborted,
{
}

/// A release read from a feed comes from the feed: the version is the feed's `name`,
/// every asset carries a string name and URL, and the URL and digest come from the last asset named exactly
/// `Rustcast-universal-macos.app.zip`, whose `digest` is `sha256:` followed by the digest.
pub proof fn lemma_release_comes_from_bundle_asset(doc: JsonValue)
    ensures
        release_spec(doc) matches Some((version, url, sha)) ==> {
            &&& str_member(doc, "name"@) == Some(version)
            &&& array_member(doc, "assets"@) matches Some(assets)
            &&& forall|i: int| 0 <= i < assets.len() ==> str_member(#[trigger] assets[i], "name"@) is Some
                && str_member(assets[i], "browser_download_url"@) is Some
            &&& exists|k: int| {
                &&& 0 <= k < assets.len()
                &&& str_member(#[trigger] assets[k], "name"@) == Some("Rustcast-universal-macos.app.zip"@)
                &&& str_member(assets[k], "browser_download_url"@) == Some(url)
                &&& str_member(assets[k], "digest"@) == Some("sha256:"@ + sha)
                &&& forall|j: int| k < j < assets.len() ==> str_member(#[trigger] assets[j], "name"@) != Some(
                    "Rustcast-universal-macos.app.zip"@,
                )
            }
        },
{
    if let Some((version, url, sha)) = release_spec(doc) {
        let assets = array_member(doc, "assets"@).unwrap();
        lemma_last_bundle_asset_facts(assets);
        let k = last_bundle_asset(assets).unwrap();
        assert(forall|i: int| 0 <= i < assets.len() ==> asset_well_formed(#[trigger] assets[i]));
        let d = str_member(assets[k], "digest"@).unwrap();
        reveal_strlit("sha256:");
        assert(d =~= d.take(7) + d.skip(7));
        assert(str_member(assets[k], "digest"@) == Some("sha256:"@ + sha));
    }
}

/// A feed whose assets all carry a string name and URL, and whose last asset named
/// `Rustcast-universal-macos.app.zip` has a digest `sha256:` followed by some text,
/// gives that release.
pub proof fn lemma_bundle_asset_gives_release(
    doc: JsonValue,
    version: Seq<char>,
    assets: Seq<JsonValue>,
    k: int,
    sha: Seq<char>,
)
    requires
        str_member(doc, "name"@) == Some(version),
        array_member(doc, "assets"@) == Some(assets),
        forall|i: int| 0 <= i < assets.len() ==> str_member(#[trigger] assets[i], "name"@) is Some
            && str_member(assets[i], "browser_download_url"@) is Some,
        0 <= k < assets.len(),
        str_member(assets[k], "name"@) == Some("Rustcast-universal-macos.app.zip"@),
        str_member(assets[k], "digest"@) == Some("sha256:"@ + sha),
        forall|j: int| k < j < assets.len() ==> str_member(#[trigger] assets[j], "name"@) != Some(
            "Rustcast-universal-macos.app.zip"@,
        ),
    ensures
        release_spec(doc) == Some((version, str_member(assets[k], "browser_download_url"@).unwrap(), sha)),
{
    lemma_last_bundle_asset_facts(assets);
    assert(forall|i: int| 0 <= i < assets.len() ==> asset_well_formed(#[trigger] assets[i]));
    assert(is_bundle_asset(assets[k]));
    assert(last_bundle_asset(assets) == Some(k)) by {
        let m = last_bundle_asset(assets);
        if m is None {
        } else {
            let m = m.unwrap();
            if m < k {
            } else if m > k {
                assert(is_bundle_asset(assets[m]));
            }
        }
    }
    reveal_strlit("sha256:");
    let d = "sha256:"@ + sha;
    assert(d.take(7) =~= "sha256:"@);
    assert(d.skip(7) =~= sha);
}

proof fn lemma_last_bundle_asset_facts(assets: Seq<JsonValue>)
    ensures
        last_bundle_asset(assets) matches Some(k) ==> 0 <= k < assets.len() && is_bundle_asset(assets[k])
            && forall|j: int| k < j < assets.len() ==> !is_bundle_asset(#[trigger] assets[j]),
        last_bundle_asset(assets) is None ==> forall|j: int| 0 <= j < assets.len() ==> !is_bundle_asset(#[trigger] assets[j]),
    decreases assets.len(),
{
    if assets.len() > 0 {
        let p = assets.drop_last();
        lemma_last_bundle_asset_facts(p);
        assert forall|j: int| 0 <= j < p.len() implies p[j] == assets[j] by {}
    }
}

proof fn lemma_last_bundle_asset_step(assets: Seq<JsonValue>, i: int)
    requires
        0 <= i < assets.len(),
    ensures
        last_bundle_asset(assets.take(i + 1)) == if is_bundle_asset(assets[i]) {
            Some(i)
        } else {
            last_bundle_asset(assets.take(i))
        },
{
    assert(assets.take(i + 1).drop_last() =~= assets.take(i));
}

/// Reads the latest release out of the release feed document.
pub fn release_from_json(doc: &JsonValue) -> (r: Option<ReleaseInfo>)
    ensures
        match r {
            Some(info) => release_spec(*doc) == Some((info.version@, info.zip_url@, info.sha256@)),
            None => release_spec(*doc) is None,
        },
{
    let version = match get_str(doc, "name") {
        Some(v) => v,
        None => return None,
    };
    let assets = match get_array(doc, "assets") {
        Some(a) => a,
        None => return None,
    };
    let ghost spec_assets = assets@;
    let n = assets.len();
    // URL and digest of the last bundle asset seen so far
    let mut found: Option<(String, Option<String>)> = None;
    for i in 0..n
        invariant
            n == spec_assets.len(),
            spec_assets == assets@,
            str_member(*doc, "name"@) == Some(version@),
            array_member(*doc, "assets"@) == Some(spec_assets),
            forall|j: int| 0 <= j < i ==> asset_well_formed(#[trigger] spec_assets[j]),
            match found {
                None => last_bundle_asset(spec_assets.take(i as int)) is None,
                Some((url, digest)) => {
                    &&& last_bundle_asset(spec_assets.take(i as int)) matches Some(k)
                    &&& 0 <= k < i
                    &&& str_member(spec_assets[k], "browser_download_url"@) == Some(url@)
                    &&& match digest {
                        Some(d) => asset_digest(spec_assets[k]) == Some(d@),
                        None => asset_digest(spec_assets[k]) is None,
                    }
                },
            },
    {
        proof {
            lemma_last_bundle_asset_step(spec_assets, i as int);
        }
        let asset = &assets[i];
        let name = match get_str(asset, "name") {
            Some(x) => x,
            None => {
                assert(!asset_well_formed(spec_assets[i as int]));
                return None;
            },
        };
        let url = match get_str(asset, "browser_download_url") {
            Some(x) => x,
            None => {
                assert(!asset_well_formed(spec_assets[i as int]));
                return None;
            },
        };
        if name == "Rustcast-universal-macos.app.zip".to_owned() {
            let digest = match get_str(asset, "digest") {
                Some(d) => strip_prefix(d.as_str(), "sha256:"),
                None => None,
            };
            found = Some((url, digest));
        }
    }
    assert(spec_assets.take(n as int) =~= spec_assets);
    match found {
        Some((url, Some(sha))) => Some(ReleaseInfo { version, zip_url: url, sha256: sha }),
        _ => None,
    }
}

/// The SHA-256 digest of `data`, as computed by the `sha2` crate.
pub uninterp spec fn sha256_digest(data: Seq<u8>) -> Seq<u8>;

/// The character for a nibble in lowercase hexadecimal.
pub open spec fn hex_digit(nibble: u8) -> char {
    if nibble < 10 {
        ((nibble + 48) as u8) as char
    } else {
        ((nibble + 87) as u8) as char
    }
}

/// Lowercase hexadecimal text of `data`, two characters per byte, high nibble first.
pub open spec fn hex_lower(data: Seq<u8>) -> Seq<char>
    decreases data.len(),
{
    if data.len() == 0 {
        Seq::empty()
    } else {
        seq![hex_digit(data[0] / 16), hex_digit(data[0] % 16)] + hex_lower(data.drop_first())
    }
}

pub open spec fn is_lower_hex_char(c: char) -> bool {
    ('0' <= c && c <= '9') || ('a' <= c && c <= 'f')
}

/// Hex text is twice as long as its bytes and uses only `0-9` and `a-f`.
pub proof fn lemma_hex_lower_shape(data: Seq<u8>)
    ensures
        hex_lower(data).len() == 2 * data.len(),
        forall|i: int| 0 <= i < hex_lower(data).len() ==> is_lower_hex_char(#[trigger] hex_lower(data)[i]),
    decreases data.len(),
{
    if data.len() > 0 {
        lemma_hex_lower_shape(data.drop_first());
        let head = seq![hex_digit(data[0] / 16), hex_digit(data[0] % 16)];
        let tail = hex_lower(data.drop_first());
        assert forall|i: int| 0 <= i < hex_lower(data).len() implies is_lower_hex_char(#[trigger] hex_lower(data)[i]) by {
            if i >= 2 {
                assert(hex_lower(data)[i] == tail[i - 2]);
            }
        }
    }
}

/// Calls `sha2::Sha256::digest`: the 32-byte SHA-256 digest of `data`.
#[verifier::external_body]
fn sha256(data: &[u8]) -> (r: Vec<u8>)
    ensures
        r@ == sha256_digest(data@),
        r@.len() == 32,
{
    sha2::Sha256::digest(data).to_vec()
}

/// Calls `hex::encode`: lowercase hexadecimal text of `data`.
#[verifier::external_body]
fn hex_encode(data: &[u8]) -> (r: String)
    ensures
        r@ == hex_lower(data@),
{
    hex::encode(data)
}

/// Checks downloaded bytes against the digest published with the release:
/// true exactly when the lowercase hex SHA-256 of `data` equals `expected_hex`.
pub fn verify_sha256(data: &[u8], expected_hex: &str) -> (r: bool)
    ensures
        r == (hex_lower(sha256_digest(data@)) == expected_hex@),
        r ==> expected_hex@.len() == 64,
        r ==> forall|i: int| 0 <= i < expected_hex@.len() ==> is_lower_hex_char(#[trigger] expected_hex@[i]),
{
    let digest = sha256(data);
    let actual_hex = hex_encode(digest.as_slice());
    proof {
        lemma_hex_lower_shape(digest@);
    }
    actual_hex == expected_hex.to_owned()
}

/// A file name whose extension is `app`: it ends in `.app` with something before the dot.
pub open spec fn is_app_bundle_name(name: Seq<char>) -> bool {
    &&& name.len() >= 5
    &&& name.skip(name.len() - 4) == ".app"@
}

fn is_app_bundle(name: &str) -> (r: bool)
    ensures
        r == is_app_bundle_name(name@),
{
    let n = name.unicode_len();
    n >= 5 && text_eq(name.substring_char(n - 4, n), ".app")
}

/// Finds the application bundle that holds the running executable. `names` are the file
/// names of the executable's path and of each of its ancestors, innermost first ("" where
/// a path has none); the result is the position of the innermost one that names an app
/// bundle.
pub fn app_bundle_ancestor(names: &Vec<String>) -> (r: Option<usize>)
    ensures
        match r {
            Some(k) => {
                &&& k < names.len()
                &&& is_app_bundle_name(names[k as int]@)
                &&& forall|j: int| 0 <= j < k ==> !is_app_bundle_name(#[trigger] names[j]@)
            },
            None => forall|j: int| 0 <= j < names.len() ==> !is_app_bundle_name(#[trigger] names[j]@),
        },
{
    for i in 0..names.len()
        invariant
            forall|j: int| 0 <= j < i ==> !is_app_bundle_name(#[trigger] names[j]@),
    {
        if is_app_bundle(names[i].as_str()) {
            return Some(i);
        }
    }
    None
}

/// The stages of installing an update, in the order they run.
#[derive(Debug, Clone, Copy, PartialEq, Eq, Structural)]
pub enum UpdateStage {
    /// Fetch the description of the latest release.
    CheckRelease,
    /// Create a temporary directory to work in.
    MakeTempDir,
    /// Download the release archive.
    Download,
    /// Write the archive to the temporary directory.
    SaveArchive,
    /// Compare the archive's SHA-256 digest with the published one.
    VerifyDigest,
    /// Unpack the archive.
    Extract,
    /// Determine where the running application is installed.
    FindInstalledApp,
    /// Remove the application that is installed there.
    RemoveInstalledApp,
    /// Move the unpacked application into place.
    Install,
    /// The update is installed.
    Updated,
    /// The update was given up.
    Aborted,
}

/// How the work of a stage turned out.
#[derive(Debug, Clone, Copy, PartialEq, Eq, Structural)]
pub enum UpdateOutcome {
    Done,
    Failed,
    /// Whether the archive's digest matched the published one.
    DigestChecked(bool),
    /// Whether an application is installed at the place found for it.
    InstalledAppFound(bool),
}

/// The stage that follows `stage` once its work turned out as `outcome`: stages run in
/// order, a failure or a digest mismatch gives the update up, and removing the installed
/// application is skipped when there is none. `Updated` and `Aborted` are final.
pub open spec fn next_stage_spec(stage: UpdateStage, outcome: UpdateOutcome) -> UpdateStage {
    match (stage, outcome) {
        (UpdateStage::Updated, _) => UpdateStage::Updated,
        (UpdateStage::Aborted, _) => UpdateStage::Aborted,
        (UpdateStage::CheckRelease, UpdateOutcome::Done) => UpdateStage::MakeTempDir,
        (UpdateStage::MakeTempDir, UpdateOutcome::Done) => UpdateStage::Download,
        (UpdateStage::Download, UpdateOutcome::Done) => UpdateStage::SaveArchive,
        (UpdateStage::SaveArchive, UpdateOutcome::Done) => UpdateStage::VerifyDigest,
        (UpdateStage::VerifyDigest, UpdateOutcome::DigestChecked(true)) => UpdateStage::Extract,
        (UpdateStage::Extract, UpdateOutcome::Done) => UpdateStage::FindInstalledApp,
        (UpdateStage::FindInstalledApp, UpdateOutcome::InstalledAppFound(true)) => UpdateStage::RemoveInstalledApp,
        (UpdateStage::FindInstalledApp, UpdateOutcome::InstalledAppFound(false)) => UpdateStage::Install,
        (UpdateStage::RemoveInstalledApp, UpdateOutcome::Done) => UpdateStage::Install,
        (UpdateStage::Install, UpdateOutcome::Done) => UpdateStage::Updated,
        _ => UpdateStage::Aborted,
    }
}

/// Decides what the update does next, given how the current stage turned out.
pub fn next_update_stage(stage: UpdateStage, outcome: UpdateOutcome) -> (r: UpdateStage)
    ensures
        r == next_stage_spec(stage, outcome),
{
    match (stage, outcome) {
        (UpdateStage::Updated, _) => UpdateStage::Updated,
        (UpdateStage::Aborted, _) => UpdateStage::Aborted,
        (UpdateStage::CheckRelease, UpdateOutcome::Done) => UpdateStage::MakeTempDir,
        (UpdateStage::MakeTempDir, UpdateOutcome::Done) => UpdateStage::Download,
        (UpdateStage::Download, UpdateOutcome::Done) => UpdateStage::SaveArchive,
        (UpdateStage::SaveArchive, UpdateOutcome::Done) => UpdateStage::VerifyDigest,
        (UpdateStage::VerifyDigest, UpdateOutcome::DigestChecked(true)) => UpdateStage::Extract,
        (UpdateStage::Extract, UpdateOutcome::Done) => UpdateStage::FindInstalledApp,
        (UpdateStage::FindInstalledApp, UpdateOutcome::InstalledAppFound(true)) => UpdateStage::RemoveInstalledApp,
        (UpdateStage::FindInstalledApp, UpdateOutcome::InstalledAppFound(false)) => UpdateStage::Install,
        (UpdateStage::RemoveInstalledApp, UpdateOutcome::Done) => UpdateStage::Install,
        (UpdateStage::Install, UpdateOutcome::Done) => UpdateStage::Updated,
        _ => UpdateStage::Aborted,
    }
}

/// The stage reached from `CheckRelease` after the outcomes `outcomes`, in order.
pub open spec fn stage_after(outcomes: Seq<UpdateOutcome>) -> UpdateStage
    decreases outcomes.len(),
{
    if outcomes.len() == 0 {
        UpdateStage::CheckRelease
    } else {
        next_stage_spec(stage_after(outcomes.drop_last()), outcomes.last())
    }
}

/// Stages that come after a passed digest check.
pub open spec fn after_digest_check(stage: UpdateStage) -> bool {
    match stage {
        UpdateStage::Extract | UpdateStage::FindInstalledApp | UpdateStage::RemoveInstalledApp
        | UpdateStage::Install | UpdateStage::Updated => true,
        _ => false,
    }
}

/// Nothing is unpacked, removed or installed, and no update completes, unless the
/// digest of the downloaded archive was checked and matched.
pub proof fn lemma_install_requires_matching_digest(outcomes: Seq<UpdateOutcome>)
    ensures
        after_digest_check(stage_after(outcomes)) ==> exists|i: int|
            0 <= i < outcomes.len() && stage_after(outcomes.take(i)) == UpdateStage::VerifyDigest
                && #[trigger] outcomes[i] == UpdateOutcome::DigestChecked(true),
    decreases outcomes.len(),
{
    if outcomes.len() > 0 {
        let prefix = outcomes.drop_last();
        lemma_install_requires_matching_digest(prefix);
        if after_digest_check(stage_after(outcomes)) {
            let last = outcomes.len() - 1;
            assert(outcomes.take(last) =~= prefix);
            if after_digest_check(stage_after(prefix)) {
                let i = choose|i: int|
                    0 <= i < prefix.len() && stage_after(prefix.take(i)) == UpdateStage::VerifyDigest
                        && #[trigger] prefix[i] == UpdateOutcome::DigestChecked(true);
                assert(outcomes.take(i) =~= prefix.take(i));
                assert(outcomes[i] == prefix[i]);
            } else {
                assert(outcomes[last] == UpdateOutcome::DigestChecked(true));
            }
        }
    }
}

/// A given-up update stays given up, whatever is reported afterwards.
pub proof fn lemma_aborted_is_final(outcomes: Seq<UpdateOutcome>, later: Seq<UpdateOutcome>)
    requires
        stage_after(outcomes) == UpdateStage::Aborted,
    ensures
        stage_after(outcomes + later) == UpdateStage::Aborted,
    decreases later.len(),
{
    if later.len() == 0 {
        assert(outcomes + later =~= outcomes);
    } else {
        lemma_aborted_is_final(outcomes, later.drop_last());
        assert((outcomes + later).drop_last() =~= outcomes + later.drop_last());
    }
}

} // verus!
