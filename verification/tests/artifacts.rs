use canopy::artifacts::digests::{digest_of, parse_sri, sri};
use canopy::artifacts::matching::SemVer;
use canopy::artifacts::registration::{
    draft_version, group_artifact, group_upload, missing_version, parse_sri_opt, releaser_target,
    reporting_schema_type, uuid_string, OfferedArtifact, VersionTarget,
};
use canopy::artifacts::sweep::{sweepable, GRACE};
use canopy::artifacts::{location, relocation, Artifact, ArtifactError, NewArtifact, Scope, MAX_HELD_ARTIFACT_BYTES};
use std::cmp::Ordering;

const HELLO_SHA256: &str = "2cf24dba5fb0a30e26e83b2ac5b9e29e1b161e5c1fa7425e73043362938b9824";

fn hex(bytes: &[u8]) -> String {
    bytes.iter().map(|b| format!("{b:02x}")).collect()
}

fn artifact(id: u128, version_id: Option<u128>, pattern: Option<&str>, group: Option<u128>, kind: &str, platform: &str) -> Artifact {
    Artifact {
        id,
        version_id,
        artifact_type: kind.to_string(),
        platform: platform.to_string(),
        download_url: if group.is_some() { None } else { Some(format!("https://example.com/{id}")) },
        device_id: None,
        version_range_pattern: pattern.map(str::to_string),
        group_id: group,
        content_type: None,
        digest: None,
        run_id: None,
        updated_at: 0,
    }
}

fn ids(v: &[Artifact]) -> Vec<u128> {
    v.iter().map(|a| a.id).collect()
}

const V: SemVer = SemVer { major: 2, minor: 10, patch: 5 };
const TARGET: u128 = 100;

#[test]
fn the_digest_is_sha256_of_the_bytes() {
    let d = digest_of(b"hello");
    assert_eq!(d.len(), 32);
    assert_eq!(hex(&d), HELLO_SHA256);
}

#[test]
fn a_digest_is_written_as_sri() {
    let d = digest_of(b"hello");
    assert_eq!(sri(&d), "sha256-LPJNul+wow4m6DsqxbninhsWHlwfp0JecwQzYpOLmCQ=");
}

#[test]
fn an_sri_digest_reads_back_as_what_was_written() {
    let d = digest_of(b"the group's schema");
    let written = sri(&d);
    assert_eq!(parse_sri(&written).unwrap(), d);
    assert_eq!(parse_sri(&format!("  {written}\n")).unwrap(), d);
}

#[test]
fn a_value_that_names_no_sha256_digest_is_refused() {
    match parse_sri("md5-abc") {
        Err(ArtifactError::BadRequest(m)) => assert_eq!(m, "\"md5-abc\" is not a sha256 SRI digest"),
        other => panic!("unexpected {other:?}"),
    }
    // Decodes, but to three bytes rather than thirty-two.
    assert!(matches!(parse_sri("sha256-AAAA"), Err(ArtifactError::BadRequest(_))));
    assert!(matches!(parse_sri("sha256-not base64!"), Err(ArtifactError::BadRequest(_))));
    assert!(parse_sri_opt(None).unwrap().is_none());
    assert!(parse_sri_opt(Some("nonsense")).is_err());
}

#[test]
fn a_caller_with_no_group_sees_the_unscoped_artifacts_alone() {
    assert_eq!(Scope::for_caller(None), Scope::Unscoped);
    assert_eq!(Scope::for_caller(Some(7)), Scope::Group(7));
    assert!(Scope::Unscoped.sees(None));
    assert!(!Scope::Unscoped.sees(Some(7)));
    assert!(Scope::Group(7).sees(None));
    assert!(Scope::Group(7).sees(Some(7)));
    assert!(!Scope::Group(7).sees(Some(8)));
    assert!(Scope::Fleet.sees(Some(8)));
}

#[test]
fn a_blank_url_is_no_location() {
    assert_eq!(location(Some("   ".to_string())), None);
    assert_eq!(location(None), None);
    assert_eq!(location(Some("https://x".to_string())), Some("https://x".to_string()));
}

fn new_artifact(url: Option<&str>, group: Option<u128>, content: Option<Vec<u8>>, digest: Option<Vec<u8>>, content_type: Option<&str>) -> NewArtifact {
    NewArtifact {
        version_id: Some(1),
        artifact_type: "installer".into(),
        platform: "windows".into(),
        download_url: url.map(str::to_string),
        device_id: None,
        version_range_pattern: None,
        group_id: group,
        content,
        content_type: content_type.map(str::to_string),
        digest,
        run_id: None,
    }
}

fn refusal(r: Result<NewArtifact, ArtifactError>) -> String {
    match r {
        Err(ArtifactError::BadRequest(m)) => m,
        other => panic!("unexpected {other:?}"),
    }
}

#[test]
fn an_artifact_rests_in_exactly_one_place() {
    assert_eq!(
        refusal(new_artifact(Some("https://x"), Some(1), Some(vec![1]), Some(vec![2]), None).resting()),
        "an artifact Canopy holds has no download URL"
    );
    assert_eq!(
        refusal(new_artifact(Some("  "), None, None, None, None).resting()),
        "an artifact needs a download URL or a group"
    );
    assert_eq!(
        refusal(new_artifact(None, Some(1), Some(vec![1]), None, None).resting()),
        "a group-scoped artifact must carry its bytes and their digest"
    );
    assert_eq!(
        refusal(new_artifact(Some("https://x"), None, Some(vec![1]), None, None).resting()),
        "only a group-scoped artifact carries bytes"
    );
    assert_eq!(
        refusal(new_artifact(Some("https://x"), None, None, None, Some("text/plain")).resting()),
        "only a group-scoped artifact carries bytes"
    );
    let held = new_artifact(Some(" "), Some(1), Some(vec![1]), Some(vec![2]), None).resting().unwrap();
    assert_eq!(held.download_url, None);
    let located = new_artifact(Some("https://x"), None, None, None, None).resting().unwrap();
    assert_eq!(located.download_url.as_deref(), Some("https://x"));
}

#[test]
fn a_held_artifact_has_no_location_to_change() {
    assert!(matches!(relocation(true, Some("https://x".into())), Err(ArtifactError::Conflict(m)) if m == "an artifact Canopy holds has no download URL"));
    assert!(matches!(relocation(false, Some(" ".into())), Err(ArtifactError::Conflict(m)) if m == "an artifact Canopy does not hold needs a download URL"));
    assert_eq!(relocation(true, Some("".into())).unwrap(), None);
    assert_eq!(relocation(false, Some("https://y".into())).unwrap().as_deref(), Some("https://y"));
}

#[test]
fn patterns_rank_caret_then_tilde_then_wildcard() {
    assert_eq!(Artifact::compare_pattern_specificity("^2.10.0", "~2.10.0"), Ordering::Less);
    assert_eq!(Artifact::compare_pattern_specificity("~2.10.0", "2.10.x"), Ordering::Less);
    assert_eq!(Artifact::compare_pattern_specificity("2.10.x", ">=2.0.0"), Ordering::Less);
    assert_eq!(Artifact::compare_pattern_specificity(">=2.0.0", "^2.10.0"), Ordering::Greater);
    assert_eq!(Artifact::compare_pattern_specificity("^1", "^2"), Ordering::Equal);
}

#[test]
fn the_group_s_then_the_exact_then_the_narrower_range_come_first() {
    let rows = vec![
        artifact(1, None, Some(">=2.0.0"), None, "installer", "windows"),
        artifact(2, None, Some("^2.10.0"), None, "installer", "windows"),
        artifact(3, Some(TARGET), None, None, "installer", "windows"),
        artifact(4, Some(TARGET), None, Some(9), "installer", "windows"),
        artifact(5, None, Some("^3.0.0"), None, "installer", "windows"),
        artifact(6, Some(999), None, None, "installer", "windows"),
        artifact(7, None, Some("not a range"), None, "installer", "windows"),
    ];
    let all = Artifact::get_for_version_all_matches(rows, TARGET, V, Scope::Fleet);
    assert_eq!(ids(&all), vec![4, 3, 2, 1]);
}

#[test]
fn an_unscoped_read_is_offered_no_group_s_artifact() {
    let rows = vec![
        artifact(4, Some(TARGET), None, Some(9), "installer", "windows"),
        artifact(3, Some(TARGET), None, None, "installer", "windows"),
    ];
    let all = Artifact::get_for_version_all_matches(rows, TARGET, V, Scope::Unscoped);
    assert_eq!(ids(&all), vec![3]);
}

#[test]
fn one_artifact_of_each_type_and_platform_is_served() {
    let rows = vec![
        artifact(1, None, Some(">=2.0.0"), None, "installer", "windows"),
        artifact(2, None, Some("^2.10.0"), None, "installer", "linux"),
        artifact(3, Some(TARGET), None, None, "installer", "windows"),
        artifact(4, Some(TARGET), None, Some(9), "installer", "windows"),
    ];
    let mut group = Artifact::get_for_version(rows, TARGET, V, Scope::Group(9));
    group.sort_by_key(|a| a.id);
    assert_eq!(ids(&group), vec![2, 4]);
    let served = Artifact::offered(
        vec![
            artifact(3, Some(TARGET), None, None, "installer", "windows"),
            artifact(1, None, Some(">=2.0.0"), None, "installer", "windows"),
            artifact(2, None, Some("^2.10.0"), None, "installer", "linux"),
        ],
        Scope::Unscoped,
    );
    assert_eq!(ids(&served), vec![3, 2]);
}

#[test]
fn sorting_keeps_every_artifact() {
    let mut v = vec![
        artifact(1, None, Some("^2.10.0"), None, "a", "b"),
        artifact(2, Some(TARGET), None, None, "a", "b"),
    ];
    Artifact::sort_by_specificity(&mut v);
    assert_eq!(ids(&v), vec![2, 1]);
}

#[test]
fn an_exact_artifact_displaces_a_matching_range_of_its_own_group_or_none() {
    let ranges = vec![
        artifact(10, None, Some("^2.0.0"), None, "installer", "windows"),
        artifact(11, None, Some("^3.0.0"), None, "installer", "linux"),
    ];
    let exact = artifact(3, Some(TARGET), None, None, "installer", "windows");
    assert!(Artifact::overridden_range(&ranges, &exact, V));
    let other_kind = artifact(4, Some(TARGET), None, None, "installer", "linux");
    assert!(!Artifact::overridden_range(&ranges, &other_kind, V));
    let range = artifact(10, None, Some("^2.0.0"), None, "installer", "windows");
    assert!(!Artifact::overridden_range(&ranges, &range, V));
    let group_range = vec![artifact(12, None, Some("^2.0.0"), Some(5), "installer", "windows")];
    assert!(!Artifact::overridden_range(&group_range, &exact, V));
}

#[test]
fn the_fleet_view_marks_what_each_resolved_scope_is_served() {
    let rows = vec![
        artifact(1, Some(TARGET), None, None, "installer", "windows"),
        artifact(2, Some(TARGET), None, Some(7), "installer", "windows"),
        artifact(3, Some(TARGET), None, Some(8), "installer", "windows"),
        artifact(4, None, Some("^2.0.0"), None, "installer", "windows"),
    ];
    let ranges = vec![artifact(4, None, Some("^2.0.0"), None, "installer", "windows")];
    let rows_meta = Artifact::get_for_version_all_matches_with_metadata(rows, &ranges, TARGET, V, Scope::Fleet);
    let by_id: std::collections::HashMap<u128, (bool, bool, bool)> =
        rows_meta.iter().map(|(a, e, o, u)| (a.id, (*e, *o, *u))).collect();
    assert_eq!(by_id[&1], (true, true, true));
    assert_eq!(by_id[&2], (true, true, true));
    assert_eq!(by_id[&3], (true, true, true));
    assert_eq!(by_id[&4], (false, false, false));
}

#[test]
fn the_newest_change_counts_a_range_for_every_version_it_covers() {
    let versions = vec![(1u128, SemVer { major: 2, minor: 10, patch: 5 }), (2u128, SemVer { major: 3, minor: 0, patch: 0 })];
    let exact = vec![(Some(1u128), Some(50i128)), (None, Some(70)), (Some(2), None)];
    let ranges = vec![(Some("^2.0.0".to_string()), 60i128), (Some("garbage".to_string()), 90), (None, 95), (Some(">=3".to_string()), 40)];
    let mut newest = Artifact::newest_change_for_versions(&versions, &exact, &ranges);
    newest.sort();
    assert_eq!(newest, vec![(1, 60), (2, 40)]);
    assert_eq!(Artifact::newest_change_for_version((1, versions[0].1), &exact, &ranges), Some(60));
    assert_eq!(Artifact::newest_change_for_version((3, SemVer { major: 9, minor: 0, patch: 0 }), &exact, &ranges), Some(40));
    assert_eq!(Artifact::newest_change_for_version((4, SemVer { major: 1, minor: 0, patch: 0 }), &exact, &ranges), None);
}

#[test]
fn only_unregistered_bytes_older_than_the_grace_are_swept() {
    let now: i128 = 1_700_000_000_000_000_000;
    let old = now - GRACE - 1;
    let young = now - GRACE + 1;
    let stored = vec![(1u128, old), (2, old), (3, young), (4, now - GRACE)];
    let held = vec![1u128];
    assert_eq!(sweepable(&stored, &held, now), vec![2, 4]);
}

#[test]
fn a_releaser_registers_no_group_s_artifact() {
    assert!(matches!(releaser_target(Some(1), None, "2.10.5"), Err(ArtifactError::NotPermitted(m)) if m == "authorisation for the named group"));
    assert!(matches!(releaser_target(None, Some("md5-x"), "2.10.5"), Err(ArtifactError::BadRequest(_))));
    assert!(matches!(releaser_target(None, None, "not a version"), Err(ArtifactError::Invalid(m)) if m == "Invalid version or version range"));
    match releaser_target(None, None, "2.10.5").unwrap() {
        (None, VersionTarget::Exact(v)) => assert_eq!(v, V),
        other => panic!("unexpected {other:?}"),
    }
    let d = sri(&digest_of(b"x"));
    match releaser_target(None, Some(&d), "^2.10.0").unwrap() {
        (Some(bytes), VersionTarget::Range(p)) => {
            assert_eq!(bytes, digest_of(b"x"));
            assert_eq!(p, "^2.10.0");
        }
        other => panic!("unexpected {other:?}"),
    }
}

#[test]
fn a_schema_builder_registers_only_a_reporting_schema_for_its_group() {
    let schema = reporting_schema_type();
    assert_eq!(schema, "reporting-schema");
    let msg = |r: Result<SemVer, ArtifactError>| r.unwrap_err().message().clone();
    assert_eq!(msg(group_upload("installer", true, 10, false, "2.10.5")), "a group-scoped artifact to be a reporting-schema");
    assert_eq!(msg(group_upload(schema, false, 10, false, "2.10.5")), "an enabled declaration building this group's artifacts");
    assert_eq!(msg(group_upload(schema, true, MAX_HELD_ARTIFACT_BYTES + 1, false, "2.10.5")), "artifact is larger than the 33554432 byte limit");
    assert_eq!(msg(group_upload(schema, true, 0, false, "2.10.5")), "a group-scoped artifact carries its bytes");
    assert_eq!(msg(group_upload(schema, true, 10, true, "2.10.5")), "the named run belongs to another consumer or group");
    assert_eq!(msg(group_upload(schema, true, 10, false, "^2.10.0")), "a reporting schema names an exact version");
    assert_eq!(group_upload(schema, true, MAX_HELD_ARTIFACT_BYTES, false, "2.10.5").unwrap(), V);
    assert_eq!(missing_version("2.99.0").message(), "no version 2.99.0 to register a group-scoped artifact against");
}

#[test]
fn a_held_artifact_records_the_digest_of_what_canopy_took_in() {
    let a = group_artifact(9, 1, "reporting-schema".into(), "postgres".into(), 3, b"select 1".to_vec(), Some("text/plain".into()), None);
    assert_eq!(a.digest, Some(digest_of(b"select 1")));
    assert_eq!(a.group_id, Some(9));
    assert_eq!(a.download_url, None);
    assert!(a.resting().is_ok());
}

#[test]
fn a_uuid_is_written_hyphenated_in_lowercase() {
    let id = 0x67e5_5044_10b1_426f_9247_bb68_0e5f_e0c8u128;
    assert_eq!(uuid_string(id), "67e55044-10b1-426f-9247-bb680e5fe0c8");
    assert_eq!(uuid_string(id), uuid::Uuid::from_u128(id).to_string());
    assert_eq!(uuid_string(0), "00000000-0000-0000-0000-000000000000");
}

#[test]
fn a_held_artifact_is_offered_canopy_s_download_endpoint() {
    let id = 0x67e5_5044_10b1_426f_9247_bb68_0e5f_e0c8u128;
    let mut row = artifact(id, Some(TARGET), None, Some(9), "reporting-schema", "postgres");
    row.digest = Some(digest_of(b"hello"));
    let offered = OfferedArtifact::offered(row, "https://canopy.example", "2.10.5");
    assert_eq!(
        offered.download_url,
        "https://canopy.example/versions/2.10.5/artifacts/67e55044-10b1-426f-9247-bb680e5fe0c8/download"
    );
    assert_eq!(offered.digest.as_deref(), Some("sha256-LPJNul+wow4m6DsqxbninhsWHlwfp0JecwQzYpOLmCQ="));
    let located = OfferedArtifact::offered(artifact(2, Some(TARGET), None, None, "installer", "windows"), "https://c", "2.10.5");
    assert_eq!(located.download_url, "https://example.com/2");
    assert_eq!(located.digest, None);
}

use canopy::artifacts::store::{default_prefix, object_key, store_choice, unconfigured, MemoryStore, StoreChoice};

#[test]
fn a_read_gives_back_the_bytes_the_last_write_stored() {
    let mut store = MemoryStore::new();
    assert_eq!(store.get(1), None);
    store.put(1, b"first".to_vec());
    store.put(2, b"other".to_vec());
    assert_eq!(store.get(1).as_deref(), Some(&b"first"[..]));
    store.put(1, b"second".to_vec());
    assert_eq!(store.get(1).as_deref(), Some(&b"second"[..]));
    store.delete(1);
    assert_eq!(store.get(1), None);
    assert_eq!(store.get(2).as_deref(), Some(&b"other"[..]));
    store.delete(1);
    assert_eq!(store.get(2).as_deref(), Some(&b"other"[..]));
}

#[test]
fn an_object_is_kept_under_the_artifact_s_id() {
    let id = 0x67e5_5044_10b1_426f_9247_bb68_0e5f_e0c8u128;
    assert_eq!(object_key(Some("artifacts/"), id), "artifacts/67e55044-10b1-426f-9247-bb680e5fe0c8");
    assert_eq!(object_key(None, id), "67e55044-10b1-426f-9247-bb680e5fe0c8");
}

#[test]
fn the_environment_chooses_the_store() {
    assert!(matches!(store_choice(true, true, Some("b".into()), None), StoreChoice::Memory));
    assert!(matches!(store_choice(true, false, None, None), StoreChoice::Unconfigured));
    match store_choice(false, true, Some("bucket".into()), None) {
        StoreChoice::S3 { bucket, prefix } => {
            assert_eq!(bucket, "bucket");
            assert_eq!(prefix, default_prefix());
        }
        other => panic!("unexpected {other:?}"),
    }
    match store_choice(false, false, Some("bucket".into()), Some("held/".into())) {
        StoreChoice::S3 { prefix, .. } => assert_eq!(prefix, "held/"),
        other => panic!("unexpected {other:?}"),
    }
    assert_eq!(unconfigured(), "Canopy holds no artifacts: CANOPY_ARTIFACT_BUCKET is not configured");
}

#[test]
fn equally_specific_artifacts_keep_their_order() {
    let mut v = vec![
        artifact(5, Some(TARGET), None, None, "a", "b"),
        artifact(4, None, Some("^2.10.0"), None, "a", "b"),
        artifact(3, Some(TARGET), None, None, "a", "b"),
        artifact(1, None, Some("^1.0.0"), None, "a", "b"),
        artifact(2, Some(TARGET), None, None, "a", "b"),
    ];
    Artifact::sort_by_specificity(&mut v);
    assert_eq!(ids(&v), vec![5, 3, 2, 4, 1]);
}

#[test]
fn a_version_a_releaser_names_first_is_drafted_by_its_device() {
    let d = draft_version(SemVer { major: 2, minor: 11, patch: 0 }, 77);
    assert_eq!((d.major, d.minor, d.patch), (2, 11, 0));
    assert_eq!(d.changelog, "");
    assert!(!d.published);
    assert_eq!(d.device_id, Some(77));
}
