use provenance::action::{Action, ActionLedger};
use provenance::assertion::{creative_work, action_set, embedded_metadata, new_assertion, AssertionData};
use provenance::digest::{compute_digest, ContentDigest};
use provenance::error::Error;
use provenance::manifest::{Manifest, IngredientReference};
use provenance::media::MediaData;
use provenance::sign::{parse_algorithm, sign_bytes, SigningAlg};
use provenance::store::{
    create_manifest, sign_and_embed, embed, chain_of, ingredient_from_asset, ManifestStore,
    StatusCode,
};
use provenance::text::u64_to_decimal;

fn sample_key() -> Vec<u8> {
    vec![7u8, 13, 42, 99, 255, 0, 1, 2]
}

fn sample_asset(len: usize) -> Vec<u8> {
    let mut v = Vec::new();
    for i in 0..len {
        v.push((i % 251) as u8);
    }
    v
}

fn creation_manifest() -> Manifest {
    let mut ledger = ActionLedger::new();
    ledger
        .record_action(
            "created".to_string(),
            "test/0.1".to_string(),
            Some("https://cv.iptc.org/newscodes/digitalsourcetype/digitalCapture".to_string()),
            None,
            Vec::new(),
        )
        .unwrap();
    let assertions = vec![
        creative_work("Mike Cvet".to_string(), "mikecvet".to_string()).unwrap(),
        action_set(ledger.into_actions()).unwrap(),
    ];
    create_manifest(
        "test/0.1".to_string(),
        "title".to_string(),
        "image/jpeg".to_string(),
        assertions,
    )
    .unwrap()
}

#[test]
fn digest_exact_values() {
    let d = compute_digest(&vec![1u8, 2, 3]);
    assert_eq!(d.len, 3);
    assert_eq!(d.sum, 6);
    let e = compute_digest(&Vec::new());
    assert_eq!(e.len, 0);
    assert_eq!(e.sum, 0);
}

#[test]
fn decimal_exact_values() {
    assert_eq!(u64_to_decimal(0), "0");
    assert_eq!(u64_to_decimal(10), "10");
    assert_eq!(u64_to_decimal(18446744073709551615), "18446744073709551615");
}

#[test]
fn rfc3339_of_epoch() {
    let a = Action::new("created".to_string(), 0, "agent".to_string(), None, None, Vec::new());
    assert_eq!(a.when_rfc3339().unwrap(), "1970-01-01T00:00:00+00:00");
}

#[test]
fn media_data_fields() {
    let md = MediaData::new(128, 256, "descriptive string".to_string());
    let fields = md.to_fields();
    assert_eq!(fields[0], ("n".to_string(), "128".to_string()));
    assert_eq!(fields[1], ("m".to_string(), "256".to_string()));
    assert_eq!(fields[2].1, "descriptive string");
}

#[test]
fn algorithm_parsing() {
    assert!(matches!(parse_algorithm(&"ps256".to_string()), Ok(SigningAlg::Ps256)));
    assert!(matches!(parse_algorithm(&"es256".to_string()), Ok(SigningAlg::Es256)));
    assert!(matches!(
        parse_algorithm(&"rsa".to_string()),
        Err(Error::UnsupportedAlgorithm)
    ));
}

#[test]
fn signing_rejects_empty_key() {
    let empty: Vec<u8> = Vec::new();
    assert!(matches!(sign_bytes(&vec![1u8], SigningAlg::Ps256, &empty), Err(Error::Signing)));
}

#[test]
fn invalid_assertion_reports_field() {
    match creative_work("".to_string(), "id".to_string()) {
        Err(Error::InvalidAssertion { field }) => assert_eq!(field, "author_name"),
        _ => panic!("expected InvalidAssertion"),
    }
    match new_assertion("".to_string(), AssertionData::LabeledCustomData { fields: Vec::new() }) {
        Err(Error::InvalidAssertion { field }) => assert_eq!(field, "label"),
        _ => panic!("expected InvalidAssertion"),
    }
    match action_set(Vec::new()) {
        Err(Error::InvalidAssertion { field }) => assert_eq!(field, "actions"),
        _ => panic!("expected InvalidAssertion"),
    }
}

#[test]
fn duplicate_label_rejected_and_count_unchanged() {
    let mut m = Manifest::new("test/0.1".to_string());
    let a1 = creative_work("Mike Cvet".to_string(), "mikecvet".to_string()).unwrap();
    let a2 = creative_work("Someone Else".to_string(), "someone".to_string()).unwrap();
    m.add_assertion(a1).unwrap();
    assert_eq!(m.assertions().len(), 1);
    match m.add_assertion(a2) {
        Err(Error::DuplicateLabel { label }) => {
            assert_eq!(label, "stds.schema-org.CreativeWork");
        },
        _ => panic!("expected DuplicateLabel"),
    }
    assert_eq!(m.assertions().len(), 1);
}

#[test]
fn immutable_after_signing() {
    let mut m = creation_manifest();
    let content = sample_asset(100);
    let d = compute_digest(&content);
    m.sign(SigningAlg::Ps256, &sample_key(), d).unwrap();
    let sig_before = m.signature();
    let digest_before = m.content_digest();
    let extra = embedded_metadata(vec![("exif:GPSLatitude".to_string(), "48,15.7068N".to_string())])
        .unwrap();
    assert!(matches!(m.add_assertion(extra), Err(Error::ImmutableManifest)));
    assert_eq!(m.signature(), sig_before);
    assert_eq!(m.content_digest(), digest_before);
    assert!(matches!(m.set_title("other".to_string()), Err(Error::ImmutableManifest)));
}

#[test]
fn duplicate_parent_rejected() {
    let mut m = Manifest::new("test/0.1".to_string());
    m.set_parent(IngredientReference::new("a".to_string(), None)).unwrap();
    assert!(matches!(
        m.set_parent(IngredientReference::new("b".to_string(), None)),
        Err(Error::DuplicateParent)
    ));
}

#[test]
fn round_trip_preserves_assertions() {
    let m = creation_manifest();
    let labels: Vec<String> = m.assertions().iter().map(|a| a.label.clone()).collect();
    let asset = sample_asset(10240);
    let out = sign_and_embed(m, &asset, SigningAlg::Ps256, &sample_key()).unwrap();
    let roots = vec![sample_key()];
    let store = ManifestStore::from_asset(&out, &roots).unwrap();
    let active = store.get_active().unwrap();
    let got: Vec<String> = active.assertions().iter().map(|a| a.label.clone()).collect();
    assert_eq!(got, labels);
    assert_eq!(active.title().as_ref().unwrap(), "title");
    assert_eq!(active.format(), "image/jpeg");
    match &active.assertions()[0].data {
        AssertionData::CreativeWork { author_name, author_identifier } => {
            assert_eq!(author_name, "Mike Cvet");
            assert_eq!(author_identifier, "mikecvet");
        },
        _ => panic!("expected CreativeWork first"),
    }
}

#[test]
fn concrete_scenario_clean_open() {
    let mut m = creation_manifest();
    m.add_labeled_assertion(
        "org.contentauth.test".to_string(),
        MediaData::new(128, 256, "descriptive string".to_string()).to_fields(),
    )
    .unwrap();
    let alg = parse_algorithm(&"ps256".to_string()).unwrap();
    let asset = sample_asset(10240);
    let out = sign_and_embed(m, &asset, alg, &sample_key()).unwrap();
    let roots = vec![sample_key()];
    let store = ManifestStore::from_asset(&out, &roots).unwrap();
    assert!(store.validation_statuses().is_empty());
    assert!(store.is_valid());
    assert_eq!(store.get_active().unwrap().title().as_ref().unwrap(), "title");
}

#[test]
fn tamper_detection_flags_content() {
    let m = creation_manifest();
    let asset = sample_asset(2048);
    let mut out = sign_and_embed(m, &asset, SigningAlg::Ps256, &sample_key()).unwrap();
    out[100] ^= 0xff;
    let roots = vec![sample_key()];
    let store = ManifestStore::from_asset(&out, &roots).unwrap();
    assert!(!store.is_valid());
    assert!(store
        .validation_statuses()
        .iter()
        .any(|s| matches!(s.code, StatusCode::ContentTampered)));
}

#[test]
fn wrong_key_flags_signature() {
    let m = creation_manifest();
    let asset = sample_asset(512);
    let out = sign_and_embed(m, &asset, SigningAlg::Ps256, &sample_key()).unwrap();
    let roots = vec![vec![9u8, 9, 9]];
    let store = ManifestStore::from_asset(&out, &roots).unwrap();
    assert!(store
        .validation_statuses()
        .iter()
        .any(|s| matches!(s.code, StatusCode::SignatureInvalid)));
}

#[test]
fn chain_length_after_edits() {
    let asset = sample_asset(4096);
    let key = sample_key();
    let mut current = sign_and_embed(creation_manifest(), &asset, SigningAlg::Ps256, &key).unwrap();
    let edits = 3;
    for round in 0..edits {
        let parent = ingredient_from_asset(&current);
        let mut ledger = ActionLedger::new();
        ledger
            .record_action(
                "cropped".to_string(),
                "test/0.1".to_string(),
                None,
                Some("editing".to_string()),
                vec![("round".to_string(), u64_to_decimal(round))],
            )
            .unwrap();
        let mut m = create_manifest(
            "test/0.1".to_string(),
            "title".to_string(),
            "image/jpeg".to_string(),
            vec![action_set(ledger.into_actions()).unwrap()],
        )
        .unwrap();
        m.set_parent(parent).unwrap();
        current = sign_and_embed(m, &current, SigningAlg::Ps256, &key).unwrap();
    }
    let roots = vec![key];
    let store = ManifestStore::from_asset(&current, &roots).unwrap();
    let chain = chain_of(&store).unwrap();
    assert_eq!(chain.len(), (edits + 1) as usize);
    assert_eq!(store.manifests().len(), (edits + 1) as usize);
}

#[test]
fn cyclic_chain_detected() {
    // A hand-corrupted chain: both links carry the same instance identifier.
    let mut inner = Manifest::new("test/0.1".to_string());
    inner
        .set_parent(IngredientReference::new("urn:asset:same".to_string(), None))
        .unwrap();
    let mut outer = Manifest::new("test/0.1".to_string());
    outer
        .set_parent(IngredientReference::new("urn:asset:same".to_string(), Some(inner)))
        .unwrap();
    let asset = sample_asset(256);
    let out = sign_and_embed(outer, &asset, SigningAlg::Ps256, &sample_key()).unwrap();
    let roots = vec![sample_key()];
    let store = ManifestStore::from_asset(&out, &roots).unwrap();
    assert!(matches!(chain_of(&store), Err(Error::CyclicChain)));
    assert!(store
        .validation_statuses()
        .iter()
        .any(|s| matches!(s.code, StatusCode::CyclicChainDetected)));
}

#[test]
fn no_manifest_found_on_plain_bytes() {
    let asset = sample_asset(64);
    let roots: Vec<Vec<u8>> = Vec::new();
    assert!(matches!(
        ManifestStore::from_asset(&asset, &roots),
        Err(Error::NoManifestFound)
    ));
}

#[test]
fn embed_checks_stored_digest() {
    let m = creation_manifest();
    let asset = sample_asset(128);
    // Unsigned manifest carries no digest: embedding it directly must fail.
    assert!(matches!(embed(m, &asset), Err(Error::DigestMismatch { .. })));
}

#[test]
fn signing_twice_rejected() {
    let mut m = creation_manifest();
    let d = compute_digest(&sample_asset(10));
    m.sign(SigningAlg::Ps256, &sample_key(), d).unwrap();
    assert!(matches!(
        m.sign(SigningAlg::Ps256, &sample_key(), d),
        Err(Error::ImmutableManifest)
    ));
}

#[test]
fn ledger_timestamps_never_decrease() {
    let mut ledger = ActionLedger::new();
    for _ in 0..3 {
        ledger
            .record_action("opened".to_string(), "agent".to_string(), None, None, Vec::new())
            .unwrap();
    }
    let actions = ledger.into_actions();
    assert!(actions[0].when <= actions[1].when);
    assert!(actions[1].when <= actions[2].when);
    let mut bad = ActionLedger::new();
    assert!(matches!(
        bad.record_action("".to_string(), "agent".to_string(), None, None, Vec::new()),
        Err(Error::InvalidAssertion { .. })
    ));
}

#[test]
fn ingredient_snapshot_is_owned() {
    let asset = sample_asset(300);
    let out = sign_and_embed(creation_manifest(), &asset, SigningAlg::Ps256, &sample_key()).unwrap();
    let ing = ingredient_from_asset(&out);
    let snap_title = ing
        .parent_manifest
        .as_ref()
        .unwrap()
        .title()
        .as_ref()
        .unwrap()
        .clone();
    assert_eq!(snap_title, "title");
    // A fresh parse of the same bytes sees the same manifest: the snapshot
    // duplicated it rather than borrowing it.
    let roots = vec![sample_key()];
    let store = ManifestStore::from_asset(&out, &roots).unwrap();
    assert_eq!(
        store.get_active().unwrap().claim_generator(),
        ing.parent_manifest.as_ref().unwrap().claim_generator()
    );
}

#[test]
fn labeled_assertion_errors_are_pinned() {
    let mut m = Manifest::new("test/0.1".to_string());
    m.add_labeled_assertion("org.contentauth.test".to_string(), Vec::new())
        .unwrap();
    match m.add_labeled_assertion("org.contentauth.test".to_string(), Vec::new()) {
        Err(Error::DuplicateLabel { label }) => assert_eq!(label, "org.contentauth.test"),
        other => panic!("expected DuplicateLabel, got {:?}", other),
    }
    match m.add_labeled_assertion("".to_string(), Vec::new()) {
        Err(Error::InvalidAssertion { field }) => assert_eq!(field, "label"),
        other => panic!("expected InvalidAssertion, got {:?}", other),
    }
    let d = compute_digest(&sample_asset(16));
    m.sign(SigningAlg::Ps256, &sample_key(), d).unwrap();
    assert!(matches!(
        m.add_labeled_assertion("org.other".to_string(), Vec::new()),
        Err(Error::ImmutableManifest)
    ));
}

#[test]
fn digest_mismatch_carries_expected_and_actual() {
    let asset = sample_asset(128);
    let other = sample_asset(64);
    let mut m = creation_manifest();
    // Bind the manifest to one asset's digest, then embed into another.
    let bound = compute_digest(&asset);
    m.sign(SigningAlg::Ps256, &sample_key(), bound).unwrap();
    match embed(m, &other) {
        Err(Error::DigestMismatch { expected, actual }) => {
            assert_eq!(expected, Some(bound));
            assert_eq!(actual, compute_digest(&other));
        },
        other => panic!("expected DigestMismatch, got {:?}", other.map(|_| ())),
    }
}
