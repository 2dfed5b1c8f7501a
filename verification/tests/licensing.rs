//! Licences: keys, envelopes, claims and what a client makes of them.
use libsrs::keys::{
    decode_signing_key, decode_verifying_key, encode_verifying_key, key_from_decoded,
    signature_from_decoded, Base64Fault, LicensingProtoError, SignedEntitlementEnvelope, SigningKey,
};
use libsrs::licensing_client::{
    current_key, key_after_answer, preferred_endpoints, snapshot_from_live_response,
    snapshot_from_offline_fallback, snapshot_without_identity, snapshot_without_key,
    snapshot_without_public_key, unexpired, ClientStateFile, EffectiveMode, LicenseRefresh,
    RefreshAction, VerificationState,
};
use libsrs::licensing_proto::{
    AdminRecordState, EntitlementClaims, EntitlementStatus, LicensedFeature,
    NotificationDeliveryState,
};
use serde_json::Value;

fn test_signing_key() -> SigningKey {
    SigningKey::from_bytes(&[7_u8; 32])
}

fn sample_claims() -> EntitlementClaims {
    EntitlementClaims {
        license_id: "license-123".to_string(),
        key_id: "key-123".to_string(),
        features: LicensedFeature::editor_defaults(),
        status: EntitlementStatus::Active,
        issued_at_epoch_s: 1_700_000_000,
        expires_at_epoch_s: 1_700_086_400,
        device_install_id: "install-abc".to_string(),
        message: "ok".to_string(),
        replacement_key: None,
    }
}

fn to_json(claims: &EntitlementClaims) -> String {
    let features: Vec<Value> =
        claims.features.iter().map(|f| Value::from(f.as_str())).collect();
    let mut map = serde_json::Map::new();
    map.insert("license_id".to_string(), Value::from(claims.license_id.clone()));
    map.insert("features".to_string(), Value::from(features));
    map.insert("active".to_string(), Value::from(claims.status == EntitlementStatus::Active));
    Value::Object(map).to_string()
}

fn from_json(text: &str) -> EntitlementClaims {
    let v: Value = serde_json::from_str(text).unwrap();
    let mut claims = sample_claims();
    claims.license_id = v["license_id"].as_str().unwrap().to_string();
    claims.features = v["features"]
        .as_array()
        .unwrap()
        .iter()
        .map(|f| LicensedFeature::from_slug(f.as_str().unwrap()).unwrap())
        .collect();
    claims
}

#[test]
fn sign_and_verify_round_trip() {
    let signing_key = test_signing_key();
    let verifying_key = signing_key.verifying_key();
    let envelope = SignedEntitlementEnvelope::sign(to_json(&sample_claims()), &signing_key);
    let claims = from_json(&envelope.verify(&verifying_key).expect("verify claims"));
    assert!(claims.is_editor_enabled());
    assert!(claims.allows_feature(LicensedFeature::FrameEdit));
}

#[test]
fn tampered_claims_fail_verification() {
    let signing_key = test_signing_key();
    let verifying_key = signing_key.verifying_key();
    let mut envelope = SignedEntitlementEnvelope::sign(to_json(&sample_claims()), &signing_key);
    envelope.claims_json = envelope.claims_json.replace("license-123", "license-999");
    let err = envelope.verify(&verifying_key).expect_err("tamper must fail");
    assert!(matches!(err, LicensingProtoError::InvalidSignature));
}

#[test]
fn verifying_key_round_trip() {
    let verifying_key = test_signing_key().verifying_key();
    let encoded = encode_verifying_key(&verifying_key);
    let decoded = decode_verifying_key(&encoded).expect("decode key");
    assert_eq!(decoded.to_bytes(), verifying_key.to_bytes());
}

#[test]
fn keys_are_those_of_the_signature_scheme() {
    let reference = ed25519_dalek::SigningKey::from_bytes(&[7_u8; 32]);
    assert_eq!(test_signing_key().verifying_key().to_bytes(), reference.verifying_key().to_bytes());
    assert_eq!(encode_verifying_key(&libsrs::keys::VerifyingKey { bytes: [0; 32] }), "A".repeat(43) + "=");
}

#[test]
fn key_text_that_is_no_key_is_refused() {
    assert_eq!(
        decode_signing_key("AAAA").map(|k| k.seed),
        Err(LicensingProtoError::InvalidKeyLength(3))
    );
    assert_eq!(
        decode_signing_key("A!AA").map(|k| k.seed),
        Err(LicensingProtoError::Base64(Base64Fault::InvalidByte(1, b'!')))
    );
    assert!(matches!(
        decode_signing_key("AAA"),
        Err(LicensingProtoError::Base64(Base64Fault::InvalidPadding))
    ));
    assert!(matches!(
        decode_signing_key("A"),
        Err(LicensingProtoError::Base64(Base64Fault::InvalidLength(1)))
    ));
    assert!(matches!(
        decode_signing_key("AB=="),
        Err(LicensingProtoError::Base64(Base64Fault::InvalidLastSymbol(1, b'B')))
    ));
    assert_eq!(decode_signing_key(&("A".repeat(43) + "=")).map(|k| k.seed), Ok([0; 32]));
    let off_curve = "Ag".to_string() + &"A".repeat(41) + "=";
    assert_eq!(decode_verifying_key(&off_curve), Err(LicensingProtoError::InvalidPublicKey));
    assert_eq!(key_from_decoded(Ok(vec![5; 32])), Ok([5; 32]));
    assert_eq!(
        signature_from_decoded(Ok(vec![5; 63])),
        Err(LicensingProtoError::InvalidSignatureBytes)
    );
    assert_eq!(signature_from_decoded(Ok(vec![5; 64])), Ok([5; 64]));
}

#[test]
fn short_signatures_are_refused() {
    let key = test_signing_key();
    let mut envelope = SignedEntitlementEnvelope::sign("{}".to_string(), &key);
    envelope.signature_b64 = "AAAA".to_string();
    assert_eq!(
        envelope.verify(&key.verifying_key()),
        Err(LicensingProtoError::InvalidSignatureBytes)
    );
}

#[test]
fn slugs_name_what_they_came_from() {
    for f in LicensedFeature::all() {
        assert_eq!(LicensedFeature::from_slug(f.as_str()), Some(f));
    }
    assert_eq!(LicensedFeature::all().len(), 13);
    assert_eq!(LicensedFeature::from_slug("frame_edit"), Some(LicensedFeature::FrameEdit));
    assert_eq!(LicensedFeature::from_slug("frame-edit"), None);
    assert_eq!(LicensedFeature::basic_defaults(), vec![LicensedFeature::Basic]);
    assert_eq!(AdminRecordState::from_slug("archived"), Some(AdminRecordState::Archived));
    assert_eq!(AdminRecordState::from_slug("gone"), None);
    assert_eq!(AdminRecordState::Deleted.as_str(), "deleted");
    assert_eq!(
        NotificationDeliveryState::from_slug("read"),
        Some(NotificationDeliveryState::Read)
    );
    assert_eq!(NotificationDeliveryState::Queued.as_str(), "queued");
    assert_eq!(NotificationDeliveryState::from_slug(""), None);
}

#[test]
fn inactive_claims_allow_nothing() {
    let mut claims = sample_claims();
    claims.status = EntitlementStatus::Revoked;
    assert!(!claims.allows_feature(LicensedFeature::Basic));
    claims.status = EntitlementStatus::Active;
    claims.features = LicensedFeature::basic_defaults();
    assert!(claims.allows_feature(LicensedFeature::Basic));
    assert!(!claims.is_editor_enabled());
}

#[test]
fn set_license_key_persists_current_key() {
    let state = ClientStateFile::default().with_key("abc-123".to_string());
    assert_eq!(current_key(state.current_key, None).as_deref(), Some("abc-123"));
}

#[test]
fn offline_fallback_keeps_play_only_even_with_cached_editor_claims() {
    let claims = EntitlementClaims {
        features: vec![LicensedFeature::Basic, LicensedFeature::EditorWorkspace],
        expires_at_epoch_s: 5000 + 3600,
        ..sample_claims()
    };
    let signing = test_signing_key();
    let state = ClientStateFile {
        cached_envelope: Some(SignedEntitlementEnvelope::sign("{}".to_string(), &signing)),
        last_endpoint: Some("http://localhost:3000".to_string()),
        ..ClientStateFile::default()
    };
    let snapshot = snapshot_from_offline_fallback(
        state,
        "abc-123".to_string(),
        &signing.verifying_key(),
        Some(claims),
        5000,
        vec!["a: down".to_string(), "b: down".to_string()],
    );
    assert_eq!(snapshot.verification_state, VerificationState::OfflineFallback);
    assert_eq!(snapshot.effective_mode, EffectiveMode::PlayOnly);
    assert!(snapshot.claims.is_some());
    assert!(!snapshot.allows_editor());
    assert_eq!(
        snapshot.message,
        "Licensing server unavailable: a: down | b: down. Falling back to play-only mode. \
         Cached entitlement status: Active."
    );
}

#[test]
fn offline_without_claims_or_errors() {
    let signing = test_signing_key();
    let key = signing.verifying_key();
    let s = snapshot_from_offline_fallback(
        ClientStateFile::default(),
        "k".to_string(),
        &key,
        None,
        1,
        vec![],
    );
    assert_eq!(
        s.message,
        "Licensing server unavailable. Falling back to play-only mode."
    );
    let state = || ClientStateFile {
        cached_envelope: Some(SignedEntitlementEnvelope::sign("{}".to_string(), &signing)),
        ..ClientStateFile::default()
    };
    let old = snapshot_from_offline_fallback(
        state(),
        "k".to_string(),
        &key,
        Some(sample_claims()),
        1_700_086_400,
        vec![],
    );
    assert!(old.claims.is_none());
    assert_eq!(old.verification_state, VerificationState::OfflineFallback);
    let stranger = SigningKey::from_bytes(&[8_u8; 32]).verifying_key();
    let foreign = snapshot_from_offline_fallback(
        state(),
        "k".to_string(),
        &stranger,
        Some(sample_claims()),
        1,
        vec![],
    );
    assert!(foreign.claims.is_none());
    assert!(unexpired(sample_claims(), 1_700_086_399).is_some());
}

#[test]
fn live_answers_open_the_editor_only_when_active() {
    let live = |status: EntitlementStatus, message: &str| {
        let claims = EntitlementClaims { status, ..sample_claims() };
        snapshot_from_live_response(
            "k".to_string(),
            claims,
            "http://a".to_string(),
            message.to_string(),
            vec![],
        )
    };
    let active = live(EntitlementStatus::Active, "");
    assert!(active.allows_editor());
    assert_eq!(active.message, "ok");
    assert_eq!(active.verification_state, VerificationState::Verified);
    let pending = live(EntitlementStatus::PendingConfirmation, "wait");
    assert!(!pending.allows_editor());
    assert_eq!(pending.message, "wait");
    assert_eq!(pending.verification_state, VerificationState::PendingConfirmation);
    assert_eq!(
        live(EntitlementStatus::Revoked, "").verification_state,
        VerificationState::Revoked
    );
    assert_eq!(
        live(EntitlementStatus::ReplacementIssued, "").verification_state,
        VerificationState::ReplacementIssued
    );
}

#[test]
fn keys_and_servers_are_picked_in_order() {
    let s = |x: &str| Some(x.to_string());
    assert_eq!(current_key(None, s("c")), s("c"));
    assert_eq!(current_key(s("k"), s("c")), s("k"));
    assert_eq!(key_after_answer(s("a"), s("b"), "k".to_string()), "a");
    assert_eq!(key_after_answer(None, s("b"), "k".to_string()), "b");
    assert_eq!(key_after_answer(None, None, "k".to_string()), "k");
    assert_eq!(preferred_endpoints(&"a".to_string(), &"a".to_string()), vec!["a"]);
    assert_eq!(preferred_endpoints(&"a".to_string(), &"b".to_string()), vec!["a", "b"]);
}

#[test]
fn refusals_name_their_reason() {
    let none = snapshot_without_key();
    assert_eq!(none.message, "No license key configured; editor mode unavailable.");
    assert_eq!(none.verification_state, VerificationState::MissingKey);
    let id = snapshot_without_identity("k".to_string(), "disk full");
    assert_eq!(id.message, "Failed to initialize install identity: disk full");
    let key = snapshot_without_public_key("k".to_string(), "short");
    assert_eq!(key.message, "Invalid public key configuration: short");
    assert_eq!(key.verification_state, VerificationState::InvalidResponse);
}

#[test]
fn servers_are_asked_in_turn() {
    let key = test_signing_key().verifying_key();
    let begin = || {
        LicenseRefresh::begin(
            "k".to_string(),
            Ok("id".to_string()),
            Ok(key),
            &"a".to_string(),
            &"b".to_string(),
        )
        .ok()
        .unwrap()
    };
    let mut refresh = begin();
    assert_eq!(refresh.next(), RefreshAction::Ask("a".to_string()));
    refresh.failed("down");
    assert_eq!(refresh.next(), RefreshAction::Ask("b".to_string()));
    refresh.failed("slow");
    assert_eq!(refresh.next(), RefreshAction::ReadKept);
    let state = ClientStateFile {
        last_endpoint: Some("c".to_string()),
        ..ClientStateFile::default()
    };
    let s = refresh.given_up(state, Some(sample_claims()), 7);
    assert!(s.claims.is_none());
    assert_eq!(s.endpoint.as_deref(), Some("c"));
    assert_eq!(
        s.message,
        "Licensing server unavailable: a: down | b: slow. Falling back to play-only mode."
    );

    let mut refresh = begin();
    refresh.failed("down");
    let claims = EntitlementClaims {
        replacement_key: Some("next".to_string()),
        ..sample_claims()
    };
    let envelope = SignedEntitlementEnvelope::sign("{}".to_string(), &test_signing_key());
    assert_eq!(refresh.check_answer(&envelope).ok().as_deref(), Some("{}"));
    let s = refresh
        .answered(&envelope, claims, None, "hi".to_string(), vec![])
        .ok()
        .unwrap();
    assert_eq!(s.endpoint.as_deref(), Some("b"));
    assert_eq!(s.current_key.as_deref(), Some("next"));
    assert_eq!(s.message, "hi");
    assert!(s.allows_editor());
}

#[test]
fn refresh_needs_an_identity_and_a_public_key() {
    let key = test_signing_key().verifying_key();
    let url = "a".to_string();
    let begin = |identity: Result<String, String>, public: bool| {
        let public_key = if public { Ok(key) } else { Err("short".to_string()) };
        LicenseRefresh::begin("k".to_string(), identity, public_key, &url, &url)
    };
    let s = begin(Err("disk full".to_string()), false).err().unwrap();
    assert_eq!(s.message, "Failed to initialize install identity: disk full");
    let s = begin(Ok("id".to_string()), false).err().unwrap();
    assert_eq!(s.message, "Invalid public key configuration: short");
    assert_eq!(begin(Ok("id".to_string()), true).ok().unwrap().endpoints, vec!["a"]);
}

#[test]
fn answers_count_only_under_the_configured_key() {
    let url = "a".to_string();
    let refresh = LicenseRefresh::begin(
        "k".to_string(),
        Ok("id".to_string()),
        Ok(test_signing_key().verifying_key()),
        &url,
        &url,
    )
    .ok()
    .unwrap();
    let stranger = SigningKey::from_bytes(&[8_u8; 32]);
    let mut envelope = SignedEntitlementEnvelope::sign("{}".to_string(), &stranger);
    let answer = refresh.answered(&envelope, sample_claims(), None, String::new(), vec![]);
    assert_eq!(answer.err(), Some(LicensingProtoError::InvalidSignature));
    envelope = SignedEntitlementEnvelope::sign("{}".to_string(), &test_signing_key());
    envelope.claims_json = "{ }".to_string();
    assert_eq!(refresh.check_answer(&envelope), Err(LicensingProtoError::InvalidSignature));
    envelope.signature_b64 = "AAAA".to_string();
    assert_eq!(refresh.check_answer(&envelope), Err(LicensingProtoError::InvalidSignatureBytes));
}
