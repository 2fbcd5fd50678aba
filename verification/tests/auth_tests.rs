use agent_hub::auth::{
    check_auth, complete_pairing, extract_token, generate_pairing_code, generate_token,
    is_valid_token, pin_login, request_pairing, PairError, PinOutcome, PairingRequest,
    PairedDevice, RateEntry,
};
use agent_hub::table::Table;

#[test]
fn pairing_code_is_six_digits() {
    let code = generate_pairing_code();
    assert_eq!(code.chars().count(), 6);
    assert!(code.chars().all(|c| c.is_ascii_digit()));
}

#[test]
fn token_is_lowercase_hex() {
    let token = generate_token();
    assert!(token.chars().all(|c| c.is_ascii_hexdigit() && !c.is_ascii_uppercase()));
}

#[test]
fn token_is_nonempty() {
    assert!(generate_token().chars().count() >= 2);
}

#[test]
fn extract_token_strips_bearer_prefix() {
    assert_eq!(
        extract_token(Some("Bearer abc123")),
        Some("abc123".to_string())
    );
    assert_eq!(extract_token(Some("Basic abc123")), None);
    assert_eq!(extract_token(None), None);
}

#[test]
fn check_auth_open_until_first_device() {
    let mut devices: Table<PairedDevice> = Table::new();
    // Fresh install: everything authorizes.
    assert!(check_auth(&devices, None));
    devices.upsert(
        "tok".to_string(),
        PairedDevice {
            id: "d1".to_string(),
            name: "laptop".to_string(),
            paired_at: "t".to_string(),
            last_seen: "t".to_string(),
        },
    );
    assert!(!check_auth(&devices, None));
    assert!(!check_auth(&devices, Some("wrong")));
    assert!(check_auth(&devices, Some("tok")));
    assert!(is_valid_token(&devices, "tok"));
}

#[test]
fn pair_and_list_flow() {
    // Request a pairing, complete it with the shown code, then use the
    // minted token on an authenticated call.
    let mut pairing: Table<PairingRequest> = Table::new();
    let mut devices: Table<PairedDevice> = Table::new();
    let (pairing_id, code) = request_pairing(&mut pairing, 1_000, Some("laptop".to_string()));

    let ok = complete_pairing(
        &mut pairing,
        &mut devices,
        Some(pairing_id.as_str()),
        Some(code.as_str()),
        "laptop".to_string(),
        200_000,
        "t".to_string(),
    );
    let (token, device_id) = ok.unwrap();
    assert!(!token.is_empty() && !device_id.is_empty());
    assert!(check_auth(&devices, Some(token.as_str())));
    // The pairing request was consumed.
    assert!(pairing.get(pairing_id.as_str()).is_none());
    // A fresh-install session list would be empty.
    let store = agent_hub::store::Store::new();
    assert!(store.load_sessions().is_empty());
}

#[test]
fn stale_pairing_code_never_succeeds() {
    let mut pairing: Table<PairingRequest> = Table::new();
    let mut devices: Table<PairedDevice> = Table::new();
    let (pairing_id, code) = request_pairing(&mut pairing, 0, None);
    // Exactly at the 300 s boundary the code is dead.
    let r = complete_pairing(
        &mut pairing,
        &mut devices,
        Some(pairing_id.as_str()),
        Some(code.as_str()),
        "phone".to_string(),
        300_000,
        "t".to_string(),
    );
    assert_eq!(r.unwrap_err(), PairError::InvalidCode);
    assert!(devices.entries.is_empty());
}

#[test]
fn pairing_needs_both_fields() {
    let mut pairing: Table<PairingRequest> = Table::new();
    let mut devices: Table<PairedDevice> = Table::new();
    let r = complete_pairing(
        &mut pairing,
        &mut devices,
        None,
        Some("123456"),
        "x".to_string(),
        0,
        "t".to_string(),
    );
    assert_eq!(r.unwrap_err(), PairError::MissingFields);
}

#[test]
fn wrong_pairing_code_fails() {
    let mut pairing: Table<PairingRequest> = Table::new();
    let mut devices: Table<PairedDevice> = Table::new();
    let (pairing_id, code) = request_pairing(&mut pairing, 0, None);
    let wrong = if code == "000000" { "000001" } else { "000000" };
    let r = complete_pairing(
        &mut pairing,
        &mut devices,
        Some(pairing_id.as_str()),
        Some(wrong),
        "x".to_string(),
        1_000,
        "t".to_string(),
    );
    assert_eq!(r.unwrap_err(), PairError::InvalidCode);
}

#[test]
fn rate_limit_five_failures_then_429_then_expiry() {
    let mut rate: Table<RateEntry> = Table::new();
    let mut devices: Table<PairedDevice> = Table::new();

    // Five wrong PINs from one address: five refusals.
    for i in 0..5u64 {
        let out = pin_login(
            &mut rate,
            &mut devices,
            Some("4321"),
            Some("0000"),
            "10.0.0.9",
            "phone".to_string(),
            i * 1_000,
            "t".to_string(),
        );
        assert!(matches!(out, PinOutcome::InvalidPin));
    }

    // Each failure recorded exactly one more attempt.
    assert_eq!(rate.get("10.0.0.9").unwrap().attempts, 5);

    // The sixth attempt inside the window is cut off even with the
    // correct PIN.
    let out = pin_login(
        &mut rate,
        &mut devices,
        Some("4321"),
        Some("4321"),
        "10.0.0.9",
        "phone".to_string(),
        10_000,
        "t".to_string(),
    );
    match out {
        PinOutcome::RateLimited { retry_after_s } => {
            assert_eq!(retry_after_s, (900_000 - (10_000 - 4_000)) / 1000);
        }
        _ => panic!("expected a rate-limited outcome"),
    }
    assert!(devices.entries.is_empty());

    // Another address is unaffected.
    let out = pin_login(
        &mut rate,
        &mut devices,
        Some("4321"),
        Some("4321"),
        "10.0.0.8",
        "tablet".to_string(),
        10_000,
        "t".to_string(),
    );
    assert!(matches!(out, PinOutcome::Success { .. }));

    // After the window has elapsed, the first address may log in, and
    // success clears its counter.
    let out = pin_login(
        &mut rate,
        &mut devices,
        Some("4321"),
        Some("4321"),
        "10.0.0.9",
        "phone".to_string(),
        4_000 + 901_000,
        "t".to_string(),
    );
    assert!(matches!(out, PinOutcome::Success { .. }));
    assert!(rate.get("10.0.0.9").is_none());
}

#[test]
fn pin_login_without_configuration() {
    let mut rate: Table<RateEntry> = Table::new();
    let mut devices: Table<PairedDevice> = Table::new();
    let out = pin_login(
        &mut rate,
        &mut devices,
        None,
        Some("1234"),
        "10.0.0.1",
        "phone".to_string(),
        0,
        "t".to_string(),
    );
    assert!(matches!(out, PinOutcome::PinNotConfigured));
    let out = pin_login(
        &mut rate,
        &mut devices,
        Some("1234"),
        None,
        "10.0.0.1",
        "phone".to_string(),
        0,
        "t".to_string(),
    );
    assert!(matches!(out, PinOutcome::MissingPin));
}
