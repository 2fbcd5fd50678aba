//! The authentication state machine: pairing-code issuance and
//! completion, PIN login with per-address rate limiting, and bearer-token
//! validation. Time enters as an argument, so every rule about ages and
//! windows is stated and proved exactly.

use vstd::prelude::*;
use crate::table::Table;
use crate::strutil::{
    starts_with_seq, strip_prefix, u64_to_dec, lemma_dec_chars_digits, lemma_dec_chars_len,
    pow10,
};

verus! {

/// How long a pairing code stays valid, in milliseconds.
pub const PAIRING_EXPIRY_MS: u64 = 300_000;

/// The PIN rate-limit window, in milliseconds.
pub const RATE_WINDOW_MS: u64 = 900_000;

/// Failed attempts from one address within the window before it is cut
/// off.
pub const RATE_MAX_ATTEMPTS: u32 = 5;

/// A pending pairing request, keyed by its pairing identifier.
pub struct PairingRequest {
    /// The six-digit code the operator reads to the remote device.
    pub code: String,
    /// When the request was created, in milliseconds.
    pub created_at_ms: u64,
    /// The requesting device's self-reported name.
    pub device_name: Option<String>,
}

/// A paired device, keyed by its bearer token.
pub struct PairedDevice {
    /// Opaque device identifier.
    pub id: String,
    /// Friendly name.
    pub name: String,
    /// When the device paired, RFC 3339 text.
    pub paired_at: String,
    /// When the device was last seen, RFC 3339 text.
    pub last_seen: String,
}

/// The rate-limit record for one client address.
pub struct RateEntry {
    /// Failed attempts in the current window.
    pub attempts: u32,
    /// When the last failed attempt happened, in milliseconds.
    pub last_ms: u64,
}

/// Why pairing completion was refused.
#[derive(Debug, PartialEq, Eq, Clone, Copy)]
pub enum PairError {
    /// The request named no pairing identifier or no code.
    MissingFields,
    /// The pairing identifier is unknown, the code is wrong, or the code
    /// has expired.
    InvalidCode,
}

/// The outcome of a PIN login attempt.
pub enum PinOutcome {
    /// The address has exhausted its attempts; seconds until the window
    /// ends.
    RateLimited {
        /// Seconds remaining in the rate-limit window.
        retry_after_s: u64,
    },
    /// The request carried no PIN.
    MissingPin,
    /// No PIN is configured.
    PinNotConfigured,
    /// The PIN did not match.
    InvalidPin,
    /// The PIN matched: a bearer token and device identifier were minted.
    Success {
        /// The minted bearer token.
        token: String,
        /// The minted device identifier.
        device_id: String,
    },
}

/// Relies on `SystemTime::now`: nanoseconds since the epoch. Nothing is
/// assumed about the value.
#[verifier::external_body]
fn now_nanos() -> (r: u128)
{
    std::time::SystemTime::now()
        .duration_since(std::time::UNIX_EPOCH)
        .map(|d| d.as_nanos())
        .unwrap_or(0)
}

/// Mints a six-digit pairing code from the clock: the wall-clock
/// nanoseconds reduced to six decimal digits, zero-padded.
pub fn generate_pairing_code() -> (r: String)
    ensures
        r@.len() == 6,
        forall|i: int| 0 <= i < 6 ==> '0' <= #[trigger] r@[i] <= '9',
{
    let seed = now_nanos();
    let n = (seed % 1_000_000) as u64;
    let digits = u64_to_dec(n);
    proof {
        lemma_dec_chars_digits(n as nat);
        reveal_with_fuel(pow10, 8);
        assert(pow10(6) == 1_000_000);
        lemma_dec_chars_len(n as nat, 6);
        reveal_strlit("0");
        assert("0"@ =~= seq!['0']);
    }
    let len = digits.as_str().unicode_len();
    let mut out = String::new();
    let mut k: usize = len;
    while k < 6
        invariant
            1 <= len <= 6,
            len == digits@.len(),
            len <= k <= 6,
            out@.len() == k - len,
            forall|i: int| 0 <= i < out@.len() ==> #[trigger] out@[i] == '0',
            digits@ == crate::strutil::dec_chars(n as nat),
        decreases 6 - k,
    {
        proof {
            reveal_strlit("0");
            assert("0"@ =~= seq!['0']);
        }
        out.append("0");
        k = k + 1;
    }
    let ghost pads = out@;
    out.append(digits.as_str());
    proof {
        assert(out@ =~= pads + digits@);
        assert forall|i: int| 0 <= i < 6 implies '0' <= #[trigger] out@[i] <= '9' by {
            if i < pads.len() {
                assert(out@[i] == pads[i]);
            } else {
                assert(out@[i] == digits@[i - pads.len()]);
            }
        }
    }
    out
}

/// A lowercase hexadecimal digit.
pub open spec fn is_lower_hex(c: char) -> bool {
    ('0' <= c && c <= '9') || ('a' <= c && c <= 'f')
}

/// Relies on `SystemTime::now` and `format!("{:x}{:x}", ..)`: two
/// lower-hex renderings of integers give a nonempty string of lowercase
/// hexadecimal digits. Nothing is assumed about its value; the token is
/// an opaque identifier, not a cryptographic secret.
#[verifier::external_body]
pub fn generate_token() -> (r: String)
    ensures
        r@.len() >= 2,
        forall|i: int| 0 <= i < r@.len() ==> is_lower_hex(#[trigger] r@[i]),
{
    let seed = std::time::SystemTime::now()
        .duration_since(std::time::UNIX_EPOCH)
        .map(|d| d.as_nanos())
        .unwrap_or(1);
    format!("{:x}{:x}", seed, seed.wrapping_mul(0x5DEECE66D))
}

/// Whether `token` belongs to a paired device.
pub fn is_valid_token(devices: &Table<PairedDevice>, token: &str) -> (r: bool)
    ensures
        r == devices.has(token@),
{
    devices.contains(token)
}

/// Extracts the bearer token from an `Authorization` header value.
pub fn extract_token(header: Option<&str>) -> (r: Option<String>)
    ensures
        match r {
            Some(t) => header matches Some(h) && starts_with_seq(h@, "Bearer "@) && t@
                == header->Some_0@.skip("Bearer "@.len() as int),
            None => header matches Some(h) ==> !starts_with_seq(h@, "Bearer "@),
        },
{
    match header {
        Some(h) => strip_prefix(h, "Bearer "),
        None => None,
    }
}

/// Whether a request is authorized: with no devices paired every request
/// is (first-time setup); otherwise the bearer token must belong to a
/// paired device.
pub fn check_auth(devices: &Table<PairedDevice>, token: Option<&str>) -> (r: bool)
    ensures
        r == (devices.len() == 0 || (token matches Some(t) && devices.has(t@))),
{
    if devices.entries.len() == 0 {
        return true;
    }
    match token {
        Some(t) => is_valid_token(devices, t),
        None => false,
    }
}

/// Creates a pairing request: mints a pairing identifier and a six-digit
/// code, and records them with the creation time. Returns the pair.
pub fn request_pairing(
    pairing: &mut Table<PairingRequest>,
    now_ms: u64,
    device_name: Option<String>,
) -> (r: (String, String))
    requires
        old(pairing).wf(),
    ensures
        final(pairing).wf(),
        r.1@.len() == 6,
        final(pairing).spec_get(r.0@) matches Some(req) && req.code == r.1
            && req.created_at_ms == now_ms && req.device_name == device_name,
        forall|k: Seq<char>|
            k != r.0@ ==> final(pairing).spec_get(k) == old(pairing).spec_get(k),
{
    let pairing_id = generate_token();
    let code = generate_pairing_code();
    let req = PairingRequest {
        code: code.clone(),
        created_at_ms: now_ms,
        device_name,
    };
    pairing.upsert(pairing_id.clone(), req);
    (pairing_id, code)
}

/// Whether a stored pairing request accepts `code` at time `now_ms`:
/// the code matches and the request is younger than the expiry window.
pub open spec fn pairing_valid(req: PairingRequest, code: Seq<char>, now_ms: u64) -> bool {
    req.code@ == code && now_ms - req.created_at_ms < PAIRING_EXPIRY_MS
}

/// A pairing code older than the expiry window never succeeds, whatever
/// code the caller presents.
pub proof fn lemma_stale_code_never_succeeds(req: PairingRequest, code: Seq<char>, now_ms: u64)
    requires
        now_ms >= req.created_at_ms + PAIRING_EXPIRY_MS,
    ensures
        !pairing_valid(req, code, now_ms),
{
}

/// Completes a pairing: succeeds exactly when both fields are present,
/// the pairing identifier is known, the code matches and has not
/// expired. On success the request is consumed and a new device is
/// recorded under a freshly minted token.
pub fn complete_pairing(
    pairing: &mut Table<PairingRequest>,
    devices: &mut Table<PairedDevice>,
    pairing_id: Option<&str>,
    code: Option<&str>,
    device_name: String,
    now_ms: u64,
    now_rfc: String,
) -> (r: Result<(String, String), PairError>)
    requires
        old(pairing).wf(),
        old(devices).wf(),
    ensures
        final(pairing).wf(),
        final(devices).wf(),
        (pairing_id is None || code is None) <==> r == Err::<(String, String), PairError>(
            PairError::MissingFields,
        ),
        r == Err::<(String, String), PairError>(PairError::InvalidCode) <==> (
        pairing_id is Some && code is Some && !(old(pairing).spec_get(pairing_id->Some_0@)
            matches Some(req) && pairing_valid(req, code->Some_0@, now_ms))),
        r is Err ==> final(pairing).entries@ == old(pairing).entries@ && final(devices).entries@ == old(devices).entries@,
        r matches Ok(td) ==> ({
            &&& old(pairing).spec_get(pairing_id->Some_0@) matches Some(req)
            &&& pairing_valid(
                old(pairing).spec_get(pairing_id->Some_0@)->Some_0,
                code->Some_0@,
                now_ms,
            )
            &&& !final(pairing).has(pairing_id->Some_0@)
            &&& forall|k: Seq<char>|
                k != pairing_id->Some_0@ ==> final(pairing).spec_get(k) == old(
                    pairing,
                ).spec_get(k)
            &&& final(devices).spec_get(td.0@) matches Some(d)
            &&& final(devices).spec_get(td.0@)->Some_0.id == td.1
            &&& final(devices).spec_get(td.0@)->Some_0.name == device_name
            &&& final(devices).spec_get(td.0@)->Some_0.paired_at == now_rfc
            &&& final(devices).spec_get(td.0@)->Some_0.last_seen == now_rfc
            &&& forall|k: Seq<char>|
                k != td.0@ ==> final(devices).spec_get(k) == old(devices).spec_get(k)
        }),
{
    let (pid, c) = match (pairing_id, code) {
        (Some(p), Some(c)) => (p, c),
        _ => {
            return Err(PairError::MissingFields);
        },
    };
    let valid = match pairing.get(pid) {
        Some(req) => {
            let fresh = if now_ms >= req.created_at_ms {
                now_ms - req.created_at_ms < PAIRING_EXPIRY_MS
            } else {
                true
            };
            crate::strutil::str_eq(req.code.as_str(), c) && fresh
        },
        None => false,
    };
    if !valid {
        return Err(PairError::InvalidCode);
    }
    pairing.remove(pid);
    let token = generate_token();
    let device_id = generate_token();
    let device = PairedDevice {
        id: device_id.clone(),
        name: device_name,
        paired_at: now_rfc.clone(),
        last_seen: now_rfc,
    };
    devices.upsert(token.clone(), device);
    Ok((token, device_id))
}

/// The elapsed time since a rate entry's last attempt; a clock that
/// reads earlier than the record counts as no time passed.
pub open spec fn elapsed_ms(e: RateEntry, now_ms: u64) -> u64 {
    if now_ms >= e.last_ms {
        (now_ms - e.last_ms) as u64
    } else {
        0
    }
}

/// Whether an address is currently cut off: it has a record with the
/// maximum number of attempts whose window has not yet elapsed.
pub open spec fn rate_limited(e: Option<RateEntry>, now_ms: u64) -> bool {
    e matches Some(en) && elapsed_ms(en, now_ms) < RATE_WINDOW_MS && en.attempts
        >= RATE_MAX_ATTEMPTS
}

/// The rate record after one more failed attempt at `now_ms`: one more
/// attempt than the current record, or a fresh record of one attempt if
/// none exists or the window had elapsed.
pub open spec fn after_failure(e: Option<RateEntry>, now_ms: u64) -> RateEntry {
    match e {
        Some(en) => if elapsed_ms(en, now_ms) >= RATE_WINDOW_MS {
            RateEntry { attempts: 1, last_ms: now_ms }
        } else {
            RateEntry {
                attempts: if en.attempts < u32::MAX {
                    (en.attempts + 1) as u32
                } else {
                    u32::MAX
                },
                last_ms: now_ms,
            }
        },
        None => RateEntry { attempts: 1, last_ms: now_ms },
    }
}

/// Authenticates with a PIN, rate limited per client address.
///
/// An address with `RATE_MAX_ATTEMPTS` failures inside the window is
/// refused outright — whatever PIN it presents — until the window
/// elapses. A failure records one more attempt; a success clears the
/// address's record and mints a device token.
pub fn pin_login(
    rate: &mut Table<RateEntry>,
    devices: &mut Table<PairedDevice>,
    configured_pin: Option<&str>,
    pin: Option<&str>,
    client_ip: &str,
    device_name: String,
    now_ms: u64,
    now_rfc: String,
) -> (r: PinOutcome)
    requires
        old(rate).wf(),
        old(devices).wf(),
    ensures
        final(rate).wf(),
        final(devices).wf(),
        (r matches PinOutcome::RateLimited { retry_after_s }) <==> rate_limited(
            old(rate).spec_get(client_ip@),
            now_ms,
        ),
        r matches PinOutcome::RateLimited { retry_after_s } ==> final(rate).entries@ == old(
            rate,
        ).entries@ && final(devices).entries@ == old(devices).entries@ && retry_after_s == (
        RATE_WINDOW_MS - elapsed_ms(old(rate).spec_get(client_ip@)->Some_0, now_ms)) / 1000,
        !rate_limited(old(rate).spec_get(client_ip@), now_ms) ==> {
            &&& (r is MissingPin <==> pin is None)
            &&& (r is PinNotConfigured <==> pin is Some && configured_pin is None)
            &&& (r is InvalidPin <==> (pin matches Some(p) && configured_pin matches Some(cp)
                && p@ != cp@))
            &&& (r is Success <==> (pin matches Some(p) && configured_pin matches Some(cp)
                && p@ == cp@))
            &&& (r is MissingPin || r is PinNotConfigured) ==> ({
                &&& (old(rate).spec_get(client_ip@) matches Some(en) && elapsed_ms(en, now_ms)
                    >= RATE_WINDOW_MS) ==> !final(rate).has(client_ip@)
                &&& !(old(rate).spec_get(client_ip@) matches Some(en) && elapsed_ms(en, now_ms)
                    >= RATE_WINDOW_MS) ==> final(rate).entries@ == old(rate).entries@
                &&& final(devices).entries@ == old(devices).entries@
            })
            &&& r is InvalidPin ==> ({
                &&& final(rate).spec_get(client_ip@) matches Some(en2)
                &&& final(rate).spec_get(client_ip@)->Some_0 == after_failure(
                    old(rate).spec_get(client_ip@),
                    now_ms,
                )
                &&& forall|k: Seq<char>|
                    k != client_ip@ ==> final(rate).spec_get(k) == old(rate).spec_get(k)
                &&& final(devices).entries@ == old(devices).entries@
            })
            &&& match r {
                PinOutcome::Success { token, device_id } => ({
                    &&& !final(rate).has(client_ip@)
                    &&& forall|k: Seq<char>|
                        k != client_ip@ ==> final(rate).spec_get(k) == old(rate).spec_get(k)
                    &&& final(devices).spec_get(token@) matches Some(d)
                    &&& final(devices).spec_get(token@)->Some_0.name == device_name
                    &&& final(devices).spec_get(token@)->Some_0.id == device_id
                    &&& forall|k: Seq<char>|
                        k != token@ ==> final(devices).spec_get(k) == old(devices).spec_get(k)
                }),
                _ => true,
            }
        },
{
    // Rate limiting: refuse outright inside an exhausted window.
    let mut expired = false;
    match rate.get(client_ip) {
        Some(entry) => {
            let elapsed = if now_ms >= entry.last_ms {
                now_ms - entry.last_ms
            } else {
                0
            };
            if elapsed < RATE_WINDOW_MS && entry.attempts >= RATE_MAX_ATTEMPTS {
                let retry_after_s = (RATE_WINDOW_MS - elapsed) / 1000;
                return PinOutcome::RateLimited { retry_after_s };
            }
            if elapsed >= RATE_WINDOW_MS {
                expired = true;
            }
        },
        None => {},
    }
    if expired {
        rate.remove(client_ip);
    }
    let p = match pin {
        Some(p) => p,
        None => {
            return PinOutcome::MissingPin;
        },
    };
    let cp = match configured_pin {
        Some(cp) => cp,
        None => {
            return PinOutcome::PinNotConfigured;
        },
    };
    if !crate::strutil::str_eq(p, cp) {
        // Record the failed attempt.
        let updated = match rate.get(client_ip) {
            Some(entry) => {
                let attempts = if entry.attempts < u32::MAX {
                    entry.attempts + 1
                } else {
                    u32::MAX
                };
                RateEntry { attempts, last_ms: now_ms }
            },
            None => RateEntry { attempts: 1, last_ms: now_ms },
        };
        rate.upsert(client_ip.to_owned(), updated);
        return PinOutcome::InvalidPin;
    }
    // Success: clear the counter and mint a device.
    rate.remove(client_ip);
    let token = generate_token();
    let device_id = generate_token();
    let device = PairedDevice {
        id: device_id.clone(),
        name: device_name,
        paired_at: now_rfc.clone(),
        last_seen: now_rfc,
    };
    devices.upsert(token.clone(), device);
    PinOutcome::Success { token, device_id }
}

/// Folding one failed attempt on top of `n` failures within one window
/// yields `n + 1` failures: five failures in a row from one address,
/// each within the window of the last, leave a record of five attempts,
/// and the next attempt inside the window — with any PIN — is rate
/// limited.
pub proof fn lemma_failures_accumulate(e: Option<RateEntry>, now_ms: u64)
    requires
        e matches Some(en) ==> elapsed_ms(e->Some_0, now_ms) < RATE_WINDOW_MS
            && e->Some_0.attempts < u32::MAX,
    ensures
        after_failure(e, now_ms).attempts == (match e {
            Some(en) => en.attempts + 1,
            None => 1,
        }),
        after_failure(e, now_ms).last_ms == now_ms,
{
}

/// Five failed attempts, each within the window of the one before,
/// leave an exhausted record: the next attempt within the window of the
/// fifth is rate limited, whatever PIN it carries.
pub proof fn lemma_five_failures_then_limited(
    t1: u64,
    t2: u64,
    t3: u64,
    t4: u64,
    t5: u64,
    t6: u64,
)
    requires
        t1 <= t2 <= t3 <= t4 <= t5 <= t6,
        t2 - t1 < RATE_WINDOW_MS,
        t3 - t2 < RATE_WINDOW_MS,
        t4 - t3 < RATE_WINDOW_MS,
        t5 - t4 < RATE_WINDOW_MS,
        t6 - t5 < RATE_WINDOW_MS,
    ensures
        ({
            let e1 = after_failure(None, t1);
            let e2 = after_failure(Some(e1), t2);
            let e3 = after_failure(Some(e2), t3);
            let e4 = after_failure(Some(e3), t4);
            let e5 = after_failure(Some(e4), t5);
            e5.attempts == RATE_MAX_ATTEMPTS && rate_limited(Some(e5), t6)
        }),
{
}

} // verus!
