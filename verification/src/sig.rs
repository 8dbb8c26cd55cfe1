//! Request signing: the authentication command carries an HMAC-SHA256 code
//! over the timestamp, method and path, rendered in lowercase hex.

use crate::json::json_escape;
use hmac::Mac;
use vstd::prelude::*;

verus! {

/// What HMAC-SHA256 returns for a key and a message: a function of the two
/// alone, the same in every process and on every machine.
pub uninterp spec fn hmac_sha256_of(key: Seq<u8>, msg: Seq<u8>) -> Seq<u8>;

/// Relies on `Hmac<Sha256>` of the hmac crate, through the Mac interface:
/// the authentication code depends on key and message alone and is 32 bytes
/// long (the SHA-256 output size); HMAC accepts keys of any length, so
/// construction cannot fail.
#[verifier::external_body]
fn hmac_sha256(key: &[u8], msg: &[u8]) -> (r: Vec<u8>)
    ensures
        r@ == hmac_sha256_of(key@, msg@),
        r@.len() == 32,
{
    let mut mac = <hmac::Hmac<sha2::Sha256> as hmac::KeyInit>::new_from_slice(key)
        .expect("HMAC accepts keys of any length");
    mac.update(msg);
    mac.finalize().into_bytes().to_vec()
}

/// Relies on `std::time::SystemTime::now`: the milliseconds since the Unix
/// epoch; nothing is promised of the clock's value.
#[verifier::external_body]
fn unix_millis() -> u64 {
    match std::time::SystemTime::now().duration_since(std::time::UNIX_EPOCH) {
        Ok(d) => d.as_millis() as u64,
        Err(_) => 0,
    }
}

// ---------------------------------------------------------------------------
// Hex rendering
// ---------------------------------------------------------------------------

/// Bytes in lowercase hex, two digits each.
pub open spec fn hex_of(bytes: Seq<u8>) -> Seq<char>
    decreases bytes.len(),
{
    if bytes.len() == 0 {
        Seq::empty()
    } else {
        seq![
            crate::json::hex_char_of((bytes[0] >> 4) as nat),
            crate::json::hex_char_of((bytes[0] & 0xf) as nat),
        ] + hex_of(bytes.subrange(1, bytes.len() as int))
    }
}

/// Hex rendering writes two characters per byte.
pub proof fn lemma_hex_of_len(bytes: Seq<u8>)
    ensures
        hex_of(bytes).len() == 2 * bytes.len(),
    decreases bytes.len(),
{
    if bytes.len() > 0 {
        lemma_hex_of_len(bytes.subrange(1, bytes.len() as int));
    }
}

/// Renders bytes in lowercase hex.
fn to_hex_lower(bytes: &Vec<u8>) -> (r: String)
    ensures
        r@ == hex_of(bytes@),
{
    let mut out: Vec<char> = Vec::new();
    let mut k: usize = 0;
    proof {
        assert(bytes@.skip(0) =~= bytes@);
    }
    while k < bytes.len()
        invariant
            k <= bytes@.len(),
            hex_of(bytes@) == out@ + hex_of(bytes@.skip(k as int)),
        decreases bytes@.len() - k,
    {
        let ghost pre = out@;
        let b = bytes[k];
        proof {
            assert((b >> 4) < 16 && (b & 0xf) < 16) by (bit_vector);
            assert(bytes@.skip(k as int)[0] == b);
            assert(bytes@.skip(k as int).subrange(1, bytes@.skip(k as int).len() as int)
                =~= bytes@.skip(k as int + 1));
        }
        out.push(crate::json::hex_char((b >> 4) as u32));
        out.push(crate::json::hex_char((b & 0xf) as u32));
        proof {
            let two = seq![
                crate::json::hex_char_of((b >> 4) as nat),
                crate::json::hex_char_of((b & 0xf) as nat),
            ];
            assert(out@ =~= pre + two);
            assert(pre + (two + hex_of(bytes@.skip(k as int + 1))) =~= (pre + two) + hex_of(
                bytes@.skip(k as int + 1),
            ));
        }
        k = k + 1;
    }
    proof {
        assert(bytes@.skip(k as int) =~= Seq::<u8>::empty());
        assert(out@ + Seq::<char>::empty() =~= out@);
    }
    crate::chars::chars_to_string(&out)
}

// ---------------------------------------------------------------------------
// The signed payload
// ---------------------------------------------------------------------------

pub open spec fn pairs_model(v: Seq<(String, String)>) -> Seq<(Seq<char>, Seq<char>)> {
    Seq::new(v.len(), |i: int| (v[i].0@, v[i].1@))
}

/// One body pair as a JSON member.
pub open spec fn pair_text(k: Seq<char>, v: Seq<char>) -> Seq<char> {
    "\""@ + json_escape(k) + "\":\""@ + json_escape(v) + "\""@
}

/// Body pairs as JSON members joined with commas.
pub open spec fn pairs_text(ps: Seq<(Seq<char>, Seq<char>)>) -> Seq<char>
    decreases ps.len(),
{
    if ps.len() == 0 {
        Seq::empty()
    } else if ps.len() == 1 {
        pair_text(ps[0].0, ps[0].1)
    } else {
        pairs_text(ps.drop_last()) + ","@ + pair_text(ps.last().0, ps.last().1)
    }
}

/// The text that gets signed: timestamp, method, the versioned path, and
/// the body as a JSON object when there is one.
pub open spec fn spec_signing_payload(
    ts: Seq<char>,
    method: Seq<char>,
    url: Seq<char>,
    body: Seq<(Seq<char>, Seq<char>)>,
) -> Seq<char> {
    let head = ts + method + "/v2"@ + url;
    if body.len() == 0 {
        head
    } else {
        head + "{"@ + pairs_text(body) + "}"@
    }
}

/// Signs one request: HMAC-SHA256 over the payload with the API secret,
/// rendered in lowercase hex.
pub fn create_signature(
    timestamp: &str,
    method: &str,
    url: &str,
    body: &Vec<(String, String)>,
    api_secret: &str,
) -> (r: String)
    ensures
        r@ == hex_of(
            hmac_sha256_of(
                vstd::utf8::encode_utf8(api_secret@),
                vstd::utf8::encode_utf8(
                    spec_signing_payload(timestamp@, method@, url@, pairs_model(body@)),
                ),
            ),
        ),
        r@.len() == 64,
{
    let mut payload = String::new();
    payload.append(timestamp);
    payload.append(method);
    payload.append("/v2");
    payload.append(url);
    if body.len() > 0 {
        payload.append("{");
        let ghost ps = pairs_model(body@);
        let mut idx: usize = 0;
        let ghost head = payload@;
        proof {
            assert(ps.take(0) =~= Seq::<(Seq<char>, Seq<char>)>::empty());
        }
        while idx < body.len()
            invariant
                idx <= body@.len(),
                ps == pairs_model(body@),
                ps.len() == body@.len(),
                forall|i: int| 0 <= i < ps.len() ==> ps[i] == (body@[i].0@, body@[i].1@),
                payload@ == head + pairs_text(ps.take(idx as int)),
            decreases body@.len() - idx,
        {
            if idx > 0 {
                payload.append(",");
            }
            let pair = &body[idx];
            payload.append("\"");
            let esc_k = crate::json::escape_json_string(pair.0.as_str());
            payload.append(esc_k.as_str());
            payload.append("\":\"");
            let esc_v = crate::json::escape_json_string(pair.1.as_str());
            payload.append(esc_v.as_str());
            payload.append("\"");
            idx = idx + 1;
            proof {
                assert(ps.take(idx as int).drop_last() =~= ps.take(idx as int - 1));
                assert(ps.take(idx as int).last() == ps[idx as int - 1]);
                if idx == 1 {
                    assert(pairs_text(ps.take(1)) == pair_text(ps[0].0, ps[0].1));
                }
            }
        }
        payload.append("}");
        proof {
            assert(ps.take(body@.len() as int) =~= ps);
        }
    }
    let digest = hmac_sha256(api_secret.as_bytes(), payload.as_str().as_bytes());
    proof {
        lemma_hex_of_len(digest@);
    }
    to_hex_lower(&digest)
}

// ---------------------------------------------------------------------------
// Authentication
// ---------------------------------------------------------------------------

/// The authenticate command's fields: the key, the signature over the
/// timestamp, and the validity window.
pub struct AuthRequest {
    pub action: String,
    pub key: String,
    pub signature: String,
    pub timestamp: u64,
    pub window: String,
}

pub open spec fn spec_auth_message(
    action: Seq<char>,
    key: Seq<char>,
    signature: Seq<char>,
    timestamp: nat,
    window: Seq<char>,
) -> Seq<char> {
    "{\"action\":\""@ + json_escape(action) + "\",\"key\":\""@ + json_escape(key)
        + "\",\"signature\":\""@ + json_escape(signature) + "\",\"timestamp\":"@
        + crate::decimal::dec_digits(timestamp) + ",\"window\":\""@ + json_escape(window) + "\"}"@
}

impl AuthRequest {
    /// Builds the authenticate command for a key pair, signing the current
    /// time over the websocket path.
    pub fn make(api_key: &str, api_secret: &str) -> (r: AuthRequest)
        ensures
            r.action@ == "authenticate"@,
            r.key@ == api_key@,
            r.window@ == "1500"@,
            r.signature@ == hex_of(
                hmac_sha256_of(
                    vstd::utf8::encode_utf8(api_secret@),
                    vstd::utf8::encode_utf8(
                        spec_signing_payload(
                            crate::decimal::dec_digits(r.timestamp as nat),
                            "GET"@,
                            "/websocket"@,
                            Seq::empty(),
                        ),
                    ),
                ),
            ),
            r.signature@.len() == 64,
    {
        let ts = unix_millis();
        let ts_str = crate::decimal::u64_to_dec_string(ts);
        let body: Vec<(String, String)> = Vec::new();
        proof {
            assert(pairs_model(body@) =~= Seq::<(Seq<char>, Seq<char>)>::empty());
        }
        let signature = create_signature(ts_str.as_str(), "GET", "/websocket", &body, api_secret);
        AuthRequest {
            action: String::from_str("authenticate"),
            key: api_key.to_owned(),
            signature,
            timestamp: ts,
            window: String::from_str("1500"),
        }
    }

    /// This command as one JSON text frame; the timestamp goes out as a
    /// number.
    pub fn to_json_message(&self) -> (r: String)
        ensures
            r@ == spec_auth_message(
                self.action@,
                self.key@,
                self.signature@,
                self.timestamp as nat,
                self.window@,
            ),
    {
        let mut s = String::from_str("{\"action\":\"");
        let esc_a = crate::json::escape_json_string(self.action.as_str());
        s.append(esc_a.as_str());
        s.append("\",\"key\":\"");
        let esc_k = crate::json::escape_json_string(self.key.as_str());
        s.append(esc_k.as_str());
        s.append("\",\"signature\":\"");
        let esc_s = crate::json::escape_json_string(self.signature.as_str());
        s.append(esc_s.as_str());
        s.append("\",\"timestamp\":");
        let ts_str = crate::decimal::u64_to_dec_string(self.timestamp);
        s.append(ts_str.as_str());
        s.append(",\"window\":\"");
        let esc_w = crate::json::escape_json_string(self.window.as_str());
        s.append(esc_w.as_str());
        s.append("\"}");
        s
    }
}

} // verus!
