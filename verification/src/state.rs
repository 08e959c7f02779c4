//! The persistent session counter. Its storage form is the canonical JSON
//! rendering followed by its SHA-256 checksum, authenticated-encrypted under
//! the machine-derived key. Decoding rejects any envelope whose checksum or
//! shape does not match, and decoding what `encode_state` produced yields the
//! counter unchanged.

use vstd::prelude::*;

use crate::crypto::{
    decrypt_state, decrypt_state_spec, encrypt_state, sha256, sha256_of, CryptoError,
};
use crate::json::{
    emit_byte, emit_key, emit_opt_u64, emit_u64, jkey, json_opt_u64, lemma_concat5_parts,
    lemma_parse_lit_exact, lemma_parse_opt_u64_exact, lemma_parse_u64_exact, parse_lit,
    parse_lit_at, parse_opt_u64, parse_opt_u64_at, parse_u64, parse_u64_at,
};
use crate::text::{bytes_eq, dec_of};

verus! {

/// The per-machine run counter, one per user and machine.
#[derive(Debug, Clone, Copy)]
pub struct State {
    /// How many times the recorder has started on this machine.
    pub run_counter: u64,
    /// Unix seconds of the most recent start, once there was one.
    pub last_run_time: Option<u64>,
}

/// Why loading or storing the counter failed.
#[derive(Debug, Clone, Copy, PartialEq, Eq, Structural)]
pub enum StateError {
    /// The envelope did not decrypt under the machine key.
    Crypto(CryptoError),
    /// The plaintext is too short to carry a checksum.
    InvalidLength,
    /// The checksum over the stored text did not match.
    ChecksumMismatch,
    /// The stored text is not a counter rendering.
    ParseFailed,
}

/// The head of the counter's JSON rendering, up to the first value.
pub open spec fn state_head() -> Seq<u8> {
    seq![123u8] + jkey("run_counter"@)
}

/// The middle of the counter's JSON rendering, between the two values.
pub open spec fn state_mid() -> Seq<u8> {
    seq![44u8] + jkey("last_run_time"@)
}

/// The canonical JSON rendering of a counter.
pub open spec fn json_state(s: State) -> Seq<u8> {
    state_head() + dec_of(s.run_counter as nat) + state_mid() + json_opt_u64(s.last_run_time)
        + seq![125u8]
}

/// Renders a counter as canonical JSON; the result is exactly `json_state`.
pub fn encode_state_json(s: &State) -> (r: Vec<u8>)
    ensures
        r@ == json_state(*s),
{
    let mut out: Vec<u8> = Vec::new();
    emit_byte(&mut out, 123);
    emit_key(&mut out, "run_counter");
    emit_u64(&mut out, s.run_counter);
    emit_byte(&mut out, 44);
    emit_key(&mut out, "last_run_time");
    emit_opt_u64(&mut out, &s.last_run_time);
    emit_byte(&mut out, 125);
    proof {
        assert(out@ =~= json_state(*s));
    }
    out
}

/// What parsing bytes as a counter rendering yields: the counter exactly when
/// the bytes are a canonical rendering.
pub open spec fn parse_state_spec(data: Seq<u8>) -> Option<State> {
    match parse_lit_at(data, 0, state_head()) {
        Option::Some(i1) => match parse_u64_at(data, i1) {
            Option::Some((rc, i2)) => match parse_lit_at(data, i2, state_mid()) {
                Option::Some(i3) => match parse_opt_u64_at(data, i3) {
                    Option::Some((lrt, i4)) => if i4 < data.len() && data[i4] == 125 && i4 + 1
                        == data.len() {
                        Option::Some(State { run_counter: rc, last_run_time: lrt })
                    } else {
                        Option::None
                    },
                    Option::None => Option::None,
                },
                Option::None => Option::None,
            },
            Option::None => Option::None,
        },
        Option::None => Option::None,
    }
}

/// Builds the literal bytes of `state_head`.
fn state_head_bytes() -> (r: Vec<u8>)
    ensures
        r@ == state_head(),
{
    let mut out: Vec<u8> = Vec::new();
    emit_byte(&mut out, 123);
    emit_key(&mut out, "run_counter");
    proof {
        assert(out@ =~= state_head());
    }
    out
}

/// Builds the literal bytes of `state_mid`.
fn state_mid_bytes() -> (r: Vec<u8>)
    ensures
        r@ == state_mid(),
{
    let mut out: Vec<u8> = Vec::new();
    emit_byte(&mut out, 44);
    emit_key(&mut out, "last_run_time");
    proof {
        assert(out@ =~= state_mid());
    }
    out
}

/// Parses bytes as a counter rendering; returns exactly `parse_state_spec`.
pub fn parse_state_json(data: &[u8]) -> (r: Option<State>)
    ensures
        r == parse_state_spec(data@),
{
    let head = state_head_bytes();
    let i1 = match parse_lit(data, 0, head.as_slice()) {
        Some(i1) => i1,
        None => {
            return None;
        },
    };
    let (rc, i2) = match parse_u64(data, i1) {
        Some(p) => p,
        None => {
            return None;
        },
    };
    let mid = state_mid_bytes();
    let i3 = match parse_lit(data, i2, mid.as_slice()) {
        Some(i3) => i3,
        None => {
            return None;
        },
    };
    let (lrt, i4) = match parse_opt_u64(data, i3) {
        Some(p) => p,
        None => {
            return None;
        },
    };
    if i4 < data.len() && data[i4] == 125 && i4 + 1 == data.len() {
        Some(State { run_counter: rc, last_run_time: lrt })
    } else {
        None
    }
}

/// Parsing a canonical counter rendering yields the counter back.
pub proof fn lemma_state_json_round_trip(s: State)
    ensures
        parse_state_spec(json_state(s)) == Some(s),
{
    let w = json_state(s);
    let a = state_head();
    let b = dec_of(s.run_counter as nat);
    let c = state_mid();
    let d = json_opt_u64(s.last_run_time);
    let e = seq![125u8];
    lemma_concat5_parts(w, a, b, c, d, e);
    crate::json::lemma_dec_of_props(s.run_counter as nat);
    lemma_parse_lit_exact(w, 0, a);
    let i1 = a.len() as int;
    let i2 = i1 + b.len() as int;
    assert(!is_digit_at(w, i2)) by {
        assert(w.subrange(i2, i2 + c.len() as int)[0] == c[0]);
        assert(c[0] == 44);
    }
    lemma_parse_u64_exact(w, i1, s.run_counter);
    lemma_parse_lit_exact(w, i2, c);
    let i3 = i2 + c.len() as int;
    let i4 = i3 + d.len() as int;
    assert(!is_digit_at(w, i4)) by {
        assert(w.subrange(i4, w.len() as int)[0] == e[0]);
    }
    lemma_parse_opt_u64_exact(w, i3, s.last_run_time);
    assert(w[i4] == 125) by {
        assert(w.subrange(i4, w.len() as int)[0] == e[0]);
    }
}

/// Whether the byte at `i`, if any, is a decimal digit.
pub open spec fn is_digit_at(s: Seq<u8>, i: int) -> bool {
    i < s.len() && crate::json::is_digit(s[i])
}

/// The stored plaintext for a counter: its JSON rendering followed by the
/// SHA-256 checksum of that rendering.
pub open spec fn state_plain(s: State) -> Seq<u8> {
    json_state(s) + sha256_of(json_state(s))
}

/// What decoding a counter envelope yields: the counter exactly when the
/// envelope decrypts under the machine key, the checksum matches, and the
/// text is a canonical rendering.
pub open spec fn decode_state_spec(enc: Seq<u8>, hostname: Seq<char>, username: Seq<char>) -> Option<
    State,
> {
    match decrypt_state_spec(enc, hostname, username) {
        Option::Some(plain) => {
            if plain.len() < 32 {
                Option::None
            } else {
                let body = plain.take(plain.len() - 32);
                let ck = plain.skip(plain.len() - 32);
                if sha256_of(body) == ck {
                    parse_state_spec(body)
                } else {
                    Option::None
                }
            }
        },
        Option::None => Option::None,
    }
}

impl State {
    /// A fresh counter, as it exists before the first run.
    pub fn new() -> (r: State)
        ensures
            r.run_counter == 0,
            r.last_run_time is None,
    {
        State { run_counter: 0, last_run_time: None }
    }

    /// Advances the counter by one run at time `now` (Unix seconds).
    pub fn increment_counter(&mut self, now: u64)
        requires
            old(self).run_counter < u64::MAX,
        ensures
            final(self).run_counter == old(self).run_counter + 1,
            final(self).last_run_time == Some(now),
    {
        self.run_counter = self.run_counter + 1;
        self.last_run_time = Some(now);
    }
}

/// Splits stored plaintext into its body and the trailing 32-byte checksum;
/// fails exactly when the input is too short to carry one.
pub fn split_checksum(data: &[u8]) -> (r: Result<(&[u8], &[u8]), StateError>)
    ensures
        r matches Ok((body, ck)) ==> data@.len() >= 32 && body@ == data@.take(data@.len() - 32)
            && ck@ == data@.skip(data@.len() - 32),
        r is Err ==> data@.len() < 32 && r == Err::<(&[u8], &[u8]), StateError>(
            StateError::InvalidLength,
        ),
{
    if data.len() < 32 {
        return Err(StateError::InvalidLength);
    }
    let body = vstd::slice::slice_subrange(data, 0, data.len() - 32);
    let ck = vstd::slice::slice_subrange(data, data.len() - 32, data.len());
    proof {
        assert(body@ =~= data@.take(data@.len() - 32));
        assert(ck@ =~= data@.skip(data@.len() - 32));
    }
    Ok((body, ck))
}

/// Recomputes the checksum of `data` and compares it with `expected`; accepts
/// exactly when they agree.
pub fn verify_checksum(data: &[u8], expected: &[u8]) -> (r: Result<(), StateError>)
    ensures
        r is Ok <==> sha256_of(data@) == expected@,
        r is Err ==> r == Err::<(), StateError>(StateError::ChecksumMismatch),
{
    let computed = sha256(data);
    if bytes_eq(computed.as_slice(), expected) {
        Ok(())
    } else {
        Err(StateError::ChecksumMismatch)
    }
}

/// Encodes a counter for storage: JSON rendering, checksum, machine-key
/// envelope. Encoding always succeeds — the rendering is a few hundred bytes,
/// far below the cipher's ceiling — and the envelope decodes, on the same
/// machine, to exactly the counter.
pub fn encode_state(s: &State, hostname: &str, username: &str) -> (r: Result<Vec<u8>, StateError>)
    ensures
        r is Ok,
        r matches Ok(env) ==> decrypt_state_spec(env@, hostname@, username@) == Some(
            state_plain(*s),
        ) && decode_state_spec(env@, hostname@, username@) == Some(*s),
{
    let json = encode_state_json(s);
    let ck = sha256(json.as_slice());
    let mut plain = json;
    plain.extend_from_slice(ck.as_slice());
    proof {
        reveal_strlit("run_counter");
        reveal_strlit("last_run_time");
        crate::text::lemma_encode_utf8_len("run_counter"@);
        crate::text::lemma_encode_utf8_len("last_run_time"@);
        crate::json::lemma_esc_bytes_len(vstd::utf8::encode_utf8("run_counter"@));
        crate::json::lemma_esc_bytes_len(vstd::utf8::encode_utf8("last_run_time"@));
        crate::text::lemma_dec_of_len(s.run_counter as nat);
        match s.last_run_time {
            Some(n) => crate::text::lemma_dec_of_len(n as nat),
            None => (),
        }
        assert(json_state(*s).len() <= 1000);
    }
    let env = match encrypt_state(plain.as_slice(), hostname, username) {
        Ok(env) => env,
        Err(e) => {
            proof {
                assert(false);
            }
            return Err(StateError::Crypto(e));
        },
    };
    proof {
        assert(plain@ =~= state_plain(*s));
        let body = plain@.take(plain@.len() - 32);
        assert(body =~= json_state(*s));
        assert(plain@.skip(plain@.len() - 32) =~= sha256_of(json_state(*s)));
        lemma_state_json_round_trip(*s);
    }
    Ok(env)
}

/// Decodes a stored counter envelope: returns the counter exactly when
/// `decode_state_spec` yields one, and names what went wrong otherwise.
pub fn decode_state(enc: &[u8], hostname: &str, username: &str) -> (r: Result<State, StateError>)
    ensures
        r matches Ok(st) ==> decode_state_spec(enc@, hostname@, username@) == Some(st),
        r is Err ==> decode_state_spec(enc@, hostname@, username@) is None,
        decrypt_state_spec(enc@, hostname@, username@) is None ==> (r matches Err(e) && e matches
            StateError::Crypto(_)),
{
    let plain = match decrypt_state(enc, hostname, username) {
        Ok(p) => p,
        Err(e) => {
            return Err(StateError::Crypto(e));
        },
    };
    let (body, ck) = match split_checksum(plain.as_slice()) {
        Ok(p) => p,
        Err(e) => {
            return Err(e);
        },
    };
    match verify_checksum(body, ck) {
        Ok(()) => {},
        Err(e) => {
            return Err(e);
        },
    }
    match parse_state_json(body) {
        Some(st) => Ok(st),
        None => Err(StateError::ParseFailed),
    }
}

} // verus!
