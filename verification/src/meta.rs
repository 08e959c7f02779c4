//! Per-session metadata: who recorded, where, which run, and when. The
//! machine id is the leading sixteen bytes of a SHA-256 over the hostname and
//! the hardware addresses the caller discovered, in lowercase hex. The JSON
//! codec renders and parses the canonical form used inside the artifact.

use vstd::prelude::*;

use crate::crypto::{sha256, sha256_of};
use crate::json::{
    emit_byte, emit_json_string, emit_key, emit_opt_u64, emit_u64, jkey, json_opt_u64, json_string,
    lemma_concat9_parts, lemma_obj_string_field, lemma_obj_value_field, lemma_parse_opt_u64_exact,
    lemma_parse_u64_exact, parse_lit, parse_lit_at, parse_opt_u64,
    parse_opt_u64_at, parse_string, parse_string_at, parse_u64, parse_u64_at,
};
use crate::text::{ascii_to_string, dec_of, hex_encode, hex_of, string_from_utf8};
use vstd::utf8::{decode_utf8, encode_utf8, valid_utf8};

verus! {

/// Per-session metadata, constructed at session start and completed at the
/// end.
#[derive(Debug, Clone)]
pub struct Metadata {
    /// The recording user's name.
    pub username: String,
    /// The recording machine's hostname.
    pub hostname: String,
    /// The machine id: 32 lowercase hex digits.
    pub machine_id: String,
    /// The session counter's value for this run.
    pub run_counter: u64,
    /// Unix seconds at session start.
    pub start_time: u64,
    /// Unix seconds at session end, once finalized.
    pub end_time: Option<u64>,
    /// Whole seconds from start to end, once finalized.
    pub duration_seconds: Option<u64>,
}

/// The mathematical view of a `Metadata` value.
pub struct MetadataV {
    /// The recording user's name.
    pub username: Seq<char>,
    /// The recording machine's hostname.
    pub hostname: Seq<char>,
    /// The machine id digits.
    pub machine_id: Seq<char>,
    /// The session counter's value for this run.
    pub run_counter: u64,
    /// Unix seconds at session start.
    pub start_time: u64,
    /// Unix seconds at session end, once finalized.
    pub end_time: Option<u64>,
    /// Whole seconds from start to end, once finalized.
    pub duration_seconds: Option<u64>,
}

impl View for Metadata {
    type V = MetadataV;

    open spec fn view(&self) -> MetadataV {
        MetadataV {
            username: self.username@,
            hostname: self.hostname@,
            machine_id: self.machine_id@,
            run_counter: self.run_counter,
            start_time: self.start_time,
            end_time: self.end_time,
            duration_seconds: self.duration_seconds,
        }
    }
}

impl Metadata {
    /// Builds session metadata from the values the environment supplied, with
    /// the end not yet known.
    pub fn new(
        username: String,
        hostname: String,
        machine_id: String,
        run_counter: u64,
        start_time: u64,
    ) -> (m: Metadata)
        ensures
            m@.username == username@,
            m@.hostname == hostname@,
            m@.machine_id == machine_id@,
            m@.run_counter == run_counter,
            m@.start_time == start_time,
            m@.end_time is None,
            m@.duration_seconds is None,
    {
        Metadata {
            username,
            hostname,
            machine_id,
            run_counter,
            start_time,
            end_time: None,
            duration_seconds: None,
        }
    }

    /// Stamps the session end: records `end_time` and the elapsed whole
    /// seconds, saturating at zero if the clock went backwards.
    pub fn finalize(&mut self, end_time: u64)
        ensures
            final(self)@.username == old(self)@.username,
            final(self)@.hostname == old(self)@.hostname,
            final(self)@.machine_id == old(self)@.machine_id,
            final(self)@.run_counter == old(self)@.run_counter,
            final(self)@.start_time == old(self)@.start_time,
            final(self)@.end_time == Some(end_time),
            end_time >= old(self).start_time ==> final(self)@.duration_seconds == Some(
                (end_time - old(self).start_time) as u64,
            ),
            end_time < old(self).start_time ==> final(self)@.duration_seconds == Some(0u64),
    {
        self.end_time = Some(end_time);
        if end_time >= self.start_time {
            self.duration_seconds = Some(end_time - self.start_time);
        } else {
            self.duration_seconds = Some(0);
        }
    }
}

/// The UTF-8 bytes of a sequence of discovered hardware-address strings, in
/// order.
pub open spec fn macs_bytes(ms: Seq<String>) -> Seq<u8>
    decreases ms.len(),
{
    if ms.len() == 0 {
        Seq::empty()
    } else {
        encode_utf8(ms[0]@) + macs_bytes(ms.drop_first())
    }
}

/// What the machine id digests: the hostname bytes followed by the discovered
/// hardware-address bytes.
pub open spec fn machine_id_input(hostname: Seq<char>, ms: Seq<String>) -> Seq<u8> {
    encode_utf8(hostname) + macs_bytes(ms)
}

/// `macs_bytes` of one more address appends that address's bytes.
proof fn lemma_macs_bytes_take_step(ms: Seq<String>, i: int)
    requires
        0 <= i < ms.len(),
    ensures
        macs_bytes(ms.take(i + 1)) == macs_bytes(ms.take(i)) + encode_utf8(ms[i]@),
    decreases i,
{
    if i == 0 {
        assert(ms.take(1).drop_first() =~= Seq::<String>::empty());
        assert(ms.take(0) =~= Seq::<String>::empty());
        assert(macs_bytes(ms.take(1)) =~= macs_bytes(ms.take(0)) + encode_utf8(ms[0]@));
    } else {
        let t = ms.drop_first();
        assert(ms.take(i + 1).drop_first() =~= t.take(i));
        assert(ms.take(i).drop_first() =~= t.take(i - 1));
        assert(ms.take(i + 1)[0] == ms[0]);
        assert(ms.take(i)[0] == ms[0]);
        lemma_macs_bytes_take_step(t, i - 1);
        assert(t.take(i - 1 + 1) =~= t.take(i));
        assert(t[i - 1] == ms[i]);
        assert(macs_bytes(ms.take(i + 1)) =~= macs_bytes(ms.take(i)) + encode_utf8(ms[i]@));
    }
}

/// Derives the machine id: the leading sixteen digest bytes of SHA-256 over
/// hostname and discovered hardware addresses, rendered as 32 lowercase hex
/// digits.
pub fn generate_machine_id(hostname: &str, macs: &Vec<String>) -> (r: String)
    ensures
        encode_utf8(r@) == hex_of(sha256_of(machine_id_input(hostname@, macs@)).take(16)),
        r@.len() == 32,
{
    let mut input: Vec<u8> = Vec::new();
    input.extend_from_slice(hostname.as_bytes());
    proof {
        assert(input@ =~= encode_utf8(hostname@) + macs_bytes(macs@.take(0)));
    }
    let mut i: usize = 0;
    while i < macs.len()
        invariant
            i <= macs@.len(),
            input@ == encode_utf8(hostname@) + macs_bytes(macs@.take(i as int)),
        decreases macs@.len() - i,
    {
        input.extend_from_slice(macs[i].as_str().as_bytes());
        proof {
            lemma_macs_bytes_take_step(macs@, i as int);
            assert(input@ =~= encode_utf8(hostname@) + macs_bytes(macs@.take(i + 1)));
        }
        i = i + 1;
    }
    proof {
        assert(macs@.take(macs@.len() as int) =~= macs@);
    }
    let digest = sha256(input.as_slice());
    let head = vstd::slice::slice_subrange(digest.as_slice(), 0, 16);
    let hex = hex_encode(head);
    proof {
        assert(head@ =~= sha256_of(input@).take(16));
        crate::crypto::lemma_hex_of_ascii(head@);
    }
    ascii_to_string(&hex)
}

/// The bytes of a JSON string holding the UTF-8 of the characters `s`.
pub open spec fn jstr(s: Seq<char>) -> Seq<u8> {
    json_string(encode_utf8(s))
}

/// The canonical JSON rendering of session metadata.
pub open spec fn json_metadata(m: MetadataV) -> Seq<u8> {
    (seq![123u8] + jkey("username"@) + jstr(m.username)) + (seq![44u8] + jkey("hostname"@) + jstr(
        m.hostname,
    )) + (seq![44u8] + jkey("machine_id"@) + jstr(m.machine_id)) + (seq![44u8] + jkey(
        "run_counter"@,
    ) + dec_of(m.run_counter as nat)) + (seq![44u8] + jkey("start_time"@) + dec_of(
        m.start_time as nat,
    )) + (seq![44u8] + jkey("end_time"@) + json_opt_u64(m.end_time)) + (seq![44u8] + jkey(
        "duration_seconds"@,
    ) + json_opt_u64(m.duration_seconds)) + seq![125u8]
}

/// Renders metadata as canonical JSON; the result is exactly `json_metadata`.
pub fn encode_metadata_json(m: &Metadata) -> (r: Vec<u8>)
    ensures
        r@ == json_metadata(m@),
{
    let mut out: Vec<u8> = Vec::new();
    emit_byte(&mut out, 123);
    emit_key(&mut out, "username");
    emit_json_string(&mut out, m.username.as_str().as_bytes());
    emit_byte(&mut out, 44);
    emit_key(&mut out, "hostname");
    emit_json_string(&mut out, m.hostname.as_str().as_bytes());
    emit_byte(&mut out, 44);
    emit_key(&mut out, "machine_id");
    emit_json_string(&mut out, m.machine_id.as_str().as_bytes());
    emit_byte(&mut out, 44);
    emit_key(&mut out, "run_counter");
    emit_u64(&mut out, m.run_counter);
    emit_byte(&mut out, 44);
    emit_key(&mut out, "start_time");
    emit_u64(&mut out, m.start_time);
    emit_byte(&mut out, 44);
    emit_key(&mut out, "end_time");
    emit_opt_u64(&mut out, &m.end_time);
    emit_byte(&mut out, 44);
    emit_key(&mut out, "duration_seconds");
    emit_opt_u64(&mut out, &m.duration_seconds);
    emit_byte(&mut out, 125);
    proof {
        assert(out@ =~= json_metadata(m@));
    }
    out
}

/// What parsing bytes as a metadata rendering yields: the metadata exactly
/// when the bytes are a canonical rendering whose strings are valid UTF-8.
#[verifier::opaque]
pub open spec fn parse_metadata_spec(data: Seq<u8>) -> Option<MetadataV> {
    match parse_lit_at(data, 0, seq![123u8] + jkey("username"@)) {
        Option::Some(i1) => match parse_string_at(data, i1) {
            Option::Some((ub, i2)) => match parse_lit_at(data, i2, seq![44u8] + jkey("hostname"@)) {
                Option::Some(i3) => match parse_string_at(data, i3) {
                    Option::Some((hb, i4)) => match parse_lit_at(
                        data,
                        i4,
                        seq![44u8] + jkey("machine_id"@),
                    ) {
                        Option::Some(i5) => match parse_string_at(data, i5) {
                            Option::Some((mb, i6)) => match parse_lit_at(
                                data,
                                i6,
                                seq![44u8] + jkey("run_counter"@),
                            ) {
                                Option::Some(i7) => match parse_u64_at(data, i7) {
                                    Option::Some((rc, i8)) => match parse_lit_at(
                                        data,
                                        i8,
                                        seq![44u8] + jkey("start_time"@),
                                    ) {
                                        Option::Some(i9) => match parse_u64_at(data, i9) {
                                            Option::Some((st, i10)) => match parse_lit_at(
                                                data,
                                                i10,
                                                seq![44u8] + jkey("end_time"@),
                                            ) {
                                                Option::Some(i11) => match parse_opt_u64_at(
                                                    data,
                                                    i11,
                                                ) {
                                                    Option::Some((et, i12)) => match parse_lit_at(
                                                        data,
                                                        i12,
                                                        seq![44u8] + jkey("duration_seconds"@),
                                                    ) {
                                                        Option::Some(i13) => match parse_opt_u64_at(
                                                            data,
                                                            i13,
                                                        ) {
                                                            Option::Some((du, i14)) => if i14
                                                                < data.len() && data[i14] == 125
                                                                && i14 + 1 == data.len()
                                                                && valid_utf8(ub) && valid_utf8(hb)
                                                                && valid_utf8(mb) {
                                                                Option::Some(
                                                                    MetadataV {
                                                                        username: decode_utf8(ub),
                                                                        hostname: decode_utf8(hb),
                                                                        machine_id: decode_utf8(
                                                                            mb,
                                                                        ),
                                                                        run_counter: rc,
                                                                        start_time: st,
                                                                        end_time: et,
                                                                        duration_seconds: du,
                                                                    },
                                                                )
                                                            } else {
                                                                Option::None
                                                            },
                                                            Option::None => Option::None,
                                                        },
                                                        Option::None => Option::None,
                                                    },
                                                    Option::None => Option::None,
                                                },
                                                Option::None => Option::None,
                                            },
                                            Option::None => Option::None,
                                        },
                                        Option::None => Option::None,
                                    },
                                    Option::None => Option::None,
                                },
                                Option::None => Option::None,
                            },
                            Option::None => Option::None,
                        },
                        Option::None => Option::None,
                    },
                    Option::None => Option::None,
                },
                Option::None => Option::None,
            },
            Option::None => Option::None,
        },
        Option::None => Option::None,
    }
}

/// Builds the literal bytes `{"<name>":` or `,"<name>":`.
pub fn key_lit(first: bool, name: &str) -> (r: Vec<u8>)
    ensures
        first ==> r@ == seq![123u8] + jkey(name@),
        !first ==> r@ == seq![44u8] + jkey(name@),
{
    let mut out: Vec<u8> = Vec::new();
    if first {
        emit_byte(&mut out, 123);
    } else {
        emit_byte(&mut out, 44);
    }
    emit_key(&mut out, name);
    proof {
        if first {
            assert(out@ =~= seq![123u8] + jkey(name@));
        } else {
            assert(out@ =~= seq![44u8] + jkey(name@));
        }
    }
    out
}

/// Parses bytes as a metadata rendering; returns exactly
/// `parse_metadata_spec` (up to the view of the strings).
pub fn parse_metadata(data: &[u8]) -> (r: Option<Metadata>)
    ensures
        r matches Some(m) ==> parse_metadata_spec(data@) == Some(m@),
        r is None ==> parse_metadata_spec(data@) is None,
{
    proof {
        reveal(parse_metadata_spec);
    }
    let l1 = key_lit(true, "username");
    let i1 = match parse_lit(data, 0, l1.as_slice()) {
        Some(i) => i,
        None => {
            return None;
        },
    };
    let (ub, i2) = match parse_string(data, i1) {
        Some(p) => p,
        None => {
            return None;
        },
    };
    let l2 = key_lit(false, "hostname");
    let i3 = match parse_lit(data, i2, l2.as_slice()) {
        Some(i) => i,
        None => {
            return None;
        },
    };
    let (hb, i4) = match parse_string(data, i3) {
        Some(p) => p,
        None => {
            return None;
        },
    };
    let l3 = key_lit(false, "machine_id");
    let i5 = match parse_lit(data, i4, l3.as_slice()) {
        Some(i) => i,
        None => {
            return None;
        },
    };
    let (mb, i6) = match parse_string(data, i5) {
        Some(p) => p,
        None => {
            return None;
        },
    };
    let l4 = key_lit(false, "run_counter");
    let i7 = match parse_lit(data, i6, l4.as_slice()) {
        Some(i) => i,
        None => {
            return None;
        },
    };
    let (rc, i8) = match parse_u64(data, i7) {
        Some(p) => p,
        None => {
            return None;
        },
    };
    let l5 = key_lit(false, "start_time");
    let i9 = match parse_lit(data, i8, l5.as_slice()) {
        Some(i) => i,
        None => {
            return None;
        },
    };
    let (st, i10) = match parse_u64(data, i9) {
        Some(p) => p,
        None => {
            return None;
        },
    };
    let l6 = key_lit(false, "end_time");
    let i11 = match parse_lit(data, i10, l6.as_slice()) {
        Some(i) => i,
        None => {
            return None;
        },
    };
    let (et, i12) = match parse_opt_u64(data, i11) {
        Some(p) => p,
        None => {
            return None;
        },
    };
    let l7 = key_lit(false, "duration_seconds");
    let i13 = match parse_lit(data, i12, l7.as_slice()) {
        Some(i) => i,
        None => {
            return None;
        },
    };
    let (du, i14) = match parse_opt_u64(data, i13) {
        Some(p) => p,
        None => {
            return None;
        },
    };
    if !(i14 < data.len() && data[i14] == 125 && i14 + 1 == data.len()) {
        return None;
    }
    let username = match string_from_utf8(ub) {
        Some(s) => s,
        None => {
            return None;
        },
    };
    let hostname = match string_from_utf8(hb) {
        Some(s) => s,
        None => {
            return None;
        },
    };
    let machine_id = match string_from_utf8(mb) {
        Some(s) => s,
        None => {
            return None;
        },
    };
    Some(
        Metadata {
            username,
            hostname,
            machine_id,
            run_counter: rc,
            start_time: st,
            end_time: et,
            duration_seconds: du,
        },
    )
}

/// Parsing a canonical metadata rendering yields the metadata back.
#[verifier::rlimit(100)]
pub proof fn lemma_metadata_json_round_trip(m: MetadataV)
    ensures
        parse_metadata_spec(json_metadata(m)) == Some(m),
{
    reveal(parse_metadata_spec);
    broadcast use vstd::utf8::encode_utf8_valid_utf8, vstd::utf8::encode_utf8_decode_utf8;

    let w = json_metadata(m);
    let la = seq![123u8] + jkey("username"@);
    let lb = seq![44u8] + jkey("hostname"@);
    let lc = seq![44u8] + jkey("machine_id"@);
    let ld = seq![44u8] + jkey("run_counter"@);
    let le = seq![44u8] + jkey("start_time"@);
    let lf = seq![44u8] + jkey("end_time"@);
    let lg = seq![44u8] + jkey("duration_seconds"@);
    let a = la + jstr(m.username);
    let b = lb + jstr(m.hostname);
    let c = lc + jstr(m.machine_id);
    let d = ld + dec_of(m.run_counter as nat);
    let e = le + dec_of(m.start_time as nat);
    let f = lf + json_opt_u64(m.end_time);
    let g = lg + json_opt_u64(m.duration_seconds);
    let h = seq![125u8];
    lemma_concat9_parts(w, a, b, c, d, e, f, g, h, Seq::empty());
    let p1 = a.len() as int;
    let p2 = p1 + b.len();
    let p3 = p2 + c.len();
    let p4 = p3 + d.len();
    let p5 = p4 + e.len();
    let p6 = p5 + f.len();
    let p7 = p6 + g.len();
    assert(w.subrange(p7, w.len() as int) == h);
    assert(w[p7] == 125) by {
        assert(w.subrange(p7, w.len() as int)[0] == h[0]);
    }
    lemma_obj_string_field(w, 0, la, encode_utf8(m.username), p1);
    lemma_obj_string_field(w, p1, lb, encode_utf8(m.hostname), p2);
    lemma_obj_string_field(w, p2, lc, encode_utf8(m.machine_id), p3);
    lemma_obj_value_field(w, p3, ld, dec_of(m.run_counter as nat), p4);
    assert(w[p4] == 44) by {
        assert(w.subrange(p4, p5)[0] == e[0]);
        assert(e[0] == 44);
    }
    lemma_parse_u64_exact(w, p3 + ld.len(), m.run_counter);
    lemma_obj_value_field(w, p4, le, dec_of(m.start_time as nat), p5);
    assert(w[p5] == 44) by {
        assert(w.subrange(p5, p6)[0] == f[0]);
        assert(f[0] == 44);
    }
    lemma_parse_u64_exact(w, p4 + le.len(), m.start_time);
    lemma_obj_value_field(w, p5, lf, json_opt_u64(m.end_time), p6);
    assert(w[p6] == 44) by {
        assert(w.subrange(p6, p7)[0] == g[0]);
        assert(g[0] == 44);
    }
    lemma_parse_opt_u64_exact(w, p5 + lf.len(), m.end_time);
    lemma_obj_value_field(w, p6, lg, json_opt_u64(m.duration_seconds), p7);
    lemma_parse_opt_u64_exact(w, p6 + lg.len(), m.duration_seconds);
    assert(decode_utf8(encode_utf8(m.username)) == m.username);
    assert(decode_utf8(encode_utf8(m.hostname)) == m.hostname);
    assert(decode_utf8(encode_utf8(m.machine_id)) == m.machine_id);
}

} // verus!
