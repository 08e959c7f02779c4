//! The recorded events and the session summary, with their canonical JSON
//! codecs: one keystroke per input byte, the commands reconstructed from the
//! line buffer, and the summary counts derived from the keystroke vector.

use vstd::prelude::*;

use crate::json::{
    emit_bool, emit_byte, emit_json_string, emit_key, emit_u64, emit_u8_array, jkey, json_bool,
    json_string, json_u8_array, lemma_concat9_parts, lemma_obj_string_field,
    lemma_obj_value_field, lemma_parse_bool_exact, lemma_parse_u64_exact,
    lemma_parse_u8_array_exact, lemma_seq_prefix_sub, parse_bool, parse_bool_at, parse_lit,
    parse_lit_at, parse_string, parse_string_at, parse_u64, parse_u64_at, parse_u8_array,
    parse_u8_array_at,
};
use crate::meta::jstr;
use crate::text::{dec_of, string_from_utf8};
use vstd::utf8::{decode_utf8, encode_utf8, valid_utf8};

verus! {

/// One observed input byte, classified.
#[derive(Debug, Clone)]
pub struct KeystrokeEvent {
    /// Milliseconds since the Unix epoch at classification time.
    pub timestamp: u64,
    /// The byte's value.
    pub key_code: u32,
    /// The key's display name.
    pub key_name: String,
    /// The raw captured bytes (one byte per event).
    pub raw_bytes: Vec<u8>,
    /// Whether the paste detector flagged this keystroke.
    pub is_paste: bool,
}

/// The mathematical view of a keystroke event.
pub struct KeystrokeEventV {
    /// Milliseconds since the Unix epoch at classification time.
    pub timestamp: u64,
    /// The byte's value.
    pub key_code: u32,
    /// The key's display name.
    pub key_name: Seq<char>,
    /// The raw captured bytes.
    pub raw_bytes: Seq<u8>,
    /// Whether the paste detector flagged this keystroke.
    pub is_paste: bool,
}

impl View for KeystrokeEvent {
    type V = KeystrokeEventV;

    open spec fn view(&self) -> KeystrokeEventV {
        KeystrokeEventV {
            timestamp: self.timestamp,
            key_code: self.key_code,
            key_name: self.key_name@,
            raw_bytes: self.raw_bytes@,
            is_paste: self.is_paste,
        }
    }
}

/// One command line the user finished with Enter.
#[derive(Debug, Clone)]
pub struct CommandEvent {
    /// Milliseconds since the Unix epoch of the line terminator.
    pub timestamp: u64,
    /// The trimmed command text.
    pub command: String,
}

/// The mathematical view of a command event.
pub struct CommandEventV {
    /// Milliseconds since the Unix epoch of the line terminator.
    pub timestamp: u64,
    /// The trimmed command text.
    pub command: Seq<char>,
}

impl View for CommandEvent {
    type V = CommandEventV;

    open spec fn view(&self) -> CommandEventV {
        CommandEventV { timestamp: self.timestamp, command: self.command@ }
    }
}

/// Counts derived from the keystroke vector at finalize time.
#[derive(Debug, Clone, Copy, PartialEq, Eq, Structural)]
pub struct SessionSummary {
    /// Every observed input byte.
    pub total_keystrokes: usize,
    /// How many keystrokes were named `Enter`.
    pub enter_pressed: usize,
    /// How many keystrokes were named `Backspace`.
    pub backspace_used: usize,
    /// How many keystrokes were named `Delete`.
    pub delete_used: usize,
    /// How many keystrokes the paste detector flagged.
    pub paste_events: usize,
    /// The raw bytes of the flagged keystrokes.
    pub total_pasted_chars: usize,
    /// How many command lines were recorded.
    pub commands_executed: usize,
}

/// The views of a sequence of keystroke events, in order.
pub open spec fn events_view(es: Seq<KeystrokeEvent>) -> Seq<KeystrokeEventV> {
    Seq::new(es.len(), |i: int| es[i]@)
}

// ---------------------------------------------------------------------------
// Summary codec
// ---------------------------------------------------------------------------
/// The canonical JSON rendering of a session summary.
pub open spec fn json_summary(s: SessionSummary) -> Seq<u8> {
    (seq![123u8] + jkey("total_keystrokes"@) + dec_of(s.total_keystrokes as nat)) + (seq![44u8]
        + jkey("enter_pressed"@) + dec_of(s.enter_pressed as nat)) + (seq![44u8] + jkey(
        "backspace_used"@,
    ) + dec_of(s.backspace_used as nat)) + (seq![44u8] + jkey("delete_used"@) + dec_of(
        s.delete_used as nat,
    )) + (seq![44u8] + jkey("paste_events"@) + dec_of(s.paste_events as nat)) + (seq![44u8] + jkey(
        "total_pasted_chars"@,
    ) + dec_of(s.total_pasted_chars as nat)) + (seq![44u8] + jkey("commands_executed"@) + dec_of(
        s.commands_executed as nat,
    )) + seq![125u8]
}

/// Renders a summary as canonical JSON; the result is exactly `json_summary`.
pub fn encode_summary_json(s: &SessionSummary) -> (r: Vec<u8>)
    ensures
        r@ == json_summary(*s),
{
    let mut out: Vec<u8> = Vec::new();
    emit_byte(&mut out, 123);
    emit_key(&mut out, "total_keystrokes");
    emit_u64(&mut out, s.total_keystrokes as u64);
    emit_byte(&mut out, 44);
    emit_key(&mut out, "enter_pressed");
    emit_u64(&mut out, s.enter_pressed as u64);
    emit_byte(&mut out, 44);
    emit_key(&mut out, "backspace_used");
    emit_u64(&mut out, s.backspace_used as u64);
    emit_byte(&mut out, 44);
    emit_key(&mut out, "delete_used");
    emit_u64(&mut out, s.delete_used as u64);
    emit_byte(&mut out, 44);
    emit_key(&mut out, "paste_events");
    emit_u64(&mut out, s.paste_events as u64);
    emit_byte(&mut out, 44);
    emit_key(&mut out, "total_pasted_chars");
    emit_u64(&mut out, s.total_pasted_chars as u64);
    emit_byte(&mut out, 44);
    emit_key(&mut out, "commands_executed");
    emit_u64(&mut out, s.commands_executed as u64);
    emit_byte(&mut out, 125);
    proof {
        assert(out@ =~= json_summary(*s));
    }
    out
}

/// What parsing bytes as a summary rendering yields: the summary exactly when
/// the bytes are a canonical rendering whose counts fit `usize`.
#[verifier::opaque]
pub open spec fn parse_summary_spec(data: Seq<u8>) -> Option<SessionSummary> {
    match parse_lit_at(data, 0, seq![123u8] + jkey("total_keystrokes"@)) {
        Option::Some(i1) => match parse_u64_at(data, i1) {
            Option::Some((tk, i2)) => match parse_lit_at(
                data,
                i2,
                seq![44u8] + jkey("enter_pressed"@),
            ) {
                Option::Some(i3) => match parse_u64_at(data, i3) {
                    Option::Some((ep, i4)) => match parse_lit_at(
                        data,
                        i4,
                        seq![44u8] + jkey("backspace_used"@),
                    ) {
                        Option::Some(i5) => match parse_u64_at(data, i5) {
                            Option::Some((bu, i6)) => match parse_lit_at(
                                data,
                                i6,
                                seq![44u8] + jkey("delete_used"@),
                            ) {
                                Option::Some(i7) => match parse_u64_at(data, i7) {
                                    Option::Some((du, i8)) => match parse_lit_at(
                                        data,
                                        i8,
                                        seq![44u8] + jkey("paste_events"@),
                                    ) {
                                        Option::Some(i9) => match parse_u64_at(data, i9) {
                                            Option::Some((pe, i10)) => match parse_lit_at(
                                                data,
                                                i10,
                                                seq![44u8] + jkey("total_pasted_chars"@),
                                            ) {
                                                Option::Some(i11) => match parse_u64_at(
                                                    data,
                                                    i11,
                                                ) {
                                                    Option::Some((tp, i12)) => match parse_lit_at(
                                                        data,
                                                        i12,
                                                        seq![44u8] + jkey("commands_executed"@),
                                                    ) {
                                                        Option::Some(i13) => match parse_u64_at(
                                                            data,
                                                            i13,
                                                        ) {
                                                            Option::Some((ce, i14)) => if i14
                                                                < data.len() && data[i14] == 125
                                                                && i14 + 1 == data.len() && tk
                                                                <= usize::MAX && ep <= usize::MAX
                                                                && bu <= usize::MAX && du
                                                                <= usize::MAX && pe <= usize::MAX
                                                                && tp <= usize::MAX && ce
                                                                <= usize::MAX {
                                                                Option::Some(
                                                                    SessionSummary {
                                                                        total_keystrokes: tk as usize,
                                                                        enter_pressed: ep as usize,
                                                                        backspace_used: bu as usize,
                                                                        delete_used: du as usize,
                                                                        paste_events: pe as usize,
                                                                        total_pasted_chars: tp as usize,
                                                                        commands_executed: ce as usize,
                                                                    },
                                                                )
                                                            } else {
                                                                Option::None
                                                            },
                                                            Option::None => Option::None,
                                                        },
                                                        Option::None => Option::None,
                                                    },
                                                    Option::None => Option::None,
                                                },
                                                Option::None => Option::None,
                                            },
                                            Option::None => Option::None,
                                        },
                                        Option::None => Option::None,
                                    },
                                    Option::None => Option::None,
                                },
                                Option::None => Option::None,
                            },
                            Option::None => Option::None,
                        },
                        Option::None => Option::None,
                    },
                    Option::None => Option::None,
                },
                Option::None => Option::None,
            },
            Option::None => Option::None,
        },
        Option::None => Option::None,
    }
}

/// Parses one summary field: the key literal and its count.
fn parse_count_field(data: &[u8], i: usize, first: bool, name: &str) -> (r: Option<
    (usize, usize),
>)
    requires
        i <= data@.len(),
    ensures
        r matches Some((n, j)) ==> ({
            let lit = if first {
                seq![123u8] + jkey(name@)
            } else {
                seq![44u8] + jkey(name@)
            };
            &&& parse_lit_at(data@, i as int, lit) matches Some(i2)
            &&& parse_u64_at(data@, i2) == Some((n as u64, j as int))
            &&& n <= usize::MAX
            &&& i < j <= data@.len()
        }),
        r is None ==> ({
            let lit = if first {
                seq![123u8] + jkey(name@)
            } else {
                seq![44u8] + jkey(name@)
            };
            match parse_lit_at(data@, i as int, lit) {
                Option::Some(i2) => match parse_u64_at(data@, i2) {
                    Option::Some((n, _)) => n > usize::MAX,
                    Option::None => true,
                },
                Option::None => true,
            }
        }),
{
    let lit = crate::meta::key_lit(first, name);
    let i2 = match parse_lit(data, i, lit.as_slice()) {
        Some(i2) => i2,
        None => {
            return None;
        },
    };
    let (n, j) = match parse_u64(data, i2) {
        Some(p) => p,
        None => {
            return None;
        },
    };
    if n <= usize::MAX as u64 {
        Some((n as usize, j))
    } else {
        None
    }
}

/// Parses bytes as a summary rendering; returns exactly `parse_summary_spec`.
pub fn parse_summary(data: &[u8]) -> (r: Option<SessionSummary>)
    ensures
        r == parse_summary_spec(data@),
{
    proof {
        reveal(parse_summary_spec);
    }
    let (tk, i2) = match parse_count_field(data, 0, true, "total_keystrokes") {
        Some(p) => p,
        None => {
            return None;
        },
    };
    let (ep, i4) = match parse_count_field(data, i2, false, "enter_pressed") {
        Some(p) => p,
        None => {
            return None;
        },
    };
    let (bu, i6) = match parse_count_field(data, i4, false, "backspace_used") {
        Some(p) => p,
        None => {
            return None;
        },
    };
    let (du, i8) = match parse_count_field(data, i6, false, "delete_used") {
        Some(p) => p,
        None => {
            return None;
        },
    };
    let (pe, i10) = match parse_count_field(data, i8, false, "paste_events") {
        Some(p) => p,
        None => {
            return None;
        },
    };
    let (tp, i12) = match parse_count_field(data, i10, false, "total_pasted_chars") {
        Some(p) => p,
        None => {
            return None;
        },
    };
    let (ce, i14) = match parse_count_field(data, i12, false, "commands_executed") {
        Some(p) => p,
        None => {
            return None;
        },
    };
    if i14 < data.len() && data[i14] == 125 && i14 + 1 == data.len() {
        Some(
            SessionSummary {
                total_keystrokes: tk,
                enter_pressed: ep,
                backspace_used: bu,
                delete_used: du,
                paste_events: pe,
                total_pasted_chars: tp,
                commands_executed: ce,
            },
        )
    } else {
        None
    }
}

/// Parsing a canonical summary rendering yields the summary back.
#[verifier::rlimit(100)]
pub proof fn lemma_summary_json_round_trip(s: SessionSummary)
    ensures
        parse_summary_spec(json_summary(s)) == Some(s),
{
    reveal(parse_summary_spec);
    let w = json_summary(s);
    let la = seq![123u8] + jkey("total_keystrokes"@);
    let lb = seq![44u8] + jkey("enter_pressed"@);
    let lc = seq![44u8] + jkey("backspace_used"@);
    let ld = seq![44u8] + jkey("delete_used"@);
    let le = seq![44u8] + jkey("paste_events"@);
    let lf = seq![44u8] + jkey("total_pasted_chars"@);
    let lg = seq![44u8] + jkey("commands_executed"@);
    let a = la + dec_of(s.total_keystrokes as nat);
    let b = lb + dec_of(s.enter_pressed as nat);
    let c = lc + dec_of(s.backspace_used as nat);
    let d = ld + dec_of(s.delete_used as nat);
    let e = le + dec_of(s.paste_events as nat);
    let f = lf + dec_of(s.total_pasted_chars as nat);
    let g = lg + dec_of(s.commands_executed as nat);
    let h = seq![125u8];
    lemma_concat9_parts(w, a, b, c, d, e, f, g, h, Seq::empty());
    let p1 = a.len() as int;
    let p2 = p1 + b.len();
    let p3 = p2 + c.len();
    let p4 = p3 + d.len();
    let p5 = p4 + e.len();
    let p6 = p5 + f.len();
    let p7 = p6 + g.len();
    assert(w[p1] == 44) by {
        assert(w.subrange(p1, p2)[0] == b[0]);
        assert(b[0] == 44);
    }
    assert(w[p2] == 44) by {
        assert(w.subrange(p2, p3)[0] == c[0]);
        assert(c[0] == 44);
    }
    assert(w[p3] == 44) by {
        assert(w.subrange(p3, p4)[0] == d[0]);
        assert(d[0] == 44);
    }
    assert(w[p4] == 44) by {
        assert(w.subrange(p4, p5)[0] == e[0]);
        assert(e[0] == 44);
    }
    assert(w[p5] == 44) by {
        assert(w.subrange(p5, p6)[0] == f[0]);
        assert(f[0] == 44);
    }
    assert(w[p6] == 44) by {
        assert(w.subrange(p6, p7)[0] == g[0]);
        assert(g[0] == 44);
    }
    assert(w[p7] == 125) by {
        assert(w.subrange(p7, w.len() as int)[0] == h[0]);
    }
    lemma_obj_value_field(w, 0, la, dec_of(s.total_keystrokes as nat), p1);
    lemma_parse_u64_exact(w, la.len() as int, s.total_keystrokes as u64);
    lemma_obj_value_field(w, p1, lb, dec_of(s.enter_pressed as nat), p2);
    lemma_parse_u64_exact(w, p1 + lb.len(), s.enter_pressed as u64);
    lemma_obj_value_field(w, p2, lc, dec_of(s.backspace_used as nat), p3);
    lemma_parse_u64_exact(w, p2 + lc.len(), s.backspace_used as u64);
    lemma_obj_value_field(w, p3, ld, dec_of(s.delete_used as nat), p4);
    lemma_parse_u64_exact(w, p3 + ld.len(), s.delete_used as u64);
    lemma_obj_value_field(w, p4, le, dec_of(s.paste_events as nat), p5);
    lemma_parse_u64_exact(w, p4 + le.len(), s.paste_events as u64);
    lemma_obj_value_field(w, p5, lf, dec_of(s.total_pasted_chars as nat), p6);
    lemma_parse_u64_exact(w, p5 + lf.len(), s.total_pasted_chars as u64);
    lemma_obj_value_field(w, p6, lg, dec_of(s.commands_executed as nat), p7);
    lemma_parse_u64_exact(w, p6 + lg.len(), s.commands_executed as u64);
}

// ---------------------------------------------------------------------------
// Keystroke event codec
// ---------------------------------------------------------------------------
/// The canonical JSON rendering of one keystroke event.
pub open spec fn json_event(e: KeystrokeEventV) -> Seq<u8> {
    (seq![123u8] + jkey("timestamp"@) + dec_of(e.timestamp as nat)) + (seq![44u8] + jkey(
        "key_code"@,
    ) + dec_of(e.key_code as nat)) + (seq![44u8] + jkey("key_name"@) + jstr(e.key_name)) + (
    seq![44u8] + jkey("raw_bytes"@) + json_u8_array(e.raw_bytes)) + (seq![44u8] + jkey("is_paste"@)
        + json_bool(e.is_paste)) + seq![125u8]
}

/// Appends the canonical JSON rendering of one keystroke event.
pub fn emit_event(out: &mut Vec<u8>, e: &KeystrokeEvent)
    ensures
        final(out)@ == old(out)@ + json_event(e@),
{
    emit_byte(out, 123);
    emit_key(out, "timestamp");
    emit_u64(out, e.timestamp);
    emit_byte(out, 44);
    emit_key(out, "key_code");
    emit_u64(out, e.key_code as u64);
    emit_byte(out, 44);
    emit_key(out, "key_name");
    emit_json_string(out, e.key_name.as_str().as_bytes());
    emit_byte(out, 44);
    emit_key(out, "raw_bytes");
    emit_u8_array(out, e.raw_bytes.as_slice());
    emit_byte(out, 44);
    emit_key(out, "is_paste");
    emit_bool(out, e.is_paste);
    emit_byte(out, 125);
    proof {
        assert(out@ =~= old(out)@ + json_event(e@));
    }
}

/// What parsing bytes as one keystroke-event object yields, with the next
/// position.
#[verifier::opaque]
pub open spec fn parse_event_at(data: Seq<u8>, i: int) -> Option<(KeystrokeEventV, int)> {
    match parse_lit_at(data, i, seq![123u8] + jkey("timestamp"@)) {
        Option::Some(i1) => match parse_u64_at(data, i1) {
            Option::Some((ts, i2)) => match parse_lit_at(data, i2, seq![44u8] + jkey("key_code"@)) {
                Option::Some(i3) => match parse_u64_at(data, i3) {
                    Option::Some((kc, i4)) => match parse_lit_at(
                        data,
                        i4,
                        seq![44u8] + jkey("key_name"@),
                    ) {
                        Option::Some(i5) => match parse_string_at(data, i5) {
                            Option::Some((nb, i6)) => match parse_lit_at(
                                data,
                                i6,
                                seq![44u8] + jkey("raw_bytes"@),
                            ) {
                                Option::Some(i7) => match parse_u8_array_at(data, i7) {
                                    Option::Some((rb, i8)) => match parse_lit_at(
                                        data,
                                        i8,
                                        seq![44u8] + jkey("is_paste"@),
                                    ) {
                                        Option::Some(i9) => match parse_bool_at(data, i9) {
                                            Option::Some((ip, i10)) => if i10 < data.len()
                                                && data[i10] == 125 && kc <= u32::MAX
                                                && valid_utf8(nb) {
                                                Option::Some(
                                                    (
                                                        KeystrokeEventV {
                                                            timestamp: ts,
                                                            key_code: kc as u32,
                                                            key_name: decode_utf8(nb),
                                                            raw_bytes: rb,
                                                            is_paste: ip,
                                                        },
                                                        i10 + 1,
                                                    ),
                                                )
                                            } else {
                                                Option::None
                                            },
                                            Option::None => Option::None,
                                        },
                                        Option::None => Option::None,
                                    },
                                    Option::None => Option::None,
                                },
                                Option::None => Option::None,
                            },
                            Option::None => Option::None,
                        },
                        Option::None => Option::None,
                    },
                    Option::None => Option::None,
                },
                Option::None => Option::None,
            },
            Option::None => Option::None,
        },
        Option::None => Option::None,
    }
}

/// Parses one keystroke-event object; returns exactly `parse_event_at` (up to
/// the view), and advances.
pub fn parse_event(data: &[u8], i: usize) -> (r: Option<(KeystrokeEvent, usize)>)
    requires
        i <= data@.len(),
    ensures
        r matches Some((e, j)) ==> parse_event_at(data@, i as int) == Some((e@, j as int)) && i < j
            <= data@.len(),
        r is None ==> parse_event_at(data@, i as int) is None,
{
    proof {
        reveal(parse_event_at);
    }
    let l1 = crate::meta::key_lit(true, "timestamp");
    let i1 = match parse_lit(data, i, l1.as_slice()) {
        Some(p) => p,
        None => {
            return None;
        },
    };
    let (ts, i2) = match parse_u64(data, i1) {
        Some(p) => p,
        None => {
            return None;
        },
    };
    let l2 = crate::meta::key_lit(false, "key_code");
    let i3 = match parse_lit(data, i2, l2.as_slice()) {
        Some(p) => p,
        None => {
            return None;
        },
    };
    let (kc, i4) = match parse_u64(data, i3) {
        Some(p) => p,
        None => {
            return None;
        },
    };
    let l3 = crate::meta::key_lit(false, "key_name");
    let i5 = match parse_lit(data, i4, l3.as_slice()) {
        Some(p) => p,
        None => {
            return None;
        },
    };
    let (nb, i6) = match parse_string(data, i5) {
        Some(p) => p,
        None => {
            return None;
        },
    };
    let l4 = crate::meta::key_lit(false, "raw_bytes");
    let i7 = match parse_lit(data, i6, l4.as_slice()) {
        Some(p) => p,
        None => {
            return None;
        },
    };
    let (rb, i8) = match parse_u8_array(data, i7) {
        Some(p) => p,
        None => {
            return None;
        },
    };
    let l5 = crate::meta::key_lit(false, "is_paste");
    let i9 = match parse_lit(data, i8, l5.as_slice()) {
        Some(p) => p,
        None => {
            return None;
        },
    };
    let (ip, i10) = match parse_bool(data, i9) {
        Some(p) => p,
        None => {
            return None;
        },
    };
    if !(i10 < data.len() && data[i10] == 125 && kc <= u32::MAX as u64) {
        return None;
    }
    let key_name = match string_from_utf8(nb) {
        Some(s) => s,
        None => {
            return None;
        },
    };
    Some(
        (
            KeystrokeEvent {
                timestamp: ts,
                key_code: kc as u32,
                key_name,
                raw_bytes: rb,
                is_paste: ip,
            },
            i10 + 1,
        ),
    )
}

/// Parsing a canonical event rendering standing at `i` yields the event back.
#[verifier::rlimit(100)]
pub proof fn lemma_parse_event_exact(s: Seq<u8>, i: int, e: KeystrokeEventV)
    requires
        0 <= i,
        i + json_event(e).len() <= s.len(),
        s.subrange(i, i + json_event(e).len() as int) == json_event(e),
    ensures
        parse_event_at(s, i) == Some((e, i + json_event(e).len() as int)),
{
    broadcast use vstd::utf8::encode_utf8_valid_utf8, vstd::utf8::encode_utf8_decode_utf8;

    reveal(parse_event_at);
    let w = json_event(e);
    let la = seq![123u8] + jkey("timestamp"@);
    let lb = seq![44u8] + jkey("key_code"@);
    let lc = seq![44u8] + jkey("key_name"@);
    let ld = seq![44u8] + jkey("raw_bytes"@);
    let le = seq![44u8] + jkey("is_paste"@);
    let a = la + dec_of(e.timestamp as nat);
    let b = lb + dec_of(e.key_code as nat);
    let c = lc + jstr(e.key_name);
    let d = ld + json_u8_array(e.raw_bytes);
    let f = le + json_bool(e.is_paste);
    let g = seq![125u8];
    lemma_concat9_parts(w, a, b, c, d, f, g, Seq::empty(), Seq::empty(), Seq::empty());
    let p1 = a.len() as int;
    let p2 = p1 + b.len();
    let p3 = p2 + c.len();
    let p4 = p3 + d.len();
    let p5 = p4 + f.len();
    assert(s.subrange(i, i + w.len() as int) == w);
    // each part of the object stands inside `s` at its shifted offset
    lemma_seq_prefix_sub(s, i, w, 0, p1);
    lemma_seq_prefix_sub(s, i, w, p1, p2);
    lemma_seq_prefix_sub(s, i, w, p2, p3);
    lemma_seq_prefix_sub(s, i, w, p3, p4);
    lemma_seq_prefix_sub(s, i, w, p4, p5);
    lemma_seq_prefix_sub(s, i, w, p5, w.len() as int);
    assert(s.subrange(i + p1, i + p2) == b);
    assert(s.subrange(i + p2, i + p3) == c);
    assert(s.subrange(i + p3, i + p4) == d);
    assert(s.subrange(i + p4, i + p5) == f);
    assert(s.subrange(i + p5, i + w.len()) == g);
    assert(s[i + p1] == 44) by {
        assert(s.subrange(i + p1, i + p2)[0] == b[0]);
        assert(b[0] == 44);
    }
    assert(s[i + p2] == 44) by {
        assert(s.subrange(i + p2, i + p3)[0] == c[0]);
        assert(c[0] == 44);
    }
    assert(s[i + p5] == 125) by {
        assert(s.subrange(i + p5, i + w.len())[0] == g[0]);
    }
    lemma_obj_value_field(s, i, la, dec_of(e.timestamp as nat), i + p1);
    lemma_parse_u64_exact(s, i + la.len(), e.timestamp);
    lemma_obj_value_field(s, i + p1, lb, dec_of(e.key_code as nat), i + p2);
    lemma_parse_u64_exact(s, i + p1 + lb.len(), e.key_code as u64);
    lemma_obj_string_field(s, i + p2, lc, encode_utf8(e.key_name), i + p3);
    lemma_obj_value_field(s, i + p3, ld, json_u8_array(e.raw_bytes), i + p4);
    lemma_parse_u8_array_exact(s, i + p3 + ld.len(), e.raw_bytes);
    lemma_obj_value_field(s, i + p4, le, json_bool(e.is_paste), i + p5);
    lemma_parse_bool_exact(s, i + p4 + le.len(), e.is_paste);
    assert(decode_utf8(encode_utf8(e.key_name)) == e.key_name);
}

// ---------------------------------------------------------------------------
// Events array codec
// ---------------------------------------------------------------------------
/// The comma-separated renderings of the events.
pub open spec fn json_events_items(es: Seq<KeystrokeEventV>) -> Seq<u8>
    decreases es.len(),
{
    if es.len() == 0 {
        Seq::empty()
    } else if es.len() == 1 {
        json_event(es[0])
    } else {
        json_event(es[0]) + seq![44u8] + json_events_items(es.drop_first())
    }
}

/// The canonical JSON rendering of the whole keystroke vector.
pub open spec fn json_events(es: Seq<KeystrokeEventV>) -> Seq<u8> {
    seq![91u8] + json_events_items(es) + seq![93u8]
}

/// Renders the keystroke vector as canonical JSON; the result is exactly
/// `json_events`.
pub fn encode_events_json(es: &Vec<KeystrokeEvent>) -> (r: Vec<u8>)
    ensures
        r@ == json_events(events_view(es@)),
{
    let mut out: Vec<u8> = Vec::new();
    out.push(91);
    let ghost base = out@;
    let mut i: usize = 0;
    while i < es.len()
        invariant
            i <= es@.len(),
            out@ == base + json_events_items(events_view(es@).take(i as int)),
        decreases es@.len() - i,
    {
        if i > 0 {
            out.push(44);
        }
        emit_event(&mut out, &es[i]);
        proof {
            lemma_events_items_take_step(events_view(es@), i as int);
            if i == 0 {
                assert(json_events_items(events_view(es@).take(0)) =~= Seq::<u8>::empty());
                assert(out@ =~= base + json_events_items(events_view(es@).take(1)));
            } else {
                assert(out@ =~= base + json_events_items(events_view(es@).take(i + 1)));
            }
        }
        i = i + 1;
    }
    out.push(93);
    proof {
        assert(events_view(es@).take(es@.len() as int) =~= events_view(es@));
        assert(out@ =~= json_events(events_view(es@)));
    }
    out
}

/// `json_events_items` of one more event appends a comma (when needed) and
/// the event's rendering.
proof fn lemma_events_items_take_step(es: Seq<KeystrokeEventV>, i: int)
    requires
        0 <= i < es.len(),
    ensures
        i == 0 ==> json_events_items(es.take(1)) == json_event(es[0]),
        i > 0 ==> json_events_items(es.take(i + 1)) == json_events_items(es.take(i)) + seq![44u8]
            + json_event(es[i]),
    decreases i,
{
    if i == 0 {
        assert(es.take(1)[0] == es[0]);
        assert(es.take(1).len() == 1);
    } else {
        let t = es.drop_first();
        assert(es.take(i + 1).drop_first() =~= t.take(i));
        assert(es.take(i).drop_first() =~= t.take(i - 1));
        assert(es.take(i + 1)[0] == es[0]);
        assert(es.take(i)[0] == es[0]);
        lemma_events_items_take_step(t, i - 1);
        assert(t.take(i - 1 + 1) =~= t.take(i));
        assert(t[i - 1] == es[i]);
        if i == 1 {
            assert(json_events_items(es.take(2)) =~= json_event(es[0]) + seq![44u8]
                + json_events_items(t.take(1)));
            assert(json_events_items(es.take(i + 1)) =~= json_events_items(es.take(i)) + seq![44u8]
                + json_event(es[i]));
        } else {
            assert(json_events_items(es.take(i + 1)) =~= json_event(es[0]) + seq![44u8]
                + json_events_items(t.take(i)));
            assert(json_events_items(es.take(i)) =~= json_event(es[0]) + seq![44u8]
                + json_events_items(t.take(i - 1)));
            assert(json_events_items(es.take(i + 1)) =~= json_events_items(es.take(i)) + seq![44u8]
                + json_event(es[i]));
        }
    }
}

/// Prepends parsed events to an event-list result.
pub open spec fn prepend_parsed_events(
    p: Seq<KeystrokeEventV>,
    o: Option<(Seq<KeystrokeEventV>, int)>,
) -> Option<(Seq<KeystrokeEventV>, int)> {
    match o {
        Option::Some((r, j)) => Option::Some((p + r, j)),
        Option::None => Option::None,
    }
}

/// Parses the remainder of an events array after an event: the closing
/// bracket, or a comma and another event.
pub open spec fn parse_events_rest(data: Seq<u8>, i: int) -> Option<(Seq<KeystrokeEventV>, int)>
    decreases data.len() - i,
{
    if !(0 <= i < data.len()) {
        Option::None
    } else if data[i] == 93 {
        Option::Some((Seq::empty(), i + 1))
    } else if data[i] == 44 {
        match parse_event_at(data, i + 1) {
            Option::Some((e, j)) => {
                if i + 1 < j <= data.len() {
                    prepend_parsed_events(seq![e], parse_events_rest(data, j))
                } else {
                    Option::None
                }
            },
            Option::None => Option::None,
        }
    } else {
        Option::None
    }
}

/// What parsing a whole events payload yields: the events exactly when the
/// bytes are a canonical rendering, with nothing after the closing bracket.
pub open spec fn parse_events_spec(data: Seq<u8>) -> Option<Seq<KeystrokeEventV>> {
    if !(data.len() > 0 && data[0] == 91) {
        Option::None
    } else if data.len() == 2 && data[1] == 93 {
        Option::Some(Seq::empty())
    } else {
        match parse_event_at(data, 1) {
            Option::Some((e, j)) => {
                if 1 < j <= data.len() {
                    match parse_events_rest(data, j) {
                        Option::Some((rest, k)) => {
                            if k == data.len() {
                                Option::Some(seq![e] + rest)
                            } else {
                                Option::None
                            }
                        },
                        Option::None => Option::None,
                    }
                } else {
                    Option::None
                }
            },
            Option::None => Option::None,
        }
    }
}

/// Parses a whole events payload; returns exactly `parse_events_spec` (up to
/// the views).
pub fn parse_events(data: &[u8]) -> (r: Option<Vec<KeystrokeEvent>>)
    ensures
        r matches Some(v) ==> parse_events_spec(data@) == Some(events_view(v@)),
        r is None ==> parse_events_spec(data@) is None,
{
    if data.len() == 0 || data[0] != 91 {
        return None;
    }
    if data.len() == 2 && data[1] == 93 {
        let empty: Vec<KeystrokeEvent> = Vec::new();
        proof {
            assert(events_view(empty@) =~= Seq::<KeystrokeEventV>::empty());
        }
        return Some(empty);
    }
    let mut out: Vec<KeystrokeEvent> = Vec::new();
    let mut cur: usize;
    match parse_event(data, 1) {
        Some((e, j)) => {
            out.push(e);
            cur = j;
        },
        None => {
            return None;
        },
    }
    proof {
        assert(events_view(out@) =~= seq![out@[0]@]);
    }
    loop
        invariant
            1 < cur <= data@.len(),
            parse_events_spec(data@) == (match parse_events_rest(data@, cur as int) {
                Option::Some((rest, k)) => {
                    if k == data@.len() {
                        Option::Some(events_view(out@) + rest)
                    } else {
                        Option::None
                    }
                },
                Option::None => Option::None,
            }),
        ensures
            parse_events_spec(data@) == (match parse_events_rest(data@, cur as int) {
                Option::Some((rest, k)) => {
                    if k == data@.len() {
                        Option::Some(events_view(out@) + rest)
                    } else {
                        Option::None
                    }
                },
                Option::None => Option::None,
            }),
            cur < data@.len() ==> data@[cur as int] == 93 && parse_events_rest(data@, cur as int)
                == Some((Seq::<KeystrokeEventV>::empty(), cur + 1)),
            cur >= data@.len() ==> parse_events_rest(data@, cur as int) is None,
        decreases data@.len() - cur,
    {
        if cur >= data.len() {
            break ;
        }
        let b = data[cur];
        if b == 93 {
            break ;
        } else if b == 44 {
            match parse_event(data, cur + 1) {
                Some((e, j)) => {
                    proof {
                        assert(parse_events_rest(data@, cur as int) == prepend_parsed_events(
                            seq![e@],
                            parse_events_rest(data@, j as int),
                        ));
                        lemma_prepend_events_push(
                            events_view(out@),
                            e@,
                            parse_events_rest(data@, j as int),
                        );
                    }
                    let ghost old_out = out@;
                    out.push(e);
                    proof {
                        assert(events_view(out@) =~= events_view(old_out).push(e@));
                    }
                    cur = j;
                },
                None => {
                    return None;
                },
            }
        } else {
            return None;
        }
    }
    if cur < data.len() && cur + 1 == data.len() {
        proof {
            assert(events_view(out@) + Seq::<KeystrokeEventV>::empty() =~= events_view(out@));
        }
        Some(out)
    } else {
        None
    }
}

/// Extending the accumulated prefix by one event commutes with prepending.
proof fn lemma_prepend_events_push(
    p: Seq<KeystrokeEventV>,
    e: KeystrokeEventV,
    o: Option<(Seq<KeystrokeEventV>, int)>,
)
    ensures
        (match prepend_parsed_events(seq![e], o) {
            Option::Some((rest, k)) => Option::Some((p + rest, k)),
            Option::None => Option::None::<(Seq<KeystrokeEventV>, int)>,
        }) == (match o {
            Option::Some((rest, k)) => Option::Some((p.push(e) + rest, k)),
            Option::None => Option::None::<(Seq<KeystrokeEventV>, int)>,
        }),
{
    match o {
        Option::Some((rest, k)) => {
            assert(p + (seq![e] + rest) =~= p.push(e) + rest);
        },
        Option::None => {},
    }
}

/// An events-array tail rendering standing at `i` parses back to the
/// remaining events.
proof fn lemma_parse_events_rest_exact(s: Seq<u8>, i: int, es: Seq<KeystrokeEventV>)
    requires
        0 <= i,
        i + events_tail(es).len() <= s.len(),
        s.subrange(i, i + events_tail(es).len() as int) == events_tail(es),
    ensures
        parse_events_rest(s, i) == Some((es, i + events_tail(es).len() as int)),
    decreases es.len(),
{
    let whole = events_tail(es);
    let l = whole.len() as int;
    if es.len() == 0 {
        crate::json::lemma_seq_prefix_index(s, i, whole, 0);
        assert(s[i] == 93);
    } else {
        let e0 = es[0];
        let rest = es.drop_first();
        let d = json_event(e0);
        let dl = d.len() as int;
        assert(whole == seq![44u8] + d + events_tail(rest));
        crate::json::lemma_seq_prefix_index(s, i, whole, 0);
        assert(s[i] == 44);
        assert(s.subrange(i + 1, i + 1 + dl) =~= d) by {
            lemma_seq_prefix_sub(s, i, whole, 1, 1 + dl);
            assert(whole.subrange(1, 1 + dl) =~= d);
        }
        lemma_parse_event_exact(s, i + 1, e0);
        let j = i + 1 + dl;
        assert(s.subrange(j, j + events_tail(rest).len() as int) =~= events_tail(rest)) by {
            lemma_seq_prefix_sub(s, i, whole, 1 + dl, l);
            assert(whole.subrange(1 + dl, l) =~= events_tail(rest));
        }
        lemma_parse_events_rest_exact(s, j, rest);
        assert(json_event(e0).len() > 0);
        assert(parse_events_rest(s, i) == prepend_parsed_events(
            seq![e0],
            parse_events_rest(s, j),
        ));
        assert(seq![e0] + rest =~= es);
    }
}

/// The tail of an events rendering: for each remaining event a comma and its
/// rendering, then the closing bracket.
pub open spec fn events_tail(es: Seq<KeystrokeEventV>) -> Seq<u8>
    decreases es.len(),
{
    if es.len() == 0 {
        seq![93u8]
    } else {
        seq![44u8] + json_event(es[0]) + events_tail(es.drop_first())
    }
}

/// The item list followed by the closing bracket equals the first event's
/// rendering followed by the tail.
proof fn lemma_events_items_tail(es: Seq<KeystrokeEventV>)
    requires
        es.len() > 0,
    ensures
        json_events_items(es) + seq![93u8] == json_event(es[0]) + events_tail(es.drop_first()),
    decreases es.len(),
{
    if es.len() == 1 {
        assert(json_events_items(es) + seq![93u8] =~= json_event(es[0]) + events_tail(
            es.drop_first(),
        ));
    } else {
        let t = es.drop_first();
        lemma_events_items_tail(t);
        assert(json_events_items(es) == json_event(es[0]) + seq![44u8] + json_events_items(t));
        assert(json_events_items(es) + seq![93u8] =~= json_event(es[0]) + (seq![44u8] + (
        json_events_items(t) + seq![93u8])));
        assert(json_event(es[0]) + (seq![44u8] + (json_event(t[0]) + events_tail(t.drop_first())))
            =~= json_event(es[0]) + events_tail(t));
    }
}

/// Parsing a canonical events rendering yields the events back.
#[verifier::rlimit(100)]
pub proof fn lemma_events_json_round_trip(es: Seq<KeystrokeEventV>)
    ensures
        parse_events_spec(json_events(es)) == Some(es),
{
    let w = json_events(es);
    if es.len() == 0 {
        assert(w =~= seq![91u8, 93u8]);
    } else {
        lemma_events_items_tail(es);
        let e0 = es[0];
        let rest = es.drop_first();
        let d = json_event(e0);
        let dl = d.len() as int;
        assert(w =~= seq![91u8] + (json_events_items(es) + seq![93u8]));
        assert(seq![91u8] + (d + events_tail(rest)) =~= seq![91u8] + d + events_tail(rest));
        assert(w == seq![91u8] + d + events_tail(rest));
        assert(w[0] == 91);
        assert(w.len() == 1 + dl + events_tail(rest).len());
        assert(events_tail(rest).len() >= 1);
        assert(!(w.len() == 2 && w[1] == 93)) by {
            if w.len() == 2 {
                assert(dl >= 1);
                assert(events_tail(rest).len() >= 1);
                assert(w[1] == d[0]);
                assert(d[0] == 123);
            }
        }
        assert(w.subrange(1, 1 + dl) =~= d);
        lemma_parse_event_exact(w, 1, e0);
        assert(w.subrange(1 + dl, w.len() as int) =~= events_tail(rest));
        lemma_parse_events_rest_exact(w, 1 + dl, rest);
        assert(seq![e0] + rest =~= es);
    }
}

} // verus!
