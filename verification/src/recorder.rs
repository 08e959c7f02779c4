//! The recording core: classifies each input byte, reconstructs command
//! lines, runs the paste detector, buffers the terminal output, and derives
//! the session summary. The per-byte transition is stated once as a spec
//! function and the executable code is proved to follow it exactly.

use vstd::prelude::*;

use crate::detector::{
    flags_paste, lemma_evict_total_le, lemma_window_total_push, window_after, window_total,
    PasteDetector,
};
use crate::keys::{decode_key_byte, key_name_spec, key_special_spec};
use crate::meta::{Metadata, MetadataV};
use crate::records::{
    events_view, CommandEvent, CommandEventV, KeystrokeEvent, KeystrokeEventV, SessionSummary,
};

verus! {

/// The views of a sequence of command events, in order.
pub open spec fn commands_view(cs: Seq<CommandEvent>) -> Seq<CommandEventV> {
    Seq::new(cs.len(), |i: int| cs[i]@)
}

} // verus!
use crate::artifact::{integrity_ok_spec, member_lookup, read_artifact_spec};
use crate::state::State;
use crate::text::{ascii_to_string, bytes_eq, trim_ascii, trim_bytes};
use vstd::string::StrSliceExecFns;

verus! {

/// The bytes of the literal `exit`, the line that ends a recording.
pub open spec fn exit_bytes() -> Seq<u8> {
    seq![101u8, 120u8, 105u8, 116u8]
}

/// The characters of an ASCII byte sequence.
pub open spec fn ascii_chars(s: Seq<u8>) -> Seq<char> {
    Seq::new(s.len(), |i: int| s[i] as char)
}

/// The mathematical view of the recording state.
#[verifier::ext_equal]
pub struct RecorderV {
    /// The session counter snapshot for this run.
    pub state: State,
    /// The session metadata.
    pub metadata: MetadataV,
    /// Every classified keystroke, in order of observation.
    pub keystrokes: Seq<KeystrokeEventV>,
    /// Every finished command line, in order.
    pub commands: Seq<CommandEventV>,
    /// Everything the shell wrote, verbatim.
    pub terminal_output: Seq<u8>,
    /// The line being typed, printable bytes only.
    pub current_input: Seq<u8>,
    /// The paste detector's window.
    pub window: Seq<(u64, usize)>,
}

/// The recording state after classifying one input byte at time `now`.
pub open spec fn classify_step(m: RecorderV, b: u8, now: u64) -> RecorderV {
    let printable = !key_special_spec(b);
    let flagged = printable && flags_paste(m.window, now, 1);
    let window1 = if printable {
        if flags_paste(m.window, now, 1) {
            Seq::<(u64, usize)>::empty()
        } else {
            window_after(m.window, now, 1)
        }
    } else {
        m.window
    };
    let trimmed = trim_bytes(m.current_input);
    let commands1 = if b == 10 || b == 13 {
        if trimmed.len() > 0 && trimmed != exit_bytes() {
            m.commands.push(CommandEventV { timestamp: now, command: ascii_chars(trimmed) })
        } else {
            m.commands
        }
    } else {
        m.commands
    };
    let line1 = if b == 10 || b == 13 {
        Seq::<u8>::empty()
    } else if b == 127 || b == 8 {
        if m.current_input.len() > 0 {
            m.current_input.drop_last()
        } else {
            m.current_input
        }
    } else if 32 <= b && b < 127 {
        m.current_input.push(b)
    } else {
        m.current_input
    };
    let event = KeystrokeEventV {
        timestamp: now,
        key_code: b as u32,
        key_name: key_name_spec(b),
        raw_bytes: seq![b],
        is_paste: flagged,
    };
    RecorderV {
        keystrokes: m.keystrokes.push(event),
        commands: commands1,
        current_input: line1,
        window: window1,
        ..m
    }
}

/// The recording state after classifying a whole input chunk at time `now`.
pub open spec fn classify_run(m: RecorderV, data: Seq<u8>, now: u64) -> RecorderV
    decreases data.len(),
{
    if data.len() == 0 {
        m
    } else {
        classify_run(classify_step(m, data[0], now), data.drop_first(), now)
    }
}

/// Classifying one more byte steps the run once.
proof fn lemma_classify_run_take_step(m: RecorderV, data: Seq<u8>, now: u64, i: int)
    requires
        0 <= i < data.len(),
    ensures
        classify_run(m, data.take(i + 1), now) == classify_step(
            classify_run(m, data.take(i), now),
            data[i],
            now,
        ),
    decreases i,
{
    if i == 0 {
        assert(data.take(1).drop_first() =~= Seq::<u8>::empty());
        assert(data.take(0) =~= Seq::<u8>::empty());
        assert(data.take(1)[0] == data[0]);
        assert(classify_run(classify_step(m, data[0], now), Seq::<u8>::empty(), now)
            == classify_step(m, data[0], now));
        assert(classify_run(m, Seq::<u8>::empty(), now) == m);
    } else {
        let t = data.drop_first();
        assert(data.take(i + 1).drop_first() =~= t.take(i));
        assert(data.take(i).drop_first() =~= t.take(i - 1));
        assert(data.take(i + 1)[0] == data[0]);
        assert(data.take(i)[0] == data[0]);
        lemma_classify_run_take_step(classify_step(m, data[0], now), t, now, i - 1);
        assert(t.take(i - 1 + 1) =~= t.take(i));
        assert(t[i - 1] == data[i]);
    }
}

/// The student-side recorder: the session counter snapshot, the metadata, and
/// everything captured so far.
pub struct Recorder {
    state: State,
    metadata: Metadata,
    keystrokes: Vec<KeystrokeEvent>,
    commands: Vec<CommandEvent>,
    terminal_output: Vec<u8>,
    current_input: Vec<u8>,
    paste_detector: PasteDetector,
}

impl View for Recorder {
    type V = RecorderV;

    closed spec fn view(&self) -> RecorderV {
        RecorderV {
            state: self.state,
            metadata: self.metadata@,
            keystrokes: events_view(self.keystrokes@),
            commands: commands_view(self.commands@),
            terminal_output: self.terminal_output@,
            current_input: self.current_input@,
            window: self.paste_detector@,
        }
    }
}

impl Recorder {
    /// The recorder's internal invariant: the line buffer holds printable
    /// bytes, each keystroke carries exactly its one raw byte, and the
    /// detector window never holds more characters than keystrokes seen.
    pub closed spec fn wf(&self) -> bool {
        &&& forall|i: int|
            0 <= i < self.current_input@.len() ==> 32 <= #[trigger] self.current_input@[i] < 127
        &&& forall|i: int|
            0 <= i < self.keystrokes@.len() ==> (#[trigger] self.keystrokes@[i]@).raw_bytes.len()
                == 1
        &&& window_total(self.paste_detector@) <= self.keystrokes@.len()
        &&& self.paste_detector.wf()
    }

    /// Starts a recording from a counter snapshot and fresh metadata, with
    /// nothing captured yet.
    pub fn new(state: State, metadata: Metadata) -> (r: Recorder)
        ensures
            r@.state == state,
            r@.metadata == metadata@,
            r@.keystrokes.len() == 0,
            r@.commands.len() == 0,
            r@.terminal_output.len() == 0,
            r@.current_input.len() == 0,
            r@.window.len() == 0,
            r.wf(),
    {
        let r = Recorder {
            state,
            metadata,
            keystrokes: Vec::new(),
            commands: Vec::new(),
            terminal_output: Vec::new(),
            current_input: Vec::new(),
            paste_detector: PasteDetector::new(),
        };
        proof {
            assert(events_view(r.keystrokes@) =~= Seq::<KeystrokeEventV>::empty());
            assert(commands_view(r.commands@) =~= Seq::<CommandEventV>::empty());
        }
        r
    }

    /// The counter snapshot taken at start.
    pub fn state(&self) -> (r: State)
        ensures
            r == self@.state,
    {
        self.state
    }

    /// Classifies one input byte: the key's name and whether it is special.
    pub fn decode_key(&self, byte: u8) -> (r: (String, bool))
        ensures
            r.0@ == key_name_spec(byte),
            r.1 == key_special_spec(byte),
    {
        decode_key_byte(byte)
    }

    /// Whether the finished part of the current line is exactly `exit`.
    pub fn should_exit(&self) -> (r: bool)
        ensures
            r == (trim_bytes(self@.current_input) == exit_bytes()),
    {
        let trimmed = trim_ascii(&self.current_input);
        let exit_lit: [u8; 4] = [101, 120, 105, 116];
        proof {
            assert(exit_lit@ =~= exit_bytes());
        }
        bytes_eq(trimmed.as_slice(), exit_lit.as_slice())
    }

    /// Appends a chunk the shell wrote to the captured terminal output.
    pub fn record_output(&mut self, data: &[u8])
        requires
            old(self).wf(),
        ensures
            final(self)@ == (RecorderV {
                terminal_output: old(self)@.terminal_output + data@,
                ..old(self)@
            }),
            final(self).wf(),
    {
        self.terminal_output.extend_from_slice(data);
        proof {
            assert(self@ =~~= (RecorderV {
                terminal_output: old(self)@.terminal_output + data@,
                ..old(self)@
            }));
        }
    }

    /// Classifies a chunk of user input observed at `now_ms`: updates the
    /// keystroke vector, the command list, the line buffer and the paste
    /// window exactly as `classify_run` states.
    pub fn process_input(&mut self, data: &[u8], now_ms: u64)
        requires
            old(self).wf(),
            old(self)@.keystrokes.len() + data@.len() <= usize::MAX,
        ensures
            final(self)@ == classify_run(old(self)@, data@, now_ms),
            final(self).wf(),
    {
        let ghost m0 = self@;
        let mut i: usize = 0;
        while i < data.len()
            invariant
                i <= data@.len(),
                self.wf(),
                m0.keystrokes.len() + data@.len() <= usize::MAX,
                self@ == classify_run(m0, data@.take(i as int), now_ms),
                self@.keystrokes.len() == m0.keystrokes.len() + i,
            decreases data@.len() - i,
        {
            proof {
                assert(data@.take(i as int).len() == i);
                lemma_classify_run_take_step(m0, data@, now_ms, i as int);
            }
            let ghost prev = self@;
            let b = data[i];
            let (key_name, is_special) = self.decode_key(b);
            let is_paste: bool = if !is_special && b >= 32 && b < 127 {
                self.paste_detector.check_paste(now_ms, 1)
            } else {
                false
            };
            proof {
                lemma_window_total_push(prev.window, now_ms, 1);
                lemma_evict_total_le(prev.window.push((now_ms, 1usize)), now_ms);
                assert(window_total(Seq::<(u64, usize)>::empty()) == 0);
            }
            if b == 10 || b == 13 {
                let trimmed = trim_ascii(&self.current_input);
                proof {
                    crate::text::lemma_trim_preserves_range(self.current_input@);
                }
                if trimmed.len() > 0 {
                    let exit_lit: [u8; 4] = [101, 120, 105, 116];
                    proof {
                        assert(exit_lit@ =~= exit_bytes());
                    }
                    if !bytes_eq(trimmed.as_slice(), exit_lit.as_slice()) {
                        let command = ascii_to_string(&trimmed);
                        proof {
                            assert(command@ =~= ascii_chars(trimmed@));
                        }
                        self.commands.push(CommandEvent { timestamp: now_ms, command });
                    }
                }
                self.current_input.clear();
            } else if b == 127 || b == 8 {
                self.current_input.pop();
            } else if b >= 32 && b < 127 && !is_special {
                self.current_input.push(b);
            }
            let mut raw_bytes: Vec<u8> = Vec::new();
            raw_bytes.push(b);
            let event = KeystrokeEvent {
                timestamp: now_ms,
                key_code: b as u32,
                key_name,
                raw_bytes,
                is_paste,
            };
            proof {
                assert(event@.raw_bytes =~= seq![b]);
            }
            self.keystrokes.push(event);
            proof {
                let stepped = classify_step(prev, b, now_ms);
                assert(self@.keystrokes =~= prev.keystrokes.push(event@));
                assert(self@.commands =~= stepped.commands);
                assert(self@ =~~= stepped);
            }
            i = i + 1;
        }
        proof {
            assert(data@.take(data@.len() as int) =~= data@);
        }
    }

    /// How many keystrokes carry the given name.
    pub open spec fn count_name(es: Seq<KeystrokeEventV>, name: Seq<char>) -> nat
        decreases es.len(),
    {
        if es.len() == 0 {
            0
        } else {
            (if es[0].key_name == name {
                1nat
            } else {
                0nat
            }) + Self::count_name(es.drop_first(), name)
        }
    }

    /// How many keystrokes the paste detector flagged.
    pub open spec fn count_paste(es: Seq<KeystrokeEventV>) -> nat
        decreases es.len(),
    {
        if es.len() == 0 {
            0
        } else {
            (if es[0].is_paste {
                1nat
            } else {
                0nat
            }) + Self::count_paste(es.drop_first())
        }
    }

    /// The raw bytes carried by the flagged keystrokes.
    pub open spec fn paste_chars(es: Seq<KeystrokeEventV>) -> nat
        decreases es.len(),
    {
        if es.len() == 0 {
            0
        } else {
            (if es[0].is_paste {
                es[0].raw_bytes.len()
            } else {
                0
            }) + Self::paste_chars(es.drop_first())
        }
    }

    /// The summary the keystroke vector and command list determine.
    pub open spec fn summary_spec(es: Seq<KeystrokeEventV>, commands: nat) -> SessionSummary {
        SessionSummary {
            total_keystrokes: es.len() as usize,
            enter_pressed: Self::count_name(es, "Enter"@) as usize,
            backspace_used: Self::count_name(es, "Backspace"@) as usize,
            delete_used: Self::count_name(es, "Delete"@) as usize,
            paste_events: Self::count_paste(es) as usize,
            total_pasted_chars: Self::paste_chars(es) as usize,
            commands_executed: commands as usize,
        }
    }

    /// Derives the summary of the session so far, exactly as `summary_spec`
    /// states.
    pub fn generate_summary(&self) -> (r: SessionSummary)
        requires
            self.wf(),
        ensures
            r == Self::summary_spec(self@.keystrokes, self@.commands.len()),
    {
        let enter_name = String::from_str("Enter");
        let backspace_name = String::from_str("Backspace");
        let delete_name = String::from_str("Delete");
        proof {
            reveal_strlit("Enter");
            reveal_strlit("Backspace");
            reveal_strlit("Delete");
            assert("Enter"@.len() == 5 && "Backspace"@.len() == 9 && "Delete"@.len() == 6);
        }
        let ghost es = self@.keystrokes;
        let mut enter_pressed: usize = 0;
        let mut backspace_used: usize = 0;
        let mut delete_used: usize = 0;
        let mut paste_events: usize = 0;
        let mut total_pasted_chars: usize = 0;
        let mut i: usize = 0;
        while i < self.keystrokes.len()
            invariant
                self.wf(),
                es == self@.keystrokes,
                i <= es.len(),
                enter_name@ == "Enter"@,
                backspace_name@ == "Backspace"@,
                delete_name@ == "Delete"@,
                enter_pressed == Self::count_name(es.take(i as int), "Enter"@),
                backspace_used == Self::count_name(es.take(i as int), "Backspace"@),
                delete_used == Self::count_name(es.take(i as int), "Delete"@),
                paste_events == Self::count_paste(es.take(i as int)),
                total_pasted_chars == Self::paste_chars(es.take(i as int)),
            decreases es.len() - i,
        {
            proof {
                reveal_strlit("Enter");
                reveal_strlit("Backspace");
                reveal_strlit("Delete");
                assert("Enter"@.len() == 5 && "Backspace"@.len() == 9 && "Delete"@.len() == 6);
                lemma_count_name_take_step(es, "Enter"@, i as int);
                lemma_count_name_take_step(es, "Backspace"@, i as int);
                lemma_count_name_take_step(es, "Delete"@, i as int);
                lemma_count_paste_take_step(es, i as int);
                lemma_paste_chars_take_step(es, i as int);
                lemma_count_name_le(es, "Enter"@, i + 1);
                lemma_count_name_le(es, "Backspace"@, i + 1);
                lemma_count_name_le(es, "Delete"@, i + 1);
                lemma_count_paste_le(es, i + 1);
                lemma_paste_chars_le(self, i + 1);
                assert(es[i as int] == self.keystrokes@[i as int]@);
            }
            let e = &self.keystrokes[i];
            if e.key_name == enter_name {
                enter_pressed = enter_pressed + 1;
            } else if e.key_name == backspace_name {
                backspace_used = backspace_used + 1;
            } else if e.key_name == delete_name {
                delete_used = delete_used + 1;
            }
            if e.is_paste {
                paste_events = paste_events + 1;
                total_pasted_chars = total_pasted_chars + e.raw_bytes.len();
            }
            i = i + 1;
        }
        proof {
            assert(es.take(es.len() as int) =~= es);
        }
        SessionSummary {
            total_keystrokes: self.keystrokes.len(),
            enter_pressed,
            backspace_used,
            delete_used,
            paste_events,
            total_pasted_chars,
            commands_executed: self.commands.len(),
        }
    }
}

/// Counting one more keystroke adds one exactly when the name matches.
proof fn lemma_count_name_take_step(es: Seq<KeystrokeEventV>, name: Seq<char>, i: int)
    requires
        0 <= i < es.len(),
    ensures
        Recorder::count_name(es.take(i + 1), name) == Recorder::count_name(es.take(i), name) + (
        if es[i].key_name == name {
            1nat
        } else {
            0nat
        }),
    decreases i,
{
    if i == 0 {
        assert(es.take(1).drop_first() =~= Seq::<KeystrokeEventV>::empty());
        assert(es.take(0) =~= Seq::<KeystrokeEventV>::empty());
        assert(es.take(1)[0] == es[0]);
        assert(Recorder::count_name(Seq::<KeystrokeEventV>::empty(), name) == 0);
    } else {
        let t = es.drop_first();
        assert(es.take(i + 1).drop_first() =~= t.take(i));
        assert(es.take(i).drop_first() =~= t.take(i - 1));
        assert(es.take(i + 1)[0] == es[0]);
        assert(es.take(i)[0] == es[0]);
        lemma_count_name_take_step(t, name, i - 1);
        assert(t.take(i - 1 + 1) =~= t.take(i));
        assert(t[i - 1] == es[i]);
    }
}

/// A prefix never counts more named keystrokes than it has entries.
proof fn lemma_count_name_le(es: Seq<KeystrokeEventV>, name: Seq<char>, k: int)
    requires
        0 <= k <= es.len(),
    ensures
        Recorder::count_name(es.take(k), name) <= k,
    decreases k,
{
    if k > 0 {
        lemma_count_name_take_step(es, name, k - 1);
        lemma_count_name_le(es, name, k - 1);
    } else {
        assert(es.take(0) =~= Seq::<KeystrokeEventV>::empty());
    }
}

/// Counting one more keystroke adds one exactly when it was flagged.
proof fn lemma_count_paste_take_step(es: Seq<KeystrokeEventV>, i: int)
    requires
        0 <= i < es.len(),
    ensures
        Recorder::count_paste(es.take(i + 1)) == Recorder::count_paste(es.take(i)) + (if es[
            i
        ].is_paste {
            1nat
        } else {
            0nat
        }),
    decreases i,
{
    if i == 0 {
        assert(es.take(1).drop_first() =~= Seq::<KeystrokeEventV>::empty());
        assert(es.take(0) =~= Seq::<KeystrokeEventV>::empty());
        assert(es.take(1)[0] == es[0]);
        assert(Recorder::count_paste(Seq::<KeystrokeEventV>::empty()) == 0);
    } else {
        let t = es.drop_first();
        assert(es.take(i + 1).drop_first() =~= t.take(i));
        assert(es.take(i).drop_first() =~= t.take(i - 1));
        assert(es.take(i + 1)[0] == es[0]);
        assert(es.take(i)[0] == es[0]);
        lemma_count_paste_take_step(t, i - 1);
        assert(t.take(i - 1 + 1) =~= t.take(i));
        assert(t[i - 1] == es[i]);
    }
}

/// A prefix never counts more flagged keystrokes than it has entries.
proof fn lemma_count_paste_le(es: Seq<KeystrokeEventV>, k: int)
    requires
        0 <= k <= es.len(),
    ensures
        Recorder::count_paste(es.take(k)) <= k,
    decreases k,
{
    if k > 0 {
        lemma_count_paste_take_step(es, k - 1);
        lemma_count_paste_le(es, k - 1);
    } else {
        assert(es.take(0) =~= Seq::<KeystrokeEventV>::empty());
    }
}

/// Summing one more keystroke adds its raw length when it was flagged.
proof fn lemma_paste_chars_take_step(es: Seq<KeystrokeEventV>, i: int)
    requires
        0 <= i < es.len(),
    ensures
        Recorder::paste_chars(es.take(i + 1)) == Recorder::paste_chars(es.take(i)) + (if es[
            i
        ].is_paste {
            es[i].raw_bytes.len()
        } else {
            0
        }),
    decreases i,
{
    if i == 0 {
        assert(es.take(1).drop_first() =~= Seq::<KeystrokeEventV>::empty());
        assert(es.take(0) =~= Seq::<KeystrokeEventV>::empty());
        assert(es.take(1)[0] == es[0]);
        assert(Recorder::paste_chars(Seq::<KeystrokeEventV>::empty()) == 0);
    } else {
        let t = es.drop_first();
        assert(es.take(i + 1).drop_first() =~= t.take(i));
        assert(es.take(i).drop_first() =~= t.take(i - 1));
        assert(es.take(i + 1)[0] == es[0]);
        assert(es.take(i)[0] == es[0]);
        lemma_paste_chars_take_step(t, i - 1);
        assert(t.take(i - 1 + 1) =~= t.take(i));
        assert(t[i - 1] == es[i]);
    }
}

/// With one raw byte per keystroke, a prefix's pasted characters never exceed
/// its length.
proof fn lemma_paste_chars_le(r: &Recorder, k: int)
    requires
        r.wf(),
        0 <= k <= r@.keystrokes.len(),
    ensures
        Recorder::paste_chars(r@.keystrokes.take(k)) <= k,
    decreases k,
{
    if k > 0 {
        lemma_paste_chars_take_step(r@.keystrokes, k - 1);
        lemma_paste_chars_le(r, k - 1);
    } else {
        assert(r@.keystrokes.take(0) =~= Seq::<KeystrokeEventV>::empty());
    }
}

/// The artifact's file name: the fixed stem, the username, and the session's
/// start time in seconds.
pub open spec fn artifact_filename(username: Seq<char>, start_time: u64) -> Seq<char> {
    "exam-result-"@ + username + "-"@ + ascii_chars(crate::text::dec_of(start_time as nat))
        + ".zip"@
}

/// Seals the five payloads: encrypts each, binds them with the content
/// digest, and packs the six members. The ghost witness names the members and
/// the digest characters, so the caller can conclude what reading gives back.
/// An archive-side failure can only come from a payload beyond the archive
/// format's plain-size field; the one failure left open is the outer seal of
/// an archive beyond the cipher's 2^36-byte ceiling.
#[verifier::rlimit(100)]
fn seal_artifact(
    events_json: &Vec<u8>,
    summary_json: &Vec<u8>,
    metadata_json: &Vec<u8>,
    terminal: &Vec<u8>,
    state_json: &Vec<u8>,
    password: &str,
) -> (r: Result<(Vec<u8>, Ghost<(Seq<(Seq<char>, Seq<u8>)>, Seq<char>)>), crate::artifact::PackError>)
    ensures
        r matches Ok(p) ==> ({
            let fv = p.1@.0;
            let h = p.1@.1;
            &&& crate::artifact::artifact_members(p.0@, password@) == Some(fv)
            &&& fv.len() == 6
            &&& fv[0].0 == "events.json.enc"@
            &&& fv[1].0 == "summary.json.enc"@
            &&& fv[2].0 == "metadata.json.enc"@
            &&& fv[3].0 == "terminal_output.log.enc"@
            &&& fv[4].0 == "state_copy.json.enc"@
            &&& fv[5].0 == "integrity.sha256"@
            &&& crate::crypto::decrypt_spec(fv[0].1, password@) == Some(events_json@)
            &&& crate::crypto::decrypt_spec(fv[1].1, password@) == Some(summary_json@)
            &&& crate::crypto::decrypt_spec(fv[2].1, password@) == Some(metadata_json@)
            &&& crate::crypto::decrypt_spec(fv[3].1, password@) == Some(terminal@)
            &&& crate::crypto::decrypt_spec(fv[4].1, password@) == Some(state_json@)
            &&& fv[5].1 == vstd::utf8::encode_utf8(h)
            &&& trim_bytes(fv[5].1) == fv[5].1
            &&& fv[5].1 == crate::text::hex_of(
                crate::crypto::sha256_of(fv[0].1 + fv[1].1 + fv[2].1 + fv[3].1 + fv[4].1),
            )
        }),
        (r matches Err(e) && e matches crate::artifact::PackError::Archive(_)) ==> ({
            ||| events_json@.len() + 28 > 0xFFFFFFFF
            ||| summary_json@.len() + 28 > 0xFFFFFFFF
            ||| metadata_json@.len() + 28 > 0xFFFFFFFF
            ||| terminal@.len() + 28 > 0xFFFFFFFF
            ||| state_json@.len() + 28 > 0xFFFFFFFF
        }),
{
    let events_enc = match crate::crypto::encrypt_file(events_json.as_slice(), password) {
        Ok(v) => v,
        Err(e) => {
            return Err(crate::artifact::PackError::Crypto(e));
        },
    };
    let summary_enc = match crate::crypto::encrypt_file(summary_json.as_slice(), password) {
        Ok(v) => v,
        Err(e) => {
            return Err(crate::artifact::PackError::Crypto(e));
        },
    };
    let metadata_enc = match crate::crypto::encrypt_file(metadata_json.as_slice(), password) {
        Ok(v) => v,
        Err(e) => {
            return Err(crate::artifact::PackError::Crypto(e));
        },
    };
    let terminal_enc = match crate::crypto::encrypt_file(terminal.as_slice(), password) {
        Ok(v) => v,
        Err(e) => {
            return Err(crate::artifact::PackError::Crypto(e));
        },
    };
    let state_enc = match crate::crypto::encrypt_file(state_json.as_slice(), password) {
        Ok(v) => v,
        Err(e) => {
            return Err(crate::artifact::PackError::Crypto(e));
        },
    };
    let mut integrity_data: Vec<u8> = Vec::new();
    integrity_data.extend_from_slice(events_enc.as_slice());
    integrity_data.extend_from_slice(summary_enc.as_slice());
    integrity_data.extend_from_slice(metadata_enc.as_slice());
    integrity_data.extend_from_slice(terminal_enc.as_slice());
    integrity_data.extend_from_slice(state_enc.as_slice());
    let integrity_hash = crate::crypto::calculate_file_hash(integrity_data.as_slice());
    let hash_bytes = integrity_hash.as_str().as_bytes_vec();
    let ghost ee = events_enc@;
    let ghost se = summary_enc@;
    let ghost me = metadata_enc@;
    let ghost te = terminal_enc@;
    let ghost ce = state_enc@;
    let ghost ih = hash_bytes@;
    proof {
        assert(integrity_data@ =~= ee + se + me + te + ce);
        crate::crypto::lemma_hex_of_ascii(crate::crypto::sha256_of(integrity_data@));
        assert(ih.len() == 64);
        assert(!crate::text::is_ascii_ws(ih[0]) && !crate::text::is_ascii_ws(ih[63]));
        crate::text::lemma_trim_no_ws_ends(ih);
    }
    let mut files: Vec<(String, Vec<u8>)> = Vec::new();
    files.push((String::from_str("events.json.enc"), events_enc));
    files.push((String::from_str("summary.json.enc"), summary_enc));
    files.push((String::from_str("metadata.json.enc"), metadata_enc));
    files.push((String::from_str("terminal_output.log.enc"), terminal_enc));
    files.push((String::from_str("state_copy.json.enc"), state_enc));
    files.push((String::from_str("integrity.sha256"), hash_bytes));
    proof {
        reveal_strlit("events.json.enc");
        reveal_strlit("summary.json.enc");
        reveal_strlit("metadata.json.enc");
        reveal_strlit("terminal_output.log.enc");
        reveal_strlit("state_copy.json.enc");
        reveal_strlit("integrity.sha256");
        assert forall|i: int|
            0 <= i < files@.len() implies vstd::utf8::encode_utf8(
            (#[trigger] files@[i]).0@,
        ).len() < 65536 by {
            crate::text::lemma_encode_utf8_len(files@[i].0@);
            assert(files@[i].0@.len() <= 23);
        }
    }
    let bytes = match crate::artifact::create_password_protected_zip(&files, password) {
        Ok(b) => b,
        Err(e) => {
            proof {
                if e matches crate::artifact::PackError::Archive(_) {
                    let i = choose|i: int|
                        0 <= i < files@.len() && (#[trigger] files@[i]).1@.len() > 0xFFFFFFFF;
                    assert(files@[0].1@ == ee && files@[1].1@ == se && files@[2].1@ == me
                        && files@[3].1@ == te && files@[4].1@ == ce && files@[5].1@ == ih);
                    assert(ih.len() == 64);
                }
            }
            return Err(e);
        },
    };
    let ghost fv = crate::zips::files_view(files@);
    proof {
        assert(fv[0] == (files@[0].0@, files@[0].1@));
        assert(fv[1] == (files@[1].0@, files@[1].1@));
        assert(fv[2] == (files@[2].0@, files@[2].1@));
        assert(fv[3] == (files@[3].0@, files@[3].1@));
        assert(fv[4] == (files@[4].0@, files@[4].1@));
        assert(fv[5] == (files@[5].0@, files@[5].1@));
    }
    Ok((bytes, Ghost((fv, integrity_hash@))))
}

impl Recorder {
    /// Finalizes the session: stamps the end time, derives the summary,
    /// renders and encrypts the five payloads, binds them with the content
    /// digest, and seals the archive under the instructor password. The
    /// artifact bytes read back, under the same password, as exactly what was
    /// recorded, and their integrity check passes. An archive-side failure can
    /// only come from a payload beyond the archive format's plain-size field;
    /// the one failure left open is the outer seal of an archive beyond the
    /// cipher's 2^36-byte ceiling.
    #[verifier::rlimit(100)]
    pub fn finalize(&mut self, end_time: u64, password: &str) -> (r: Result<
        (String, Vec<u8>),
        crate::artifact::PackError,
    >)
        requires
            old(self).wf(),
        ensures
            final(self).wf(),
            final(self)@.state == old(self)@.state,
            final(self)@.keystrokes == old(self)@.keystrokes,
            final(self)@.commands == old(self)@.commands,
            final(self)@.terminal_output == old(self)@.terminal_output,
            final(self)@.metadata.end_time == Some(end_time),
            final(self)@.metadata.username == old(self)@.metadata.username,
            final(self)@.metadata.start_time == old(self)@.metadata.start_time,
            r matches Ok(p) ==> ({
                &&& read_artifact_spec(p.1@, password@) matches Some(d)
                &&& read_artifact_spec(p.1@, password@).unwrap().events == old(self)@.keystrokes
                &&& read_artifact_spec(p.1@, password@).unwrap().summary == Recorder::summary_spec(
                    old(self)@.keystrokes,
                    old(self)@.commands.len(),
                )
                &&& read_artifact_spec(p.1@, password@).unwrap().metadata == final(self)@.metadata
                &&& read_artifact_spec(p.1@, password@).unwrap().terminal_output == old(
                    self,
                )@.terminal_output
                &&& read_artifact_spec(p.1@, password@).unwrap().state_copy == old(self)@.state
                &&& integrity_ok_spec(p.1@, password@) == Some(true)
                &&& p.0@ == artifact_filename(old(self)@.metadata.username, old(self)@.metadata.start_time)
            }),
            (r matches Err(e) && e matches crate::artifact::PackError::Archive(_)) ==> ({
                ||| crate::records::json_events(old(self)@.keystrokes).len() + 28 > 0xFFFFFFFF
                ||| crate::records::json_summary(
                    Recorder::summary_spec(old(self)@.keystrokes, old(self)@.commands.len()),
                ).len() + 28 > 0xFFFFFFFF
                ||| crate::meta::json_metadata(final(self)@.metadata).len() + 28 > 0xFFFFFFFF
                ||| old(self)@.terminal_output.len() + 28 > 0xFFFFFFFF
                ||| crate::state::json_state(old(self)@.state).len() + 28 > 0xFFFFFFFF
            }),
    {
        self.metadata.finalize(end_time);
        let summary = self.generate_summary();
        let events_json = crate::records::encode_events_json(&self.keystrokes);
        let summary_json = crate::records::encode_summary_json(&summary);
        let metadata_json = crate::meta::encode_metadata_json(&self.metadata);
        let state_json = crate::state::encode_state_json(&self.state);
        let (bytes, witness) = match seal_artifact(
            &events_json,
            &summary_json,
            &metadata_json,
            &self.terminal_output,
            &state_json,
            password,
        ) {
            Ok(p) => p,
            Err(e) => {
                return Err(e);
            },
        };
        let mut filename = String::from_str("exam-result-");
        filename.append(self.metadata.username.as_str());
        filename.append("-");
        let start_digits = crate::text::fmt_u64(self.metadata.start_time);
        proof {
            crate::json::lemma_dec_of_props(self.metadata.start_time as nat);
        }
        let digits = ascii_to_string(&start_digits);
        filename.append(digits.as_str());
        filename.append(".zip");
        proof {
            crate::records::lemma_events_json_round_trip(events_view(self.keystrokes@));
            crate::records::lemma_summary_json_round_trip(summary);
            crate::meta::lemma_metadata_json_round_trip(self.metadata@);
            crate::state::lemma_state_json_round_trip(self.state);
            crate::artifact::lemma_artifact_read_back(
                bytes@,
                password@,
                witness@.0,
                events_json@,
                summary_json@,
                metadata_json@,
                old(self)@.terminal_output,
                state_json@,
                events_view(self.keystrokes@),
                summary,
                self.metadata@,
                self.state,
                witness@.1,
            );
            assert(events_view(self.keystrokes@) == old(self)@.keystrokes);
            assert(digits@ =~= ascii_chars(crate::text::dec_of(self@.metadata.start_time as nat)));
        }
        Ok((filename, bytes))
    }
}

} // verus!
