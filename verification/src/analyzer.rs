//! The instructor-side analysis of a read artifact: header fields, the
//! command timeline reconstructed from the keystroke vector, the suspicious
//! paste activity, and human-readable durations and clock times.

use vstd::prelude::*;

use crate::artifact::DecryptedData;
use crate::recorder::ascii_chars;
use crate::records::KeystrokeEventV;
use crate::text::{ascii_to_string, dec_of, fmt_u64, push_char, trim_ascii, trim_bytes};

verus! {

/// Two decimal digits, zero-padded.
pub open spec fn pad2(n: u64) -> Seq<char>
    recommends
        n < 100,
{
    if n < 10 {
        seq!['0'] + ascii_chars(dec_of(n as nat))
    } else {
        ascii_chars(dec_of(n as nat))
    }
}

/// The rendering `format_duration` produces: hours only when there are any,
/// minutes and seconds zero-padded to two digits.
pub open spec fn duration_chars(seconds: u64) -> Seq<char> {
    let hours = seconds / 3600;
    let minutes = (seconds % 3600) / 60;
    let secs = seconds % 60;
    if hours > 0 {
        ascii_chars(dec_of(hours as nat)) + "h "@ + pad2(minutes) + "m "@ + pad2(secs) + "s"@
    } else {
        ascii_chars(dec_of(minutes as nat)) + "m "@ + pad2(secs) + "s"@
    }
}

/// The rendering `format_timestamp` produces: the time of day, UTC, as
/// `HH:MM:SS`.
pub open spec fn timestamp_chars(timestamp_ms: u64) -> Seq<char> {
    let secs = timestamp_ms / 1000;
    pad2((secs / 3600) % 24) + ":"@ + pad2((secs % 3600) / 60) + ":"@ + pad2(secs % 60)
}

/// Appends two zero-padded decimal digits for `n`.
fn push_pad2(out: &mut String, n: u64)
    requires
        n < 100,
    ensures
        final(out)@ == old(out)@ + pad2(n),
{
    if n < 10 {
        push_char(out, '0');
    }
    let digits = fmt_u64(n);
    proof {
        crate::json::lemma_dec_of_props(n as nat);
    }
    let ds = ascii_to_string(&digits);
    out.append(ds.as_str());
    proof {
        assert(ds@ =~= ascii_chars(dec_of(n as nat)));
        if n < 10 {
            assert(out@ =~= old(out)@ + pad2(n));
        } else {
            assert(out@ =~= old(out)@ + pad2(n));
        }
    }
}

/// Renders a duration in whole seconds as hours, minutes and seconds; the
/// result is exactly `duration_chars`.
pub fn format_duration(seconds: u64) -> (r: String)
    ensures
        r@ == duration_chars(seconds),
{
    let hours = seconds / 3600;
    let minutes = (seconds % 3600) / 60;
    let secs = seconds % 60;
    let mut out = String::new();
    if hours > 0 {
        let hd = fmt_u64(hours);
        proof {
            crate::json::lemma_dec_of_props(hours as nat);
        }
        let hs = ascii_to_string(&hd);
        out.append(hs.as_str());
        out.append("h ");
        push_pad2(&mut out, minutes);
        out.append("m ");
        push_pad2(&mut out, secs);
        out.append("s");
        proof {
            assert(hs@ =~= ascii_chars(dec_of(hours as nat)));
            assert(out@ =~= duration_chars(seconds));
        }
    } else {
        let md = fmt_u64(minutes);
        proof {
            crate::json::lemma_dec_of_props(minutes as nat);
        }
        let ms = ascii_to_string(&md);
        out.append(ms.as_str());
        out.append("m ");
        push_pad2(&mut out, secs);
        out.append("s");
        proof {
            assert(ms@ =~= ascii_chars(dec_of(minutes as nat)));
            assert(out@ =~= duration_chars(seconds));
        }
    }
    out
}

/// Renders a millisecond timestamp as the UTC time of day `HH:MM:SS`; the
/// result is exactly `timestamp_chars`.
pub fn format_timestamp(timestamp_ms: u64) -> (r: String)
    ensures
        r@ == timestamp_chars(timestamp_ms),
{
    let secs = timestamp_ms / 1000;
    let mut out = String::new();
    push_pad2(&mut out, (secs / 3600) % 24);
    out.append(":");
    push_pad2(&mut out, (secs % 3600) / 60);
    out.append(":");
    push_pad2(&mut out, secs % 60);
    proof {
        assert(out@ =~= timestamp_chars(timestamp_ms));
    }
    out
}

/// One flagged activity in the report.
#[derive(Debug, Clone)]
pub struct SuspiciousActivity {
    /// The clock time of the flagged keystroke.
    pub timestamp: String,
    /// What was detected.
    pub description: String,
    /// `HIGH` or `MEDIUM`.
    pub severity: String,
}

/// The mathematical view of a flagged activity.
pub struct SuspiciousActivityV {
    /// The clock time of the flagged keystroke.
    pub timestamp: Seq<char>,
    /// What was detected.
    pub description: Seq<char>,
    /// `HIGH` or `MEDIUM`.
    pub severity: Seq<char>,
}

impl View for SuspiciousActivity {
    type V = SuspiciousActivityV;

    open spec fn view(&self) -> SuspiciousActivityV {
        SuspiciousActivityV {
            timestamp: self.timestamp@,
            description: self.description@,
            severity: self.severity@,
        }
    }
}

/// The activity entry one flagged keystroke produces.
pub open spec fn sus_of(e: KeystrokeEventV) -> SuspiciousActivityV {
    SuspiciousActivityV {
        timestamp: timestamp_chars(e.timestamp),
        description: "Detected paste burst ("@ + ascii_chars(dec_of(e.raw_bytes.len()))
            + " chars)"@,
        severity: if e.raw_bytes.len() > 100 {
            "HIGH"@
        } else {
            "MEDIUM"@
        },
    }
}

/// The activity entries of the flagged keystrokes, in order.
pub open spec fn sus_list(es: Seq<KeystrokeEventV>) -> Seq<SuspiciousActivityV>
    decreases es.len(),
{
    if es.len() == 0 {
        Seq::empty()
    } else if es[0].is_paste {
        seq![sus_of(es[0])] + sus_list(es.drop_first())
    } else {
        sus_list(es.drop_first())
    }
}

/// The views of a list of activities.
pub open spec fn sus_view(v: Seq<SuspiciousActivity>) -> Seq<SuspiciousActivityV> {
    Seq::new(v.len(), |i: int| v[i]@)
}

/// One more keystroke extends the activity list exactly when it was flagged.
proof fn lemma_sus_list_take_step(es: Seq<KeystrokeEventV>, i: int)
    requires
        0 <= i < es.len(),
    ensures
        es[i].is_paste ==> sus_list(es.take(i + 1)) == sus_list(es.take(i)) + seq![sus_of(es[i])],
        !es[i].is_paste ==> sus_list(es.take(i + 1)) == sus_list(es.take(i)),
    decreases i,
{
    if i == 0 {
        assert(es.take(1).drop_first() =~= Seq::<KeystrokeEventV>::empty());
        assert(es.take(0) =~= Seq::<KeystrokeEventV>::empty());
        assert(es.take(1)[0] == es[0]);
        assert(sus_list(Seq::<KeystrokeEventV>::empty()) == Seq::<SuspiciousActivityV>::empty());
        if es[0].is_paste {
            assert(sus_list(es.take(1)) =~= sus_list(es.take(0)) + seq![sus_of(es[0])]);
        }
    } else {
        let t = es.drop_first();
        assert(es.take(i + 1).drop_first() =~= t.take(i));
        assert(es.take(i).drop_first() =~= t.take(i - 1));
        assert(es.take(i + 1)[0] == es[0]);
        assert(es.take(i)[0] == es[0]);
        lemma_sus_list_take_step(t, i - 1);
        assert(t.take(i - 1 + 1) =~= t.take(i));
        assert(t[i - 1] == es[i]);
        if es[0].is_paste {
            if es[i].is_paste {
                assert(sus_list(es.take(i + 1)) =~= sus_list(es.take(i)) + seq![sus_of(es[i])]);
            }
        } else {
            if es[i].is_paste {
                assert(sus_list(es.take(i + 1)) =~= sus_list(es.take(i)) + seq![sus_of(es[i])]);
            }
        }
    }
}

/// The whole report derived from one artifact.
#[derive(Debug, Clone)]
pub struct AnalysisReport {
    /// The recording user's name.
    pub username: String,
    /// The recording machine's hostname.
    pub hostname: String,
    /// The machine id digits.
    pub machine_id: String,
    /// The session length, rendered.
    pub session_duration: String,
    /// How many recorder runs preceded this session.
    pub recorder_runs_before: u64,
    /// Every observed input byte.
    pub total_keystrokes: usize,
    /// How many keystrokes were named `Enter`.
    pub enter_pressed: usize,
    /// How many keystrokes were named `Backspace`.
    pub backspace_used: usize,
    /// How many keystrokes the paste detector flagged.
    pub paste_events: usize,
    /// The raw bytes of the flagged keystrokes.
    pub total_pasted_chars: usize,
    /// The reconstructed command timeline.
    pub commands: Vec<String>,
    /// The flagged activity entries.
    pub suspicious_activities: Vec<SuspiciousActivity>,
    /// Whether the artifact's integrity check passed.
    pub integrity_passed: bool,
}

/// The instructor-side analyzer over one artifact's typed contents.
pub struct Analyzer {
    data: DecryptedData,
}

impl Analyzer {
    /// An analyzer over the given artifact contents.
    pub fn new(data: DecryptedData) -> (r: Analyzer)
        ensures
            r.data_view() == data@,
    {
        Analyzer { data }
    }

    /// The artifact contents under analysis.
    pub closed spec fn data_view(&self) -> crate::artifact::DecryptedDataV {
        self.data@
    }

    /// Derives the report: the metadata header, the run count that preceded
    /// this session (from the metadata's counter), the counts from the stored
    /// summary, the duration from the stored times (saturating at zero), the
    /// activity list from the flagged keystrokes, and the integrity verdict
    /// the caller obtained from the reader.
    pub fn analyze(&self, integrity_passed: bool) -> (r: AnalysisReport)
        ensures
            r.username@ == self.data_view().metadata.username,
            r.hostname@ == self.data_view().metadata.hostname,
            r.machine_id@ == self.data_view().metadata.machine_id,
            r.session_duration@ == duration_chars(
                crate::detector::sat_sub(
                    match self.data_view().metadata.end_time {
                        Some(e) => e,
                        None => self.data_view().metadata.start_time,
                    },
                    self.data_view().metadata.start_time,
                ),
            ),
            r.recorder_runs_before == crate::detector::sat_sub(
                self.data_view().metadata.run_counter,
                1,
            ),
            r.total_keystrokes == self.data_view().summary.total_keystrokes,
            r.enter_pressed == self.data_view().summary.enter_pressed,
            r.backspace_used == self.data_view().summary.backspace_used,
            r.paste_events == self.data_view().summary.paste_events,
            r.total_pasted_chars == self.data_view().summary.total_pasted_chars,
            sus_view(r.suspicious_activities@) == sus_list(self.data_view().events),
            texts_view(r.commands@) == replay_events(
                Seq::<Seq<char>>::empty(),
                Seq::<u8>::empty(),
                self.data_view().events,
            ).0,
            r.integrity_passed == integrity_passed,
    {
        let md = &self.data.metadata;
        let start_time = md.start_time;
        let end_time = match md.end_time {
            Some(e) => e,
            None => start_time,
        };
        let duration_secs = if end_time >= start_time {
            end_time - start_time
        } else {
            0
        };
        let session_duration = format_duration(duration_secs);
        let recorder_runs_before = if self.data.metadata.run_counter >= 1 {
            self.data.metadata.run_counter - 1
        } else {
            0
        };
        let ghost es = crate::records::events_view(self.data.events@);
        let mut suspicious_activities: Vec<SuspiciousActivity> = Vec::new();
        let mut i: usize = 0;
        proof {
            assert(es.take(0) =~= Seq::<KeystrokeEventV>::empty());
            assert(sus_view(suspicious_activities@) =~= Seq::<SuspiciousActivityV>::empty());
        }
        while i < self.data.events.len()
            invariant
                i <= es.len(),
                es == crate::records::events_view(self.data.events@),
                sus_view(suspicious_activities@) == sus_list(es.take(i as int)),
            decreases es.len() - i,
        {
            proof {
                lemma_sus_list_take_step(es, i as int);
                assert(es[i as int] == self.data.events@[i as int]@);
            }
            let e = &self.data.events[i];
            if e.is_paste {
                let ts = format_timestamp(e.timestamp);
                let mut description = String::from_str("Detected paste burst (");
                let nd = fmt_u64(e.raw_bytes.len() as u64);
                proof {
                    crate::json::lemma_dec_of_props(e.raw_bytes@.len());
                }
                let ns = ascii_to_string(&nd);
                description.append(ns.as_str());
                description.append(" chars)");
                let severity = if e.raw_bytes.len() > 100 {
                    String::from_str("HIGH")
                } else {
                    String::from_str("MEDIUM")
                };
                let entry = SuspiciousActivity { timestamp: ts, description, severity };
                proof {
                    assert(ns@ =~= ascii_chars(dec_of(e.raw_bytes@.len())));
                    assert(entry@.description =~= sus_of(es[i as int]).description);
                }
                let ghost before = suspicious_activities@;
                suspicious_activities.push(entry);
                proof {
                    assert(sus_view(suspicious_activities@) =~= sus_view(before).push(entry@));
                    assert(sus_view(before).push(entry@) =~= sus_list(es.take(i as int)) + seq![
                        sus_of(es[i as int]),
                    ]);
                }
            }
            i = i + 1;
        }
        proof {
            assert(es.take(es.len() as int) =~= es);
        }
        let commands = extract_commands(&self.data.events);
        AnalysisReport {
            username: self.data.metadata.username.clone(),
            hostname: self.data.metadata.hostname.clone(),
            machine_id: self.data.metadata.machine_id.clone(),
            session_duration,
            recorder_runs_before,
            total_keystrokes: self.data.summary.total_keystrokes,
            enter_pressed: self.data.summary.enter_pressed,
            backspace_used: self.data.summary.backspace_used,
            paste_events: self.data.summary.paste_events,
            total_pasted_chars: self.data.summary.total_pasted_chars,
            commands,
            suspicious_activities,
            integrity_passed,
        }
    }
}

/// The line buffer after replaying one event's raw bytes: printable bytes are
/// appended, backspace and delete pop, and everything else is ignored.
pub open spec fn replay_bytes(line: Seq<u8>, bs: Seq<u8>) -> Seq<u8>
    decreases bs.len(),
{
    if bs.len() == 0 {
        line
    } else {
        let b = bs[0];
        let line1 = if 32 <= b && b < 127 {
            line.push(b)
        } else if b == 127 || b == 8 {
            if line.len() > 0 {
                line.drop_last()
            } else {
                line
            }
        } else {
            line
        };
        replay_bytes(line1, bs.drop_first())
    }
}

/// The commands and line buffer after replaying the events from a starting
/// line: an `Enter` flushes the trimmed, nonempty line as a command.
pub open spec fn replay_events(cmds: Seq<Seq<char>>, line: Seq<u8>, es: Seq<KeystrokeEventV>) -> (
    Seq<Seq<char>>,
    Seq<u8>,
)
    decreases es.len(),
{
    if es.len() == 0 {
        (cmds, line)
    } else {
        let e = es[0];
        if e.key_name == "Enter"@ {
            let trimmed = trim_bytes(line);
            let cmds1 = if trimmed.len() > 0 {
                cmds.push(ascii_chars(trimmed))
            } else {
                cmds
            };
            replay_events(cmds1, Seq::empty(), es.drop_first())
        } else {
            replay_events(cmds, replay_bytes(line, e.raw_bytes), es.drop_first())
        }
    }
}

/// The views of a command-text list.
pub open spec fn texts_view(v: Seq<String>) -> Seq<Seq<char>> {
    Seq::new(v.len(), |i: int| v[i]@)
}

/// Replaying distributes over splitting the events at `i`.
proof fn lemma_replay_events_take_step(
    cmds: Seq<Seq<char>>,
    line: Seq<u8>,
    es: Seq<KeystrokeEventV>,
    i: int,
)
    requires
        0 <= i < es.len(),
    ensures
        replay_events(cmds, line, es.take(i + 1)) == ({
            let (c1, l1) = replay_events(cmds, line, es.take(i));
            let e = es[i];
            if e.key_name == "Enter"@ {
                let trimmed = trim_bytes(l1);
                (
                    if trimmed.len() > 0 {
                        c1.push(ascii_chars(trimmed))
                    } else {
                        c1
                    },
                    Seq::<u8>::empty(),
                )
            } else {
                (c1, replay_bytes(l1, e.raw_bytes))
            }
        }),
    decreases i,
{
    if i == 0 {
        assert(es.take(1).drop_first() =~= Seq::<KeystrokeEventV>::empty());
        assert(es.take(0) =~= Seq::<KeystrokeEventV>::empty());
        assert(es.take(1)[0] == es[0]);
        let e = es[0];
        if e.key_name == "Enter"@ {
            let trimmed = trim_bytes(line);
            let cmds1 = if trimmed.len() > 0 {
                cmds.push(ascii_chars(trimmed))
            } else {
                cmds
            };
            assert(replay_events(cmds1, Seq::empty(), Seq::<KeystrokeEventV>::empty()) == (
            cmds1,
            Seq::<u8>::empty(),
            ));
        } else {
            assert(replay_events(cmds, replay_bytes(line, e.raw_bytes), Seq::<
                KeystrokeEventV,
            >::empty()) == (cmds, replay_bytes(line, e.raw_bytes)));
        }
    } else {
        let t = es.drop_first();
        assert(es.take(i + 1).drop_first() =~= t.take(i));
        assert(es.take(i).drop_first() =~= t.take(i - 1));
        assert(es.take(i + 1)[0] == es[0]);
        assert(es.take(i)[0] == es[0]);
        let e0 = es[0];
        if e0.key_name == "Enter"@ {
            let trimmed = trim_bytes(line);
            let cmds1 = if trimmed.len() > 0 {
                cmds.push(ascii_chars(trimmed))
            } else {
                cmds
            };
            lemma_replay_events_take_step(cmds1, Seq::empty(), t, i - 1);
        } else {
            lemma_replay_events_take_step(cmds, replay_bytes(line, e0.raw_bytes), t, i - 1);
        }
        assert(t.take(i - 1 + 1) =~= t.take(i));
        assert(t[i - 1] == es[i]);
    }
}

/// Replaying keeps the line buffer printable.
proof fn lemma_replay_bytes_range(line: Seq<u8>, bs: Seq<u8>)
    requires
        forall|k: int| 0 <= k < line.len() ==> 32 <= #[trigger] line[k] < 127,
    ensures
        forall|k: int|
            0 <= k < replay_bytes(line, bs).len() ==> 32 <= #[trigger] replay_bytes(line, bs)[k]
                < 127,
    decreases bs.len(),
{
    if bs.len() > 0 {
        let b = bs[0];
        let line1 = if 32 <= b && b < 127 {
            line.push(b)
        } else if b == 127 || b == 8 {
            if line.len() > 0 {
                line.drop_last()
            } else {
                line
            }
        } else {
            line
        };
        assert(forall|k: int| 0 <= k < line1.len() ==> 32 <= #[trigger] line1[k] < 127);
        lemma_replay_bytes_range(line1, bs.drop_first());
        assert(replay_bytes(line, bs) == replay_bytes(line1, bs.drop_first()));
    }
}

/// Reconstructs the command timeline from the keystroke vector, exactly as
/// `replay_events` from an empty line states.
pub fn extract_commands(events: &Vec<crate::records::KeystrokeEvent>) -> (r: Vec<String>)
    ensures
        texts_view(r@) == replay_events(
            Seq::empty(),
            Seq::empty(),
            crate::records::events_view(events@),
        ).0,
{
    let ghost es = crate::records::events_view(events@);
    let mut cmds: Vec<String> = Vec::new();
    let mut line: Vec<u8> = Vec::new();
    let enter_name = String::from_str("Enter");
    proof {
        assert(es.take(0) =~= Seq::<KeystrokeEventV>::empty());
        assert(texts_view(cmds@) =~= Seq::<Seq<char>>::empty());
    }
    let mut i: usize = 0;
    while i < events.len()
        invariant
            i <= es.len(),
            es == crate::records::events_view(events@),
            enter_name@ == "Enter"@,
            (texts_view(cmds@), line@) == replay_events(
                Seq::<Seq<char>>::empty(),
                Seq::<u8>::empty(),
                es.take(i as int),
            ),
            forall|k: int| 0 <= k < line@.len() ==> 32 <= #[trigger] line@[k] < 127,
        decreases es.len() - i,
    {
        proof {
            lemma_replay_events_take_step(
                Seq::<Seq<char>>::empty(),
                Seq::<u8>::empty(),
                es,
                i as int,
            );
            assert(es[i as int] == events@[i as int]@);
        }
        let e = &events[i];
        if e.key_name == enter_name {
            let trimmed = trim_ascii(&line);
            proof {
                crate::text::lemma_trim_preserves_range(line@);
            }
            if trimmed.len() > 0 {
                let text = ascii_to_string(&trimmed);
                proof {
                    assert(text@ =~= ascii_chars(trimmed@));
                }
                let ghost before = cmds@;
                cmds.push(text);
                proof {
                    assert(texts_view(cmds@) =~= texts_view(before).push(text@));
                }
            }
            line.clear();
        } else {
            let ghost l0 = line@;
            proof {
                assert(e.raw_bytes@.skip(0) =~= e.raw_bytes@);
            }
            let mut k: usize = 0;
            while k < e.raw_bytes.len()
                invariant
                    k <= e.raw_bytes@.len(),
                    replay_bytes(l0, e.raw_bytes@) == replay_bytes(
                        line@,
                        e.raw_bytes@.skip(k as int),
                    ),
                    forall|j: int| 0 <= j < line@.len() ==> 32 <= #[trigger] line@[j] < 127,
                decreases e.raw_bytes@.len() - k,
            {
                let b = e.raw_bytes[k];
                proof {
                    assert(e.raw_bytes@.skip(k as int)[0] == b);
                    assert(e.raw_bytes@.skip(k as int).drop_first() =~= e.raw_bytes@.skip(
                        k + 1,
                    ));
                }
                if 32 <= b && b < 127 {
                    line.push(b);
                } else if b == 127 || b == 8 {
                    line.pop();
                }
                k = k + 1;
            }
            proof {
                assert(e.raw_bytes@.skip(e.raw_bytes@.len() as int) =~= Seq::<u8>::empty());
                assert(replay_bytes(line@, Seq::<u8>::empty()) == line@);
            }
        }
        i = i + 1;
    }
    proof {
        assert(es.take(es.len() as int) =~= es);
    }
    cmds
}

} // verus!
