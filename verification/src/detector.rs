//! The paste-burst detector: a sliding window over the last 100 ms of
//! printable input. A keystroke is flagged when the window holds at least 20
//! characters arriving at 10 or more characters per millisecond; the window
//! is cleared on detection so a continuous burst is flagged once per 20
//! characters rather than on every key.

use std::collections::VecDeque;
use vstd::prelude::*;

verus! {

/// `a - b`, saturating at zero.
pub open spec fn sat_sub(a: u64, b: u64) -> u64 {
    if a >= b {
        (a - b) as u64
    } else {
        0
    }
}

/// The window with entries older than 100 ms before `now` dropped from the
/// front.
pub open spec fn evict(w: Seq<(u64, usize)>, now: u64) -> Seq<(u64, usize)>
    decreases w.len(),
{
    if w.len() > 0 && sat_sub(now, w[0].0) > 100 {
        evict(w.drop_first(), now)
    } else {
        w
    }
}

/// The number of characters the window holds.
pub open spec fn window_total(w: Seq<(u64, usize)>) -> nat
    decreases w.len(),
{
    if w.len() == 0 {
        0
    } else {
        (w[0].1 + window_total(w.drop_first())) as nat
    }
}

/// The window's time span in milliseconds, clamped to at least one.
pub open spec fn window_span(w: Seq<(u64, usize)>) -> nat {
    if w.len() == 0 {
        1
    } else if sat_sub(w[w.len() - 1].0, w[0].0) > 0 {
        sat_sub(w[w.len() - 1].0, w[0].0) as nat
    } else {
        1
    }
}

/// Whether a window is a paste burst: at least 20 characters, at 10 000 or
/// more characters per second.
pub open spec fn burst(w: Seq<(u64, usize)>) -> bool {
    window_total(w) >= 20 && window_total(w) * 1000 / window_span(w) >= 10000
}

/// The window after recording `count` characters at `now` and evicting the
/// stale front.
pub open spec fn window_after(w: Seq<(u64, usize)>, now: u64, count: usize) -> Seq<(u64, usize)> {
    evict(w.push((now, count)), now)
}

/// Whether recording `count` characters at `now` trips the detector.
pub open spec fn flags_paste(w: Seq<(u64, usize)>, now: u64, count: usize) -> bool {
    burst(window_after(w, now, count))
}

/// The sliding window of recent printable keystrokes.
pub struct PasteDetector {
    /// The `(arrival ms, character count)` entries of the current window.
    recent_keystrokes: VecDeque<(u64, usize)>,
    /// The rate threshold, in characters per millisecond.
    threshold_chars_per_ms: usize,
    /// The least number of window characters a burst needs.
    min_chars_for_paste: usize,
}

impl View for PasteDetector {
    type V = Seq<(u64, usize)>;

    closed spec fn view(&self) -> Seq<(u64, usize)> {
        self.recent_keystrokes@
    }
}

impl PasteDetector {
    /// The detector's tuning constants are the documented ones.
    pub closed spec fn wf(&self) -> bool {
        self.threshold_chars_per_ms == 10 && self.min_chars_for_paste == 20
    }

    /// A detector with an empty window.
    pub fn new() -> (r: PasteDetector)
        ensures
            r@ == Seq::<(u64, usize)>::empty(),
            r.wf(),
    {
        PasteDetector {
            recent_keystrokes: VecDeque::new(),
            threshold_chars_per_ms: 10,
            min_chars_for_paste: 20,
        }
    }

    /// Records `char_count` printable characters arriving at `now_ms` and
    /// says whether they tripped the burst threshold; on detection the window
    /// is cleared.
    pub fn check_paste(&mut self, now_ms: u64, char_count: usize) -> (r: bool)
        requires
            old(self).wf(),
            window_total(old(self)@) + char_count <= usize::MAX,
        ensures
            r == flags_paste(old(self)@, now_ms, char_count),
            r ==> final(self)@ == Seq::<(u64, usize)>::empty(),
            !r ==> final(self)@ == window_after(old(self)@, now_ms, char_count),
            final(self).wf(),
    {
        self.recent_keystrokes.push_back((now_ms, char_count));
        let ghost pushed = self.recent_keystrokes@;
        // evict entries older than the 100 ms window
        loop
            invariant
                self.wf(),
                evict(pushed, now_ms) == evict(self.recent_keystrokes@, now_ms),
            ensures
                self.wf(),
                evict(self.recent_keystrokes@, now_ms) == self.recent_keystrokes@,
            decreases self.recent_keystrokes@.len(),
        {
            if self.recent_keystrokes.len() == 0 {
                break ;
            }
            let front = self.recent_keystrokes[0];
            let age: u64 = if now_ms >= front.0 {
                now_ms - front.0
            } else {
                0
            };
            if age <= 100 {
                break ;
            }
            let ghost before = self.recent_keystrokes@;
            self.recent_keystrokes.pop_front();
            proof {
                assert(before.drop_first() =~= self.recent_keystrokes@);
            }
        }
        proof {
            lemma_evict_total_le(pushed, now_ms);
            lemma_window_total_push(old(self)@, now_ms, char_count);
        }
        let ghost w = self.recent_keystrokes@;
        // total characters in the window
        let mut total: usize = 0;
        let mut k: usize = 0;
        while k < self.recent_keystrokes.len()
            invariant
                self.wf(),
                w == self.recent_keystrokes@,
                k <= w.len(),
                total == window_total(w.take(k as int)),
                window_total(w) <= usize::MAX,
            decreases w.len() - k,
        {
            proof {
                lemma_window_total_take_step(w, k as int);
                lemma_window_total_take_le(w, k + 1);
            }
            total = total + self.recent_keystrokes[k].1;
            k = k + 1;
        }
        proof {
            assert(w.take(w.len() as int) =~= w);
        }
        // the window's span, clamped to at least a millisecond
        let n = self.recent_keystrokes.len();
        let span: u64 = if n > 0 {
            let first = self.recent_keystrokes[0].0;
            let last = self.recent_keystrokes[n - 1].0;
            let d = if last >= first {
                last - first
            } else {
                0
            };
            if d > 0 {
                d
            } else {
                1
            }
        } else {
            1
        };
        proof {
            assert(span as nat == window_span(w));
        }
        if total >= self.min_chars_for_paste {
            let rate = (total as u128) * 1000 / (span as u128);
            proof {
                assert(rate == window_total(w) * 1000 / window_span(w));
            }
            if rate >= 10000 {
                self.recent_keystrokes.clear();
                return true;
            }
        }
        false
    }
}

/// Evicting never adds characters to the window.
pub proof fn lemma_evict_total_le(w: Seq<(u64, usize)>, now: u64)
    ensures
        window_total(evict(w, now)) <= window_total(w),
    decreases w.len(),
{
    if w.len() > 0 && sat_sub(now, w[0].0) > 100 {
        lemma_evict_total_le(w.drop_first(), now);
    }
}

/// Appending an entry adds its count to the window total.
pub proof fn lemma_window_total_push(w: Seq<(u64, usize)>, now: u64, count: usize)
    ensures
        window_total(w.push((now, count))) == window_total(w) + count,
    decreases w.len(),
{
    if w.len() == 0 {
        assert(w.push((now, count)).drop_first() =~= Seq::<(u64, usize)>::empty());
        assert(w.push((now, count))[0] == (now, count));
        assert(window_total(Seq::<(u64, usize)>::empty()) == 0);
    } else {
        assert(w.push((now, count)).drop_first() =~= w.drop_first().push((now, count)));
        assert(w.push((now, count))[0] == w[0]);
        lemma_window_total_push(w.drop_first(), now, count);
    }
}

/// The total of one more entry adds that entry's count.
proof fn lemma_window_total_take_step(w: Seq<(u64, usize)>, k: int)
    requires
        0 <= k < w.len(),
    ensures
        window_total(w.take(k + 1)) == window_total(w.take(k)) + w[k].1,
    decreases k,
{
    if k == 0 {
        assert(w.take(1).drop_first() =~= Seq::<(u64, usize)>::empty());
        assert(w.take(0) =~= Seq::<(u64, usize)>::empty());
        assert(w.take(1)[0] == w[0]);
    } else {
        let t = w.drop_first();
        assert(w.take(k + 1).drop_first() =~= t.take(k));
        assert(w.take(k).drop_first() =~= t.take(k - 1));
        assert(w.take(k + 1)[0] == w[0]);
        assert(w.take(k)[0] == w[0]);
        lemma_window_total_take_step(t, k - 1);
        assert(t.take(k - 1 + 1) =~= t.take(k));
        assert(t[k - 1] == w[k]);
    }
}

/// A prefix of the window holds no more characters than the window.
proof fn lemma_window_total_take_le(w: Seq<(u64, usize)>, k: int)
    requires
        0 <= k <= w.len(),
    ensures
        window_total(w.take(k)) <= window_total(w),
    decreases w.len() - k,
{
    if k < w.len() {
        lemma_window_total_take_step(w, k);
        lemma_window_total_take_le(w, k + 1);
    } else {
        assert(w.take(k) =~= w);
    }
}

// ---------------------------------------------------------------------------
// Detector laws
// ---------------------------------------------------------------------------
/// The characters in a run of `(arrival ms, count)` inputs.
pub open spec fn inputs_total(inputs: Seq<(u64, usize)>) -> nat
    decreases inputs.len(),
{
    if inputs.len() == 0 {
        0
    } else {
        (inputs[0].1 + inputs_total(inputs.drop_first())) as nat
    }
}

/// The detector window after a fresh detector processed the whole run.
pub open spec fn run_window(inputs: Seq<(u64, usize)>) -> Seq<(u64, usize)>
    decreases inputs.len(),
{
    if inputs.len() == 0 {
        Seq::empty()
    } else {
        let prev = run_window(inputs.drop_last());
        let last = inputs[inputs.len() - 1];
        if flags_paste(prev, last.0, last.1) {
            Seq::empty()
        } else {
            window_after(prev, last.0, last.1)
        }
    }
}

/// Whether the detector flags the `i`-th input of a run started fresh.
pub open spec fn run_flags_at(inputs: Seq<(u64, usize)>, i: int) -> bool {
    flags_paste(run_window(inputs.take(i)), inputs[i].0, inputs[i].1)
}

/// `inputs_total` of one more input adds that input's count.
proof fn lemma_inputs_total_take_step(inputs: Seq<(u64, usize)>, k: int)
    requires
        0 <= k < inputs.len(),
    ensures
        inputs_total(inputs.take(k + 1)) == inputs_total(inputs.take(k)) + inputs[k].1,
    decreases k,
{
    if k == 0 {
        assert(inputs.take(1).drop_first() =~= Seq::<(u64, usize)>::empty());
        assert(inputs.take(0) =~= Seq::<(u64, usize)>::empty());
        assert(inputs.take(1)[0] == inputs[0]);
    } else {
        let t = inputs.drop_first();
        assert(inputs.take(k + 1).drop_first() =~= t.take(k));
        assert(inputs.take(k).drop_first() =~= t.take(k - 1));
        assert(inputs.take(k + 1)[0] == inputs[0]);
        assert(inputs.take(k)[0] == inputs[0]);
        lemma_inputs_total_take_step(t, k - 1);
        assert(t.take(k - 1 + 1) =~= t.take(k));
        assert(t[k - 1] == inputs[k]);
    }
}

/// A prefix of a run holds no more characters than the run.
proof fn lemma_inputs_total_take_le(inputs: Seq<(u64, usize)>, k: int)
    requires
        0 <= k <= inputs.len(),
    ensures
        inputs_total(inputs.take(k)) <= inputs_total(inputs),
    decreases inputs.len() - k,
{
    if k < inputs.len() {
        lemma_inputs_total_take_step(inputs, k);
        lemma_inputs_total_take_le(inputs, k + 1);
    } else {
        assert(inputs.take(k) =~= inputs);
    }
}

/// The window never holds more characters than the run that fed it.
proof fn lemma_run_window_total(inputs: Seq<(u64, usize)>)
    ensures
        window_total(run_window(inputs)) <= inputs_total(inputs),
    decreases inputs.len(),
{
    if inputs.len() > 0 {
        let prev = run_window(inputs.drop_last());
        let last = inputs[inputs.len() - 1];
        lemma_run_window_total(inputs.drop_last());
        lemma_window_total_push(prev, last.0, last.1);
        lemma_evict_total_le(prev.push((last.0, last.1)), last.0);
        assert(inputs_total(inputs.drop_last()) + last.1 == inputs_total(inputs)) by {
            assert(inputs.drop_last() =~= inputs.take(inputs.len() - 1));
            lemma_inputs_total_take_step(inputs, inputs.len() - 1);
            assert(inputs.take(inputs.len() as int) =~= inputs);
        }
    }
}

/// A run of fewer than 20 characters in total never trips the detector,
/// whatever its timing: every windowed total stays below the threshold.
pub proof fn lemma_few_chars_never_flag(inputs: Seq<(u64, usize)>, i: int)
    requires
        0 <= i < inputs.len(),
        inputs_total(inputs) < 20,
    ensures
        !run_flags_at(inputs, i),
{
    let prev = run_window(inputs.take(i));
    let last = inputs[i];
    lemma_run_window_total(inputs.take(i));
    lemma_inputs_total_take_le(inputs, i);
    lemma_window_total_push(prev, last.0, last.1);
    lemma_evict_total_le(prev.push((last.0, last.1)), last.0);
    assert(inputs_total(inputs.take(i)) + last.1 <= inputs_total(inputs)) by {
        lemma_inputs_total_take_step(inputs, i);
        lemma_inputs_total_take_le(inputs, i + 1);
    }
}

/// Typing with more than 100 ms between keystrokes, each below the character
/// threshold, never trips the detector: the window always collapses to the
/// newest keystroke alone. Five characters per second is such a pace.
pub proof fn lemma_slow_typing_never_flags(inputs: Seq<(u64, usize)>, i: int)
    requires
        0 <= i < inputs.len(),
        forall|k: int| 0 <= k < inputs.len() ==> #[trigger] inputs[k].1 < 20,
        forall|k: int|
            0 < k < inputs.len() ==> #[trigger] inputs[k].0 > inputs[k - 1].0 + 100,
    ensures
        !run_flags_at(inputs, i),
{
    lemma_slow_window_shape(inputs, i);
    let prev = run_window(inputs.take(i));
    let last = inputs[i];
    let pushed = prev.push((last.0, last.1));
    if prev.len() == 0 {
        assert(evict(pushed, last.0) =~= pushed);
        assert(window_total(pushed) == last.1) by {
            lemma_window_total_push(prev, last.0, last.1);
        }
    } else {
        assert(prev.len() == 1 && prev[0].0 == inputs[i - 1].0);
        assert(inputs[i].0 > inputs[i - 1].0 + 100);
        assert(sat_sub(last.0, pushed[0].0) > 100);
        assert(pushed.drop_first() =~= seq![(last.0, last.1)]);
        assert(evict(pushed, last.0) == evict(seq![(last.0, last.1)], last.0));
        assert(sat_sub(last.0, last.0) == 0);
        assert(evict(seq![(last.0, last.1)], last.0) == seq![(last.0, last.1)]);
        assert(window_total(seq![(last.0, last.1)]) == last.1) by {
            assert(seq![(last.0, last.1)].drop_first() =~= Seq::<(u64, usize)>::empty());
            assert(seq![(last.0, last.1)][0] == (last.0, last.1));
            assert(window_total(Seq::<(u64, usize)>::empty()) == 0);
        }
    }
}

/// In a slow run the window is empty or the newest keystroke alone.
proof fn lemma_slow_window_shape(inputs: Seq<(u64, usize)>, i: int)
    requires
        0 <= i <= inputs.len(),
        forall|k: int| 0 <= k < inputs.len() ==> #[trigger] inputs[k].1 < 20,
        forall|k: int|
            0 < k < inputs.len() ==> #[trigger] inputs[k].0 > inputs[k - 1].0 + 100,
    ensures
        run_window(inputs.take(i)).len() == 0 || (run_window(inputs.take(i)).len() == 1
            && run_window(inputs.take(i))[0].0 == inputs[i - 1].0 && i > 0),
    decreases i,
{
    if i > 0 {
        lemma_slow_window_shape(inputs, i - 1);
        let cur = inputs.take(i);
        assert(cur.drop_last() =~= inputs.take(i - 1));
        let prev = run_window(inputs.take(i - 1));
        let last = inputs[i - 1];
        assert(cur[cur.len() - 1] == last);
        let pushed = prev.push((last.0, last.1));
        if prev.len() == 0 {
            assert(evict(pushed, last.0) =~= pushed);
            assert(window_total(pushed) == last.1) by {
                lemma_window_total_push(prev, last.0, last.1);
            }
            assert(!flags_paste(prev, last.0, last.1));
            assert(run_window(cur) == pushed);
            assert(pushed[0].0 == last.0);
        } else {
            assert(prev[0].0 == inputs[i - 2].0);
            assert(inputs[i - 1].0 > inputs[i - 2].0 + 100);
            assert(sat_sub(last.0, pushed[0].0) > 100);
            assert(pushed.drop_first() =~= seq![(last.0, last.1)]);
            assert(evict(pushed, last.0) == evict(seq![(last.0, last.1)], last.0));
            assert(sat_sub(last.0, last.0) == 0);
            assert(evict(seq![(last.0, last.1)], last.0) == seq![(last.0, last.1)]);
            assert(window_total(seq![(last.0, last.1)]) == last.1) by {
                assert(seq![(last.0, last.1)].drop_first() =~= Seq::<(u64, usize)>::empty());
                assert(seq![(last.0, last.1)][0] == (last.0, last.1));
                assert(window_total(Seq::<(u64, usize)>::empty()) == 0);
            }
            assert(!flags_paste(prev, last.0, last.1));
            assert(run_window(cur) == seq![(last.0, last.1)]);
        }
    }
}

/// In a same-millisecond burst of single characters, the detector flags
/// exactly every twentieth keystroke: the window fills to twenty, trips, is
/// cleared, and fills again.
pub proof fn lemma_burst_flags_every_twentieth(inputs: Seq<(u64, usize)>, t: u64, i: int)
    requires
        0 <= i < inputs.len(),
        forall|k: int| 0 <= k < inputs.len() ==> #[trigger] inputs[k] == (t, 1usize),
    ensures
        run_flags_at(inputs, i) <==> (i + 1) % 20 == 0,
{
    lemma_burst_window_shape(inputs, t, i);
    let prev = run_window(inputs.take(i));
    lemma_uniform_window_total(prev, t);
    let pushed = prev.push((t, 1usize));
    assert(inputs[i] == (t, 1usize));
    assert(sat_sub(t, t) == 0);
    lemma_evict_fresh(pushed, t);
    lemma_window_total_push(prev, t, 1usize);
    assert(window_total(pushed) == prev.len() + 1);
    assert(window_span(pushed) == 1) by {
        assert(pushed[0].0 == t || prev.len() == 0);
        if prev.len() > 0 {
            assert(pushed[0] == prev[0]);
            assert(prev[0].0 == t);
        }
        assert(pushed[pushed.len() - 1].0 == t);
        assert(sat_sub(pushed[pushed.len() - 1].0, pushed[0].0) == 0);
    }
    assert(prev.len() == i % 20);
    if (i + 1) % 20 == 0 {
        assert(i % 20 == 19) by (nonlinear_arith)
            requires
                0 <= i,
                (i + 1) % 20 == 0,
        ;
        assert(window_total(pushed) == 20);
        assert(window_total(pushed) * 1000 / window_span(pushed) == 20000);
    } else {
        assert(i % 20 < 19) by (nonlinear_arith)
            requires
                0 <= i,
                (i + 1) % 20 != 0,
        ;
        assert(window_total(pushed) < 20);
    }
}

/// A window whose entries all arrived at `t` survives eviction at `t`.
proof fn lemma_evict_fresh(w: Seq<(u64, usize)>, t: u64)
    requires
        forall|k: int| 0 <= k < w.len() ==> #[trigger] w[k].0 == t,
    ensures
        evict(w, t) == w,
{
    if w.len() > 0 {
        assert(w[0].0 == t);
        assert(sat_sub(t, t) == 0);
    }
}

/// A window of single-character entries holds as many characters as entries.
proof fn lemma_uniform_window_total(w: Seq<(u64, usize)>, t: u64)
    requires
        forall|k: int| 0 <= k < w.len() ==> #[trigger] w[k] == (t, 1usize),
    ensures
        window_total(w) == w.len(),
    decreases w.len(),
{
    if w.len() > 0 {
        assert(w[0] == (t, 1usize));
        lemma_uniform_window_total(w.drop_first(), t);
    }
}

/// In a same-millisecond run of single characters the window holds the
/// keystrokes since the last detection: `i % 20` entries, all `(t, 1)`.
proof fn lemma_burst_window_shape(inputs: Seq<(u64, usize)>, t: u64, i: int)
    requires
        0 <= i <= inputs.len(),
        forall|k: int| 0 <= k < inputs.len() ==> #[trigger] inputs[k] == (t, 1usize),
    ensures
        run_window(inputs.take(i)).len() == i % 20,
        forall|k: int|
            0 <= k < run_window(inputs.take(i)).len() ==> #[trigger] run_window(inputs.take(i))[k]
                == (t, 1usize),
    decreases i,
{
    if i == 0 {
        assert(inputs.take(0) =~= Seq::<(u64, usize)>::empty());
    } else {
        lemma_burst_window_shape(inputs, t, i - 1);
        let cur = inputs.take(i);
        assert(cur.drop_last() =~= inputs.take(i - 1));
        let prev = run_window(inputs.take(i - 1));
        assert(cur[cur.len() - 1] == inputs[i - 1]);
        assert(inputs[i - 1] == (t, 1usize));
        let pushed = prev.push((t, 1usize));
        lemma_evict_fresh(pushed, t);
        lemma_uniform_window_total(prev, t);
        lemma_window_total_push(prev, t, 1usize);
        assert(window_total(pushed) == prev.len() + 1);
        lemma_uniform_window_total(pushed, t);
        assert(window_span(pushed) == 1) by {
            assert(pushed[0] == (t, 1usize));
            assert(pushed[pushed.len() - 1].0 == t);
            assert(sat_sub(pushed[pushed.len() - 1].0, pushed[0].0) == 0);
        }
        assert(prev.len() == (i - 1) % 20);
        if prev.len() + 1 >= 20 {
            assert((i - 1) % 20 == 19);
            assert(window_total(pushed) == 20);
            assert(window_total(pushed) * 1000 / window_span(pushed) == 20000);
            assert(flags_paste(prev, t, 1usize));
            assert(run_window(cur) =~= Seq::<(u64, usize)>::empty());
            assert(i % 20 == 0) by (nonlinear_arith)
                requires
                    1 <= i,
                    (i - 1) % 20 == 19,
            ;
        } else {
            assert(window_total(pushed) < 20);
            assert(!flags_paste(prev, t, 1usize));
            assert(run_window(cur) == pushed);
            assert(i % 20 == (i - 1) % 20 + 1) by (nonlinear_arith)
                requires
                    1 <= i,
                    (i - 1) % 20 < 19,
            ;
        }
    }
}

} // verus!
