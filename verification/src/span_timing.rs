//! Span timing capture and analysis: records enter/exit/close events of
//! tracing spans and aggregates them into per-span activity statistics.

use vstd::prelude::*;

verus! {

/// Type of a span event.
#[derive(Debug, Clone, Copy, PartialEq, Eq, Structural)]
pub enum SpanEventType {
    /// The span was entered.
    Enter,
    /// The span was exited.
    Exit,
    /// The span was closed.
    Close,
}

/// A recorded span timing event.
#[derive(Debug, Clone)]
pub struct SpanEvent {
    /// The span name.
    pub name: String,
    /// The span's id.
    pub span_id: u64,
    /// The parent span's id, 0 when there is none.
    pub parent_id: u64,
    /// What happened to the span.
    pub event_type: SpanEventType,
    /// Microseconds since capture start.
    pub timestamp_us: u64,
    /// The thread on which the event occurred.
    pub thread_id: u64,
}

/// Shared state for span timing capture: the recorded events, whether
/// capture is active, the wall-clock origin of the running capture, and the
/// next internal span id.
#[derive(Debug)]
pub struct SpanTimingCapture {
    events: Vec<SpanEvent>,
    capturing: bool,
    origin_us: u64,
    next_id: u64,
}

impl SpanTimingCapture {
    /// The recorded events, as specifications see them.
    pub closed spec fn spec_events(&self) -> Seq<SpanEvent> {
        self.events@
    }

    /// Whether capture is active.
    pub closed spec fn spec_capturing(&self) -> bool {
        self.capturing
    }

    /// The wall-clock origin of the running capture: event timestamps are
    /// measured from it.
    pub closed spec fn spec_origin_us(&self) -> u64 {
        self.origin_us
    }

    /// The next internal span id to hand out.
    pub closed spec fn spec_next_id(&self) -> u64 {
        self.next_id
    }

    /// A fresh capture: no events, not capturing, ids start at 1.
    pub fn new() -> (r: Self)
        ensures
            r.spec_events() == Seq::<SpanEvent>::empty(),
            !r.spec_capturing(),
            r.spec_origin_us() == 0,
            r.spec_next_id() == 1,
    {
        SpanTimingCapture { events: Vec::new(), capturing: false, origin_us: 0, next_id: 1 }
    }

    /// Starts capturing: clears the recorded events, turns capture on, and
    /// restarts the clock — `now_us` becomes the origin that the capture's
    /// event timestamps are measured from.
    pub fn start_capture(&mut self, now_us: u64)
        ensures
            final(self).spec_events() == Seq::<SpanEvent>::empty(),
            final(self).spec_capturing(),
            final(self).spec_origin_us() == now_us,
            final(self).spec_next_id() == old(self).spec_next_id(),
    {
        self.events.clear();
        self.origin_us = now_us;
        self.capturing = true;
    }

    /// Stops capturing and hands back everything recorded; the capture is
    /// left empty and inactive.
    pub fn stop_capture(&mut self) -> (r: Vec<SpanEvent>)
        ensures
            r@ == old(self).spec_events(),
            final(self).spec_events() == Seq::<SpanEvent>::empty(),
            !final(self).spec_capturing(),
            final(self).spec_origin_us() == old(self).spec_origin_us(),
            final(self).spec_next_id() == old(self).spec_next_id(),
    {
        self.capturing = false;
        let mut taken: Vec<SpanEvent> = Vec::new();
        core::mem::swap(&mut taken, &mut self.events);
        taken
    }

    /// Whether capture is currently active.
    pub fn is_capturing(&self) -> (r: bool)
        ensures
            r == self.spec_capturing(),
    {
        self.capturing
    }

    /// Records one event while capture is active, stamped with the time
    /// since the capture's origin; outside a capture the call changes
    /// nothing.
    pub fn record_event(
        &mut self,
        name: String,
        span_id: u64,
        parent_id: u64,
        event_type: SpanEventType,
        now_us: u64,
        thread_id: u64,
    )
        ensures
            final(self).spec_events() == if old(self).spec_capturing() {
                old(self).spec_events().push(
                    SpanEvent {
                        name,
                        span_id,
                        parent_id,
                        event_type,
                        timestamp_us: sat_sub64(now_us, old(self).spec_origin_us()),
                        thread_id,
                    },
                )
            } else {
                old(self).spec_events()
            },
            final(self).spec_capturing() == old(self).spec_capturing(),
            final(self).spec_origin_us() == old(self).spec_origin_us(),
            final(self).spec_next_id() == old(self).spec_next_id(),
    {
        if !self.capturing {
            return ;
        }
        let timestamp_us = sat_sub_u64(now_us, self.origin_us);
        self.events.push(
            SpanEvent { name, span_id, parent_id, event_type, timestamp_us, thread_id },
        );
    }

    /// Hands out the next internal span id; the counter wraps at the top of
    /// the `u64` range.
    pub fn next_id(&mut self) -> (r: u64)
        ensures
            r == old(self).spec_next_id(),
            final(self).spec_next_id() == if old(self).spec_next_id() == u64::MAX {
                0u64
            } else {
                (old(self).spec_next_id() + 1) as u64
            },
            final(self).spec_events() == old(self).spec_events(),
            final(self).spec_capturing() == old(self).spec_capturing(),
            final(self).spec_origin_us() == old(self).spec_origin_us(),
    {
        let r = self.next_id;
        self.next_id = if r == u64::MAX {
            0
        } else {
            r + 1
        };
        r
    }
}

/// Addition on microsecond counts, saturating at the top of the range.
pub open spec fn sat_add64(a: u64, b: u64) -> u64 {
    if a + b > u64::MAX {
        u64::MAX
    } else {
        (a + b) as u64
    }
}

/// Subtraction on microsecond counts, saturating at zero.
pub open spec fn sat_sub64(a: u64, b: u64) -> u64 {
    if a >= b {
        (a - b) as u64
    } else {
        0u64
    }
}

fn sat_add_u64(a: u64, b: u64) -> (r: u64)
    ensures
        r == sat_add64(a, b),
{
    if a > u64::MAX - b {
        u64::MAX
    } else {
        a + b
    }
}

fn sat_sub_u64(a: u64, b: u64) -> (r: u64)
    ensures
        r == sat_sub64(a, b),
{
    if a >= b {
        a - b
    } else {
        0
    }
}

/// Running statistics of one span name: accumulated active time, number of
/// entries, and the start of the currently open activity, if any.
#[derive(Debug, Clone, Copy)]
pub struct SpanStats {
    /// Accumulated active time in microseconds.
    pub total_time_us: u64,
    /// How often the span was entered.
    pub enter_count: u64,
    /// When the currently open activity started, if the span is open.
    pub open_since: Option<u64>,
}

/// The statistics of a span nobody has touched.
pub open spec fn zero_stats() -> SpanStats {
    SpanStats { total_time_us: 0, enter_count: 0, open_since: None }
}

/// One event's effect on a span's statistics: an enter opens an activity
/// and counts; an exit or close ends the open activity, if any, and adds
/// its span of time.
pub open spec fn stats_step(st: SpanStats, et: SpanEventType, ts: u64) -> SpanStats {
    match et {
        SpanEventType::Enter => SpanStats {
            total_time_us: st.total_time_us,
            enter_count: sat_add64(st.enter_count, 1),
            open_since: Some(ts),
        },
        _ => match st.open_since {
            Some(t0) => SpanStats {
                total_time_us: sat_add64(st.total_time_us, sat_sub64(ts, t0)),
                enter_count: st.enter_count,
                open_since: None,
            },
            None => st,
        },
    }
}

/// The statistics of the span `name` after the first `n` events.
pub open spec fn stats_upto(events: Seq<SpanEvent>, name: Seq<char>, n: int) -> SpanStats
    decreases n,
{
    if n <= 0 {
        zero_stats()
    } else {
        let prev = stats_upto(events, name, n - 1);
        let ev = events[n - 1];
        if ev.name@ == name {
            stats_step(prev, ev.event_type, ev.timestamp_us)
        } else {
            prev
        }
    }
}

/// The final (total time, enter count) of the span `name`: its statistics
/// after all events, with an activity still open at the end closed out at
/// the profile's end.
pub open spec fn final_stats(events: Seq<SpanEvent>, name: Seq<char>, duration_us: u64) -> (
    u64,
    u64,
) {
    let st = stats_upto(events, name, events.len() as int);
    match st.open_since {
        Some(t0) => (sat_add64(st.total_time_us, sat_sub64(duration_us, t0)), st.enter_count),
        None => (st.total_time_us, st.enter_count),
    }
}

/// The span was active during the profile: it has recorded time or entries.
pub open spec fn span_active(events: Seq<SpanEvent>, name: Seq<char>, duration_us: u64) -> bool {
    final_stats(events, name, duration_us).0 > 0 || final_stats(events, name, duration_us).1 > 0
}

/// A span that was active during a profile.
#[derive(Debug, Clone)]
pub struct ActiveSpan {
    /// The span name.
    pub name: String,
    /// Total time the span was active, in microseconds.
    pub total_time_us: u64,
    /// How often the span was entered.
    pub enter_count: u64,
}

/// An `ActiveSpan` carries exactly the final statistics of its name.
pub open spec fn active_span_correct(
    events: Seq<SpanEvent>,
    duration_us: u64,
    a: ActiveSpan,
) -> bool {
    &&& a.total_time_us == final_stats(events, a.name@, duration_us).0
    &&& a.enter_count == final_stats(events, a.name@, duration_us).1
    &&& span_active(events, a.name@, duration_us)
}

/// A span name shortened to at most `max_len` characters: a longer name
/// keeps its tail, with `...` marking the cut.
pub open spec fn truncate_spec(name: Seq<char>, max_len: int) -> Seq<char> {
    if name.len() <= max_len {
        name
    } else {
        "..."@ + name.skip(name.len() - (max_len - 3))
    }
}

/// Shortens a span name for display to at most `max_len` characters,
/// keeping its tail and marking the cut with `...`. Lengths count
/// characters, so a multi-byte name is always cut at a character boundary.
pub fn truncate_span_name(name: &str, max_len: usize) -> (r: String)
    requires
        max_len >= 3,
    ensures
        r@ == truncate_spec(name@, max_len as int),
{
    let n = name.unicode_len();
    if n <= max_len {
        name.to_owned()
    } else {
        let chars = crate::text::to_chars(name);
        let tail = crate::text::tail_from(&chars, n - (max_len - 3));
        let mut r = "...".to_owned();
        r.append(crate::text::from_chars(&tail).as_str());
        r
    }
}

/// Some accumulator entry carries the name `nm`.
spec fn has_key(es: Seq<(String, SpanStats)>, nm: Seq<char>) -> bool {
    exists|k: int| 0 <= k < es.len() && (#[trigger] es[k]).0@ == nm
}

fn stats_step_exec(st: SpanStats, et: SpanEventType, ts: u64) -> (r: SpanStats)
    ensures
        r == stats_step(st, et, ts),
{
    match et {
        SpanEventType::Enter => SpanStats {
            total_time_us: st.total_time_us,
            enter_count: sat_add_u64(st.enter_count, 1),
            open_since: Some(ts),
        },
        _ => match st.open_since {
            Some(t0) => SpanStats {
                total_time_us: sat_add_u64(st.total_time_us, sat_sub_u64(ts, t0)),
                enter_count: st.enter_count,
                open_since: None,
            },
            None => st,
        },
    }
}

/// Aggregates recorded span events into per-name activity statistics: the
/// result has one entry per span name with recorded time or entries, each
/// carrying exactly that name's final statistics (an activity still open at
/// the end is closed out at the profile's end), sorted by total active time
/// descending.
#[verifier::rlimit(80)]
pub fn analyze_span_events(events: &Vec<SpanEvent>, duration_us: u64) -> (r: Vec<ActiveSpan>)
    ensures
        forall|c: int|
            0 <= c < r@.len() ==> active_span_correct(events@, duration_us, #[trigger] r@[c]),
        forall|c1: int, c2: int| 0 <= c1 < c2 < r@.len() ==> r@[c1].name@ != r@[c2].name@,
        forall|c1: int, c2: int|
            0 <= c1 < c2 < r@.len() ==> r@[c1].total_time_us >= r@[c2].total_time_us,
        forall|j: int|
            0 <= j < events@.len() && span_active(events@, (#[trigger] events@[j]).name@, duration_us)
                ==> exists|c: int| 0 <= c < r@.len() && (#[trigger] r@[c]).name@ == events@[j].name@,
{
    let n = events.len();
    let mut entries: Vec<(String, SpanStats)> = Vec::new();
    let mut i: usize = 0;
    while i < n
        invariant
            n == events@.len(),
            0 <= i <= n,
            forall|k1: int, k2: int|
                0 <= k1 < k2 < entries@.len() ==> (#[trigger] entries@[k1]).0@ != (
                #[trigger] entries@[k2]).0@,
            forall|k: int|
                0 <= k < entries@.len() ==> (#[trigger] entries@[k]).1 == stats_upto(
                    events@,
                    entries@[k].0@,
                    i as int,
                ),
            forall|nm: Seq<char>|
                !has_key(entries@, nm) ==> #[trigger] stats_upto(events@, nm, i as int)
                    == zero_stats(),
        decreases n - i,
    {
        let et = events[i].event_type;
        let ts = events[i].timestamp_us;
        let mut found: Option<usize> = None;
        let mut k: usize = 0;
        while k < entries.len()
            invariant
                0 <= k <= entries@.len(),
                n == events@.len(),
                i < n,
                match found {
                    Some(f) => f < entries@.len() && entries@[f as int].0@ == events@[
                        i as int].name@,
                    None => forall|q: int|
                        0 <= q < k ==> (#[trigger] entries@[q]).0@ != events@[i as int].name@,
                },
            decreases entries@.len() - k,
        {
            if found.is_none() && entries[k].0.eq(&events[i].name) {
                found = Some(k);
            }
            k = k + 1;
        }
        let ghost old_entries = entries@;
        let ghost evname = events@[i as int].name@;
        match found {
            Some(f) => {
                let (nm, st) = entries.remove(f);
                let st2 = stats_step_exec(st, et, ts);
                entries.push((nm, st2));
                proof {
                    let now = entries@;
                    assert(now.len() == old_entries.len());
                    assert forall|k2: int| 0 <= k2 < now.len() - 1 implies #[trigger] now[k2]
                        == old_entries[
                        if k2 < f {
                            k2
                        } else {
                            k2 + 1
                        }
                    ] by {
                        assert(now[k2] == old_entries.remove(f as int).push((nm, st2))[k2]);
                    }
                    assert(now[now.len() - 1].0@ == evname);
                    assert(now[now.len() - 1].1 == st2);
                    assert forall|k2: int| 0 <= k2 < now.len() implies (#[trigger] now[k2]).1
                        == stats_upto(events@, now[k2].0@, i + 1) by {
                        if k2 < now.len() - 1 {
                            let w = if k2 < f {
                                k2
                            } else {
                                k2 + 1
                            };
                            assert(now[k2] == old_entries[w]);
                            if w != f {
                                assert(old_entries[w].0@ != old_entries[f as int].0@);
                            }
                            assert(now[k2].0@ != evname);
                        } else {
                            assert(stats_upto(events@, evname, i + 1) == stats_step(
                                stats_upto(events@, evname, i as int),
                                et,
                                ts,
                            ));
                        }
                    }
                    assert forall|nm2: Seq<char>| !has_key(now, nm2) implies #[trigger] stats_upto(
                        events@,
                        nm2,
                        i + 1,
                    ) == zero_stats() by {
                        assert(now[now.len() - 1].0@ == evname);
                        assert(nm2 != evname);
                        if has_key(old_entries, nm2) {
                            let w = choose|w: int|
                                0 <= w < old_entries.len() && (#[trigger] old_entries[w]).0@ == nm2;
                            if w == f {
                                assert(nm2 == evname);
                            } else {
                                let w2 = if w < f {
                                    w
                                } else {
                                    w - 1
                                };
                                assert(now[w2] == old_entries[w]);
                                assert(has_key(now, nm2));
                            }
                        }
                        assert(stats_upto(events@, nm2, i as int) == zero_stats());
                    }
                }
            },
            None => {
                let zero = SpanStats { total_time_us: 0, enter_count: 0, open_since: None };
                let st2 = stats_step_exec(zero, et, ts);
                entries.push((events[i].name.clone(), st2));
                proof {
                    let now = entries@;
                    assert(now.len() == old_entries.len() + 1);
                    assert forall|k2: int| 0 <= k2 < now.len() - 1 implies #[trigger] now[k2]
                        == old_entries[k2] by {}
                    assert(now[now.len() - 1].0@ == evname);
                    assert(!has_key(old_entries, evname));
                    assert(stats_upto(events@, evname, i as int) == zero_stats());
                    assert forall|k2: int| 0 <= k2 < now.len() implies (#[trigger] now[k2]).1
                        == stats_upto(events@, now[k2].0@, i + 1) by {
                        if k2 < now.len() - 1 {
                            assert(now[k2] == old_entries[k2]);
                            assert(now[k2].0@ != evname);
                        } else {
                            assert(stats_upto(events@, evname, i + 1) == stats_step(
                                zero_stats(),
                                et,
                                ts,
                            ));
                        }
                    }
                    assert forall|nm2: Seq<char>| !has_key(now, nm2) implies #[trigger] stats_upto(
                        events@,
                        nm2,
                        i + 1,
                    ) == zero_stats() by {
                        assert(now[now.len() - 1].0@ == evname);
                        assert(nm2 != evname);
                        if has_key(old_entries, nm2) {
                            let w = choose|w: int|
                                0 <= w < old_entries.len() && (#[trigger] old_entries[w]).0@ == nm2;
                            assert(now[w] == old_entries[w]);
                            assert(has_key(now, nm2));
                        }
                        assert(stats_upto(events@, nm2, i as int) == zero_stats());
                    }
                }
            },
        }
        i = i + 1;
    }
    // Close out still-open spans, drop untouched names, and collect.
    let mut candidates: Vec<ActiveSpan> = Vec::new();
    let mut k: usize = 0;
    while k < entries.len()
        invariant
            n == events@.len(),
            0 <= k <= entries@.len(),
            forall|k1: int, k2: int|
                0 <= k1 < k2 < entries@.len() ==> (#[trigger] entries@[k1]).0@ != (
                #[trigger] entries@[k2]).0@,
            forall|q: int|
                0 <= q < entries@.len() ==> (#[trigger] entries@[q]).1 == stats_upto(
                    events@,
                    entries@[q].0@,
                    n as int,
                ),
            forall|nm: Seq<char>|
                !has_key(entries@, nm) ==> #[trigger] stats_upto(events@, nm, n as int)
                    == zero_stats(),
            forall|c: int|
                0 <= c < candidates@.len() ==> active_span_correct(
                    events@,
                    duration_us,
                    #[trigger] candidates@[c],
                ),
            forall|c1: int, c2: int|
                0 <= c1 < c2 < candidates@.len() ==> (#[trigger] candidates@[c1]).name@ != (
                #[trigger] candidates@[c2]).name@,
            forall|c: int|
                0 <= c < candidates@.len() ==> exists|q: int|
                    0 <= q < k && (#[trigger] entries@[q]).0@ == (#[trigger] candidates@[c]).name@,
            forall|q: int|
                0 <= q < k && span_active(events@, (#[trigger] entries@[q]).0@, duration_us)
                    ==> exists|c: int|
                    0 <= c < candidates@.len() && (#[trigger] candidates@[c]).name@
                        == entries@[q].0@,
        decreases entries@.len() - k,
    {
        let st = entries[k].1;
        let pair: (u64, u64) = match st.open_since {
            Some(t0) => (sat_add_u64(st.total_time_us, sat_sub_u64(duration_us, t0)), st.enter_count),
            None => (st.total_time_us, st.enter_count),
        };
        proof {
            assert(pair == final_stats(events@, entries@[k as int].0@, duration_us));
        }
        let ghost cands_old = candidates@;
        if pair.0 > 0 || pair.1 > 0 {
            candidates.push(
                ActiveSpan {
                    name: entries[k].0.clone(),
                    total_time_us: pair.0,
                    enter_count: pair.1,
                },
            );
            proof {
                let now = candidates@;
                assert(now[now.len() - 1].name@ == entries@[k as int].0@);
                assert forall|c1: int, c2: int| 0 <= c1 < c2 < now.len() implies (
                #[trigger] now[c1]).name@ != (#[trigger] now[c2]).name@ by {
                    if c2 == now.len() - 1 {
                        let q = choose|q: int|
                            0 <= q < k && (#[trigger] entries@[q]).0@ == cands_old[c1].name@;
                        assert(entries@[q].0@ != entries@[k as int].0@);
                    }
                }
            }
        }
        proof {
            assert forall|q: int|
                0 <= q < k + 1 && span_active(
                    events@,
                    (#[trigger] entries@[q]).0@,
                    duration_us,
                ) implies exists|c: int|
                0 <= c < candidates@.len() && (#[trigger] candidates@[c]).name@
                    == entries@[q].0@ by {
                if q == k {
                    assert(pair.0 > 0 || pair.1 > 0);
                    assert(candidates@[candidates@.len() - 1].name@ == entries@[q].0@);
                } else {
                    let c = choose|c: int|
                        0 <= c < cands_old.len() && (#[trigger] cands_old[c]).name@ == entries@[
                            q].0@;
                    assert(candidates@[c].name@ == entries@[q].0@);
                }
            }
            assert forall|c: int| 0 <= c < candidates@.len() implies exists|q: int|
                0 <= q < k + 1 && (#[trigger] entries@[q]).0@ == (
                #[trigger] candidates@[c]).name@ by {
                if c < cands_old.len() {
                    let q = choose|q: int|
                        0 <= q < k && (#[trigger] entries@[q]).0@ == cands_old[c as int].name@;
                    assert(entries@[q].0@ == candidates@[c].name@);
                } else {
                    assert(entries@[k as int].0@ == candidates@[c].name@);
                }
            }
        }
        k = k + 1;
    }
    // Completeness: every active name among the events has a candidate.
    proof {
        assert forall|j: int|
            0 <= j < events@.len() && span_active(
                events@,
                (#[trigger] events@[j]).name@,
                duration_us,
            ) implies exists|c: int|
            0 <= c < candidates@.len() && (#[trigger] candidates@[c]).name@
                == events@[j].name@ by {
            let nm = events@[j].name@;
            if stats_upto(events@, nm, n as int) == zero_stats() {
                assert(final_stats(events@, nm, duration_us) == (0u64, 0u64));
                assert(!span_active(events@, nm, duration_us));
            } else {
                assert(has_key(entries@, nm));
                let q = choose|q: int| 0 <= q < entries@.len() && (#[trigger] entries@[q]).0@ == nm;
                assert(span_active(events@, entries@[q].0@, duration_us));
            }
        }
    }
    // Sort by total active time, largest first.
    let mut rest = candidates;
    let mut sorted: Vec<ActiveSpan> = Vec::new();
    while rest.len() > 0
        invariant
            forall|c: int|
                0 <= c < sorted@.len() ==> active_span_correct(
                    events@,
                    duration_us,
                    #[trigger] sorted@[c],
                ),
            forall|c: int|
                0 <= c < rest@.len() ==> active_span_correct(
                    events@,
                    duration_us,
                    #[trigger] rest@[c],
                ),
            forall|c1: int, c2: int|
                0 <= c1 < c2 < sorted@.len() ==> (#[trigger] sorted@[c1]).name@ != (
                #[trigger] sorted@[c2]).name@,
            forall|c1: int, c2: int|
                0 <= c1 < c2 < rest@.len() ==> (#[trigger] rest@[c1]).name@ != (
                #[trigger] rest@[c2]).name@,
            forall|c1: int, c2: int|
                0 <= c1 < sorted@.len() && 0 <= c2 < rest@.len() ==> (
                #[trigger] sorted@[c1]).name@ != (#[trigger] rest@[c2]).name@,
            forall|c1: int, c2: int|
                0 <= c1 < c2 < sorted@.len() ==> (#[trigger] sorted@[c1]).total_time_us >= (
                #[trigger] sorted@[c2]).total_time_us,
            forall|c1: int, c2: int|
                0 <= c1 < sorted@.len() && 0 <= c2 < rest@.len() ==> (
                #[trigger] sorted@[c1]).total_time_us >= (#[trigger] rest@[c2]).total_time_us,
            forall|j: int|
                0 <= j < events@.len() && span_active(
                    events@,
                    (#[trigger] events@[j]).name@,
                    duration_us,
                ) ==> (exists|c: int|
                    0 <= c < sorted@.len() && (#[trigger] sorted@[c]).name@ == events@[j].name@)
                    || (exists|c: int|
                    0 <= c < rest@.len() && (#[trigger] rest@[c]).name@ == events@[j].name@),
        decreases rest@.len(),
    {
        let mut best: usize = 0;
        let mut t: usize = 1;
        while t < rest.len()
            invariant
                rest@.len() > 0,
                best < rest@.len(),
                t <= rest@.len(),
                forall|q: int|
                    0 <= q < t ==> (#[trigger] rest@[q]).total_time_us <= rest@[
                        best as int].total_time_us,
            decreases rest@.len() - t,
        {
            if rest[best].total_time_us < rest[t].total_time_us {
                best = t;
            }
            t = t + 1;
        }
        let ghost rest_old = rest@;
        let ghost sorted_old = sorted@;
        let x = rest.remove(best);
        sorted.push(x);
        proof {
            let now_r = rest@;
            let now_s = sorted@;
            assert(now_s[now_s.len() - 1] == rest_old[best as int]);
            assert forall|c: int| 0 <= c < now_r.len() implies #[trigger] now_r[c] == rest_old[
                if c < best {
                    c
                } else {
                    c + 1
                }
            ] by {
                assert(now_r[c] == rest_old.remove(best as int)[c]);
            }
            assert forall|j: int|
                0 <= j < events@.len() && span_active(
                    events@,
                    (#[trigger] events@[j]).name@,
                    duration_us,
                ) implies (exists|c: int|
                0 <= c < now_s.len() && (#[trigger] now_s[c]).name@ == events@[j].name@) || (exists|
                c: int|
                0 <= c < now_r.len() && (#[trigger] now_r[c]).name@ == events@[j].name@) by {
                let nm = events@[j].name@;
                if exists|c: int|
                    0 <= c < sorted_old.len() && (#[trigger] sorted_old[c]).name@ == nm {
                    let c = choose|c: int|
                        0 <= c < sorted_old.len() && (#[trigger] sorted_old[c]).name@ == nm;
                    assert(now_s[c].name@ == nm);
                } else {
                    let c = choose|c: int|
                        0 <= c < rest_old.len() && (#[trigger] rest_old[c]).name@ == nm;
                    if c == best {
                        assert(now_s[now_s.len() - 1].name@ == nm);
                    } else {
                        let c2 = if c < best {
                            c
                        } else {
                            c - 1
                        };
                        assert(now_r[c2].name@ == nm);
                    }
                }
            }
        }
    }
    sorted
}

} // verus!
