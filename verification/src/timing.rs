//! Elapsed-time labels: the decision core of console-style time / timeEnd
//! calls. A table maps caller-supplied labels to start times; ending a
//! label removes it and yields the elapsed time.

use vstd::prelude::*;

use crate::span_timing::sat_sub64;

verus! {

/// The views of a timer entry list.
pub open spec fn timer_views(es: Seq<(String, u64)>) -> Seq<(Seq<char>, u64)>
    decreases es.len(),
{
    if es.len() == 0 {
        Seq::<(Seq<char>, u64)>::empty()
    } else {
        timer_views(es.drop_last()).push((es.last().0@, es.last().1))
    }
}

/// The start time recorded under `label`, if any: the first entry with that
/// label decides (the table never holds a label twice).
pub open spec fn spec_lookup(es: Seq<(Seq<char>, u64)>, label: Seq<char>) -> Option<u64>
    decreases es.len(),
{
    if es.len() == 0 {
        None
    } else if es[0].0 == label {
        Some(es[0].1)
    } else {
        spec_lookup(es.skip(1), label)
    }
}

/// Looking up after appending a fresh entry: an already-present label keeps
/// its value, the appended label gets the new one.
proof fn lemma_lookup_push(es: Seq<(Seq<char>, u64)>, k: Seq<char>, v: u64, l: Seq<char>)
    ensures
        spec_lookup(es.push((k, v)), l) == if spec_lookup(es, l) is Some {
            spec_lookup(es, l)
        } else if l == k {
            Some(v)
        } else {
            Option::<u64>::None
        },
    decreases es.len(),
{
    if es.len() == 0 {
        assert(es.push((k, v))[0] == (k, v));
        if l == k {
            assert(es.push((k, v))[0].0 == l);
            assert(spec_lookup(es.push((k, v)), l) == Some(v));
            assert(spec_lookup(es, l) is None);
        } else {
            assert(es.push((k, v)).skip(1) =~= Seq::<(Seq<char>, u64)>::empty());
            assert(spec_lookup(es.push((k, v)).skip(1), l) is None);
            assert(spec_lookup(es.push((k, v)), l) is None);
        }
    } else {
        assert(es.push((k, v))[0] == es[0]);
        if es[0].0 == l {
            assert(spec_lookup(es.push((k, v)), l) == Some(es[0].1));
            assert(spec_lookup(es, l) == Some(es[0].1));
        } else {
            lemma_lookup_push(es.skip(1), k, v, l);
            assert(es.push((k, v)).skip(1) =~= es.skip(1).push((k, v)));
            assert(spec_lookup(es.push((k, v)), l) == spec_lookup(es.skip(1).push((k, v)), l));
            assert(spec_lookup(es, l) == spec_lookup(es.skip(1), l));
            assert(spec_lookup(es.push((k, v)), l) == if spec_lookup(es, l) is Some {
                spec_lookup(es, l)
            } else if l == k {
                Some(v)
            } else {
                Option::<u64>::None
            });
        }
    }
}

/// Looking up after removing one entry, in a table of distinct labels: the
/// removed label is gone, all others keep their values.
proof fn lemma_lookup_remove(es: Seq<(Seq<char>, u64)>, i: int, l: Seq<char>)
    requires
        0 <= i < es.len(),
        forall|a: int, b: int| 0 <= a < b < es.len() ==> (#[trigger] es[a]).0 != (
        #[trigger] es[b]).0,
    ensures
        spec_lookup(es.remove(i), l) == if l == es[i].0 {
            Option::<u64>::None
        } else {
            spec_lookup(es, l)
        },
    decreases es.len(),
{
    if i == 0 {
        assert(es.remove(0) =~= es.skip(1));
        if l == es[0].0 {
            lemma_lookup_absent(es.skip(1), l);
        }
    } else {
        assert(es.remove(i)[0] == es[0]);
        if es[0].0 != l {
            assert(es.remove(i).skip(1) =~= es.skip(1).remove(i - 1));
            lemma_lookup_remove(es.skip(1), i - 1, l);
            assert(es.skip(1)[i - 1] == es[i]);
        } else {
            assert(l != es[i].0);
        }
    }
}

/// A label not carried by any entry looks up to nothing.
proof fn lemma_lookup_absent(es: Seq<(Seq<char>, u64)>, l: Seq<char>)
    requires
        forall|a: int| 0 <= a < es.len() ==> (#[trigger] es[a]).0 != l,
    ensures
        spec_lookup(es, l) is None,
    decreases es.len(),
{
    if es.len() > 0 {
        assert forall|a: int| 0 <= a < es.skip(1).len() implies (#[trigger] es.skip(1)[a]).0
            != l by {
            assert(es.skip(1)[a] == es[a + 1]);
        }
        lemma_lookup_absent(es.skip(1), l);
    }
}

/// A label carried by some entry looks up to something.
proof fn lemma_lookup_present(es: Seq<(Seq<char>, u64)>, i: int)
    requires
        0 <= i < es.len(),
    ensures
        spec_lookup(es, es[i].0) is Some,
    decreases es.len(),
{
    if es.len() > 0 && es[0].0 != es[i].0 {
        assert(es.skip(1)[i - 1] == es[i]);
        lemma_lookup_present(es.skip(1), i - 1);
    }
}

/// The views of a timer entry list index pointwise.
proof fn lemma_timer_views_index(es: Seq<(String, u64)>, i: int)
    requires
        0 <= i < es.len(),
    ensures
        timer_views(es).len() == es.len(),
        timer_views(es)[i] == (es[i].0@, es[i].1),
    decreases es.len(),
{
    lemma_timer_views_len(es);
    if i < es.len() - 1 {
        lemma_timer_views_index(es.drop_last(), i);
    }
}

/// A timer entry list and its views have the same length.
proof fn lemma_timer_views_len(es: Seq<(String, u64)>)
    ensures
        timer_views(es).len() == es.len(),
    decreases es.len(),
{
    if es.len() > 0 {
        lemma_timer_views_len(es.drop_last());
    }
}

/// A table of started timers, keyed by label. Each label is held at most
/// once; starting an already-running label restarts it.
#[derive(Debug)]
pub struct TimerTable {
    entries: Vec<(String, u64)>,
}

impl TimerTable {
    /// The table contents, as specifications see them.
    pub closed spec fn spec_entries(&self) -> Seq<(Seq<char>, u64)> {
        timer_views(self.entries@)
    }

    /// No label is held twice.
    pub closed spec fn wf(&self) -> bool {
        forall|a: int, b: int|
            0 <= a < b < self.entries@.len() ==> (#[trigger] self.entries@[a]).0@ != (
            #[trigger] self.entries@[b]).0@
    }

    /// An empty table: no label is running.
    pub fn new() -> (r: Self)
        ensures
            r.wf(),
            forall|l: Seq<char>| spec_lookup(r.spec_entries(), l) is None,
    {
        let r = TimerTable { entries: Vec::new() };
        proof {
            assert(timer_views(r.entries@) =~= Seq::<(Seq<char>, u64)>::empty());
        }
        r
    }

    /// Whether a timer is running under `label`.
    pub fn is_running(&self, label: &str) -> (r: bool)
        requires
            self.wf(),
        ensures
            r == (spec_lookup(self.spec_entries(), label@) is Some),
    {
        match self.find(label) {
            Some(i) => {
                proof {
                    lemma_timer_views_index(self.entries@, i as int);
                    lemma_lookup_present(self.spec_entries(), i as int);
                }
                true
            },
            None => {
                proof {
                    lemma_timer_views_len(self.entries@);
                    assert forall|a: int| 0 <= a < self.spec_entries().len() implies (
                    #[trigger] self.spec_entries()[a]).0 != label@ by {
                        lemma_timer_views_index(self.entries@, a);
                    }
                    lemma_lookup_absent(self.spec_entries(), label@);
                }
                false
            },
        }
    }

    /// Starts (or restarts) the timer under `label` at the given time.
    pub fn start(&mut self, label: &str, now_us: u64)
        requires
            old(self).wf(),
        ensures
            final(self).wf(),
            forall|l: Seq<char>|
                #[trigger] spec_lookup(final(self).spec_entries(), l) == if l == label@ {
                    Some(now_us)
                } else {
                    spec_lookup(old(self).spec_entries(), l)
                },
    {
        let found = self.find(label);
        let ghost pre = self.entries@;
        if let Some(i) = found {
            self.entries.remove(i);
            proof {
                self.lemma_views_remove(pre, i as int);
                assert forall|a: int, b: int|
                    0 <= a < b < self.entries@.len() implies (#[trigger] self.entries@[a]).0@ != (
                #[trigger] self.entries@[b]).0@ by {
                    let wa = if a < i { a } else { a + 1 };
                    let wb = if b < i { b } else { b + 1 };
                    assert(self.entries@[a] == pre[wa]);
                    assert(self.entries@[b] == pre[wb]);
                }
            }
        }
        proof {
            // After any removal no entry carries the label: the table held
            // it at most once.
            assert forall|a: int| 0 <= a < self.entries@.len() implies (
            #[trigger] self.entries@[a]).0@ != label@ by {
                if let Some(i) = found {
                    let wa = if a < i { a } else { a + 1 };
                    assert(self.entries@[a] == pre[wa]);
                    if pre[wa].0@ == label@ && wa != i {
                        assert(pre[i as int].0@ == label@);
                    }
                }
            }
        }
        let ghost mid = self.entries@;
        self.entries.push((label.to_owned(), now_us));
        proof {
            assert(self.entries@.drop_last() =~= mid);
            assert forall|a: int, b: int|
                0 <= a < b < self.entries@.len() implies (#[trigger] self.entries@[a]).0@ != (
            #[trigger] self.entries@[b]).0@ by {
                if b == self.entries@.len() - 1 {
                    assert(self.entries@[a] == mid[a]);
                } else {
                    assert(self.entries@[a] == mid[a]);
                    assert(self.entries@[b] == mid[b]);
                }
            }
            let vs_pre = timer_views(pre);
            let vs_mid = timer_views(mid);
            let vs_now = timer_views(self.entries@);
            assert(vs_now == vs_mid.push((label@, now_us)));
            assert forall|l: Seq<char>| #[trigger] spec_lookup(vs_now, l) == if l == label@ {
                Some(now_us)
            } else {
                spec_lookup(vs_pre, l)
            } by {
                lemma_lookup_push(vs_mid, label@, now_us, l);
                if let Some(i) = found {
                    lemma_timer_views_len(pre);
                    lemma_timer_views_index(pre, i as int);
                    assert forall|a: int, b: int| 0 <= a < b < vs_pre.len() implies (
                    #[trigger] vs_pre[a]).0 != (#[trigger] vs_pre[b]).0 by {
                        lemma_timer_views_index(pre, a);
                        lemma_timer_views_index(pre, b);
                    }
                    lemma_lookup_remove(vs_pre, i as int, l);
                    if l == label@ {
                        lemma_lookup_absent(vs_mid, l);
                    }
                } else {
                    if l == label@ {
                        lemma_timer_views_len(pre);
                        assert forall|a: int| 0 <= a < vs_pre.len() implies (
                        #[trigger] vs_pre[a]).0 != l by {
                            lemma_timer_views_index(pre, a);
                        }
                        lemma_lookup_absent(vs_pre, l);
                    }
                }
            }
        }
    }

    /// Ends the timer under `label` at the given time: yields the elapsed
    /// microseconds (never negative) and forgets the label, or `None` when
    /// no such timer is running.
    pub fn end(&mut self, label: &str, now_us: u64) -> (r: Option<u64>)
        requires
            old(self).wf(),
        ensures
            final(self).wf(),
            r == match spec_lookup(old(self).spec_entries(), label@) {
                Some(t0) => Some(sat_sub64(now_us, t0)),
                None => Option::<u64>::None,
            },
            forall|l: Seq<char>|
                #[trigger] spec_lookup(final(self).spec_entries(), l) == if l == label@ {
                    Option::<u64>::None
                } else {
                    spec_lookup(old(self).spec_entries(), l)
                },
    {
        let found = self.find(label);
        let ghost pre = self.entries@;
        match found {
            Some(i) => {
                let (_, t0) = self.entries.remove(i);
                proof {
                    self.lemma_views_remove(pre, i as int);
                    assert forall|a: int, b: int|
                        0 <= a < b < self.entries@.len() implies (#[trigger] self.entries@[a]).0@
                        != (#[trigger] self.entries@[b]).0@ by {
                        let wa = if a < i { a } else { a + 1 };
                        let wb = if b < i { b } else { b + 1 };
                        assert(self.entries@[a] == pre[wa]);
                        assert(self.entries@[b] == pre[wb]);
                    }
                    let vs_pre = timer_views(pre);
                    lemma_timer_views_len(pre);
                    lemma_timer_views_index(pre, i as int);
                    assert forall|a: int, b: int| 0 <= a < b < vs_pre.len() implies (
                    #[trigger] vs_pre[a]).0 != (#[trigger] vs_pre[b]).0 by {
                        lemma_timer_views_index(pre, a);
                        lemma_timer_views_index(pre, b);
                    }
                    lemma_lookup_present(vs_pre, i as int);
                    assert(spec_lookup(vs_pre, label@) == Some(vs_pre[i as int].1)) by {
                        lemma_lookup_at_unique(vs_pre, i as int);
                    }
                    assert forall|l: Seq<char>|
                        #[trigger] spec_lookup(timer_views(self.entries@), l) == if l == label@ {
                            Option::<u64>::None
                        } else {
                            spec_lookup(vs_pre, l)
                        } by {
                        lemma_lookup_remove(vs_pre, i as int, l);
                        if l == label@ {
                            lemma_lookup_absent(timer_views(self.entries@), l);
                        }
                    }
                }
                if now_us >= t0 {
                    Some(now_us - t0)
                } else {
                    Some(0)
                }
            },
            None => {
                proof {
                    let vs_pre = timer_views(pre);
                    lemma_timer_views_len(pre);
                    assert forall|a: int| 0 <= a < vs_pre.len() implies (#[trigger] vs_pre[a]).0
                        != label@ by {
                        lemma_timer_views_index(pre, a);
                    }
                    lemma_lookup_absent(vs_pre, label@);
                }
                None
            },
        }
    }

    /// Finds the index of the entry carrying `label`, if any.
    fn find(&self, label: &str) -> (r: Option<usize>)
        ensures
            match r {
                Some(i) => i < self.entries@.len() && self.entries@[i as int].0@ == label@,
                None => forall|a: int|
                    0 <= a < self.entries@.len() ==> (#[trigger] self.entries@[a]).0@ != label@,
            },
    {
        let owned = label.to_owned();
        let mut k: usize = 0;
        while k < self.entries.len()
            invariant
                owned@ == label@,
                0 <= k <= self.entries@.len(),
                forall|a: int| 0 <= a < k ==> (#[trigger] self.entries@[a]).0@ != label@,
            decreases self.entries@.len() - k,
        {
            if self.entries[k].0.eq(&owned) {
                return Some(k);
            }
            k = k + 1;
        }
        None
    }

    /// Removing an entry removes its view.
    proof fn lemma_views_remove(&self, pre: Seq<(String, u64)>, i: int)
        requires
            0 <= i < pre.len(),
            self.entries@ == pre.remove(i),
        ensures
            timer_views(self.entries@) == timer_views(pre).remove(i),
    {
        lemma_timer_views_remove(pre, i);
    }
}

/// Removing one entry from a list removes exactly its view.
proof fn lemma_timer_views_remove(es: Seq<(String, u64)>, i: int)
    requires
        0 <= i < es.len(),
    ensures
        timer_views(es.remove(i)) == timer_views(es).remove(i),
    decreases es.len(),
{
    lemma_timer_views_len(es);
    lemma_timer_views_len(es.remove(i));
    if i == es.len() - 1 {
        assert(es.remove(i) =~= es.drop_last());
        assert(timer_views(es).remove(i) =~= timer_views(es).drop_last());
        assert(timer_views(es).drop_last() =~= timer_views(es.drop_last()));
    } else {
        lemma_timer_views_remove(es.drop_last(), i);
        assert(es.remove(i).drop_last() =~= es.drop_last().remove(i));
        assert(es.remove(i).last() == es.last());
        assert(timer_views(es.remove(i)) == timer_views(es.drop_last().remove(i)).push(
            (es.last().0@, es.last().1),
        ));
        assert(timer_views(es).remove(i) =~= timer_views(es.drop_last()).remove(i).push(
            (es.last().0@, es.last().1),
        ));
    }
}

/// In a distinct-label table, the entry at `i` is what its label looks up
/// to.
proof fn lemma_lookup_at_unique(es: Seq<(Seq<char>, u64)>, i: int)
    requires
        0 <= i < es.len(),
        forall|a: int, b: int| 0 <= a < b < es.len() ==> (#[trigger] es[a]).0 != (
        #[trigger] es[b]).0,
    ensures
        spec_lookup(es, es[i].0) == Some(es[i].1),
    decreases es.len(),
{
    if i == 0 {
    } else if es[0].0 == es[i].0 {
        assert(false);
    } else {
        assert forall|a: int, b: int| 0 <= a < b < es.skip(1).len() implies (
        #[trigger] es.skip(1)[a]).0 != (#[trigger] es.skip(1)[b]).0 by {
            assert(es.skip(1)[a] == es[a + 1]);
            assert(es.skip(1)[b] == es[b + 1]);
        }
        assert(es.skip(1)[i - 1] == es[i]);
        lemma_lookup_at_unique(es.skip(1), i - 1);
    }
}

} // verus!
