//! Latency diffs: the time since the previous record of the same thread, and of the
//! same call site (source file, line and thread).
use vstd::prelude::*;

verus! {

/// What the latency engine reads of a trace record.
#[derive(Clone, Debug)]
pub struct TraceStamp {
    pub thread: String,
    pub file: String,
    pub line: u32,
    pub ts: u64,
}

/// The two deltas computed for one record.
#[derive(Clone, Copy, Debug, PartialEq, Eq)]
pub struct TsEntry {
    pub thread_diff: i128,
    pub function_diff: i128,
}

/// The delta to a previous observation; none yields zero.
pub open spec fn delta(prev: Option<u64>, ts: u64) -> i128 {
    match prev {
        Some(p) => (ts - p) as i128,
        None => 0,
    }
}

/// A call site: source file, line and thread.
pub open spec fn site_of(r: TraceStamp) -> (Seq<char>, u32, Seq<char>) {
    (r.file@, r.line, r.thread@)
}

/// The timestamp of the last of the first `k` records on thread `t`.
pub open spec fn last_thread_ts(recs: Seq<TraceStamp>, k: int, t: Seq<char>) -> Option<u64>
    decreases k,
{
    if k <= 0 {
        None
    } else if recs[k - 1].thread@ == t {
        Some(recs[k - 1].ts)
    } else {
        last_thread_ts(recs, k - 1, t)
    }
}

/// The timestamp of the last of the first `k` records at call site `s`.
pub open spec fn last_site_ts(
    recs: Seq<TraceStamp>,
    k: int,
    s: (Seq<char>, u32, Seq<char>),
) -> Option<u64>
    decreases k,
{
    if k <= 0 {
        None
    } else if site_of(recs[k - 1]) == s {
        Some(recs[k - 1].ts)
    } else {
        last_site_ts(recs, k - 1, s)
    }
}

#[derive(Clone, Debug)]
pub struct ThreadLast {
    pub thread: String,
    pub ts: u64,
}

#[derive(Clone, Debug)]
pub struct FunctionEntry {
    pub file: String,
    pub line: u32,
    pub thread: String,
    pub ts: u64,
}

impl FunctionEntry {
    pub fn new(r: &TraceStamp) -> (e: FunctionEntry)
        ensures
            e.file@ == r.file@,
            e.line == r.line,
            e.thread@ == r.thread@,
            e.ts == r.ts,
    {
        FunctionEntry { file: r.file.clone(), line: r.line, thread: r.thread.clone(), ts: r.ts }
    }
}

pub open spec fn entry_site(e: FunctionEntry) -> (Seq<char>, u32, Seq<char>) {
    (e.file@, e.line, e.thread@)
}

/// The running tables: last timestamp per thread and per call site.
pub struct LatencyTracker {
    pub threads: Vec<ThreadLast>,
    pub sites: Vec<FunctionEntry>,
}

impl LatencyTracker {
    /// Each key has at most one entry.
    pub open spec fn wf(&self) -> bool {
        &&& forall|i: int, j: int|
            0 <= i < j < self.threads@.len() ==> self.threads@[i].thread@
                != self.threads@[j].thread@
        &&& forall|i: int, j: int|
            0 <= i < j < self.sites@.len() ==> entry_site(self.sites@[i]) != entry_site(
                self.sites@[j],
            )
    }

    pub open spec fn thread_last(&self, t: Seq<char>) -> Option<u64> {
        if exists|i: int| 0 <= i < self.threads@.len() && self.threads@[i].thread@ == t {
            let i = choose|i: int| 0 <= i < self.threads@.len() && self.threads@[i].thread@ == t;
            Some(self.threads@[i].ts)
        } else {
            None
        }
    }

    pub open spec fn site_last(&self, s: (Seq<char>, u32, Seq<char>)) -> Option<u64> {
        if exists|i: int| 0 <= i < self.sites@.len() && entry_site(self.sites@[i]) == s {
            let i = choose|i: int| 0 <= i < self.sites@.len() && entry_site(self.sites@[i]) == s;
            Some(self.sites@[i].ts)
        } else {
            None
        }
    }

    pub fn new() -> (r: LatencyTracker)
        ensures
            r.wf(),
            forall|t: Seq<char>| r.thread_last(t).is_none(),
            forall|s: (Seq<char>, u32, Seq<char>)| r.site_last(s).is_none(),
    {
        LatencyTracker { threads: Vec::new(), sites: Vec::new() }
    }

    /// Upserts the thread table, returning the previous value.
    fn touch_thread(&mut self, thread: &String, ts: u64) -> (prev: Option<u64>)
        requires
            old(self).wf(),
        ensures
            final(self).wf(),
            final(self).sites@ == old(self).sites@,
            prev == old(self).thread_last(thread@),
            forall|t: Seq<char>|
                final(self).thread_last(t) == if t == thread@ {
                    Some(ts)
                } else {
                    old(self).thread_last(t)
                },
    {
        let ghost before = self.threads@;
        let mut i: usize = 0;
        while i < self.threads.len()
            invariant
                self.wf(),
                self.threads@ == before,
                old(self).threads@ == before,
                self.sites@ == old(self).sites@,
                i <= before.len(),
                forall|j: int| 0 <= j < i ==> before[j].thread@ != thread@,
            decreases before.len() - i,
        {
            if self.threads[i].thread == *thread {
                let prev = self.threads[i].ts;
                proof {
                    let j = choose|j: int| 0 <= j < before.len() && before[j].thread@ == thread@;
                    assert(before[j].thread@ == before[i as int].thread@);
                }
                self.threads.set(i, ThreadLast { thread: thread.clone(), ts });
                proof {
                    assert forall|t: Seq<char>|
                        self.thread_last(t) == if t == thread@ {
                            Some(ts)
                        } else {
                            old(self).thread_last(t)
                        } by {
                        if t == thread@ {
                            assert(self.threads@[i as int].thread@ == t);
                            let j = choose|j: int|
                                0 <= j < self.threads@.len() && self.threads@[j].thread@ == t;
                            assert(self.threads@[j].thread@ == self.threads@[i as int].thread@);
                        } else {
                            if exists|j: int| 0 <= j < before.len() && before[j].thread@ == t {
                                let j = choose|j: int| 0 <= j < before.len() && before[j].thread@ == t;
                                assert(self.threads@[j] == before[j]);
                            }
                            if exists|j: int|
                                0 <= j < self.threads@.len() && self.threads@[j].thread@ == t {
                                let j = choose|j: int|
                                    0 <= j < self.threads@.len() && self.threads@[j].thread@ == t;
                                assert(self.threads@[j] == before[j]);
                            }
                        }
                    }
                }
                return Some(prev);
            }
            i += 1;
        }
        self.threads.push(ThreadLast { thread: thread.clone(), ts });
        proof {
            let n = before.len() as int;
            assert forall|t: Seq<char>|
                self.thread_last(t) == if t == thread@ {
                    Some(ts)
                } else {
                    old(self).thread_last(t)
                } by {
                if t == thread@ {
                    assert(self.threads@[n].thread@ == t);
                    let j = choose|j: int| 0 <= j < self.threads@.len() && self.threads@[j].thread@ == t;
                    if j < n {
                        assert(self.threads@[j] == before[j]);
                    }
                } else {
                    if exists|j: int| 0 <= j < before.len() && before[j].thread@ == t {
                        let j = choose|j: int| 0 <= j < before.len() && before[j].thread@ == t;
                        assert(self.threads@[j] == before[j]);
                    }
                    if exists|j: int| 0 <= j < self.threads@.len() && self.threads@[j].thread@ == t {
                        let j = choose|j: int| 0 <= j < self.threads@.len() && self.threads@[j].thread@ == t;
                        assert(j < n);
                        assert(self.threads@[j] == before[j]);
                    }
                }
            }
        }
        None
    }

    /// Upserts the call-site table, returning the previous value.
    fn touch_site(&mut self, r: &TraceStamp) -> (prev: Option<u64>)
        requires
            old(self).wf(),
        ensures
            final(self).wf(),
            final(self).threads@ == old(self).threads@,
            prev == old(self).site_last(site_of(*r)),
            forall|s: (Seq<char>, u32, Seq<char>)|
                final(self).site_last(s) == if s == site_of(*r) {
                    Some(r.ts)
                } else {
                    old(self).site_last(s)
                },
    {
        let ghost before = self.sites@;
        let ghost key = site_of(*r);
        let mut i: usize = 0;
        while i < self.sites.len()
            invariant
                self.wf(),
                self.sites@ == before,
                old(self).sites@ == before,
                self.threads@ == old(self).threads@,
                key == site_of(*r),
                i <= before.len(),
                forall|j: int| 0 <= j < i ==> entry_site(before[j]) != key,
            decreases before.len() - i,
        {
            if self.sites[i].line == r.line && self.sites[i].file == r.file && self.sites[i].thread
                == r.thread {
                let prev = self.sites[i].ts;
                proof {
                    let j = choose|j: int| 0 <= j < before.len() && entry_site(before[j]) == key;
                    assert(entry_site(before[j]) == entry_site(before[i as int]));
                }
                self.sites.set(i, FunctionEntry::new(r));
                proof {
                    assert forall|s: (Seq<char>, u32, Seq<char>)|
                        self.site_last(s) == if s == key {
                            Some(r.ts)
                        } else {
                            old(self).site_last(s)
                        } by {
                        if s == key {
                            assert(entry_site(self.sites@[i as int]) == s);
                            let j = choose|j: int|
                                0 <= j < self.sites@.len() && entry_site(self.sites@[j]) == s;
                            assert(entry_site(self.sites@[j]) == entry_site(self.sites@[i as int]));
                        } else {
                            if exists|j: int| 0 <= j < before.len() && entry_site(before[j]) == s {
                                let j = choose|j: int|
                                    0 <= j < before.len() && entry_site(before[j]) == s;
                                assert(self.sites@[j] == before[j]);
                            }
                            if exists|j: int|
                                0 <= j < self.sites@.len() && entry_site(self.sites@[j]) == s {
                                let j = choose|j: int|
                                    0 <= j < self.sites@.len() && entry_site(self.sites@[j]) == s;
                                assert(self.sites@[j] == before[j]);
                            }
                        }
                    }
                }
                return Some(prev);
            }
            proof {
                if entry_site(before[i as int]) == key {
                    assert(before[i as int].file@ == r.file@);
                }
            }
            i += 1;
        }
        self.sites.push(FunctionEntry::new(r));
        proof {
            let n = before.len() as int;
            assert forall|s: (Seq<char>, u32, Seq<char>)|
                self.site_last(s) == if s == key {
                    Some(r.ts)
                } else {
                    old(self).site_last(s)
                } by {
                if s == key {
                    assert(entry_site(self.sites@[n]) == s);
                    let j = choose|j: int| 0 <= j < self.sites@.len() && entry_site(self.sites@[j]) == s;
                    if j < n {
                        assert(self.sites@[j] == before[j]);
                    }
                } else {
                    if exists|j: int| 0 <= j < before.len() && entry_site(before[j]) == s {
                        let j = choose|j: int| 0 <= j < before.len() && entry_site(before[j]) == s;
                        assert(self.sites@[j] == before[j]);
                    }
                    if exists|j: int| 0 <= j < self.sites@.len() && entry_site(self.sites@[j]) == s {
                        let j = choose|j: int| 0 <= j < self.sites@.len() && entry_site(self.sites@[j]) == s;
                        assert(j < n);
                        assert(self.sites@[j] == before[j]);
                    }
                }
            }
        }
        None
    }

    /// Computes both deltas of a record and makes it the latest of its thread and call site.
    pub fn observe(&mut self, r: &TraceStamp) -> (d: TsEntry)
        requires
            old(self).wf(),
        ensures
            final(self).wf(),
            d.thread_diff == delta(old(self).thread_last(r.thread@), r.ts),
            d.function_diff == delta(old(self).site_last(site_of(*r)), r.ts),
            forall|t: Seq<char>|
                final(self).thread_last(t) == if t == r.thread@ {
                    Some(r.ts)
                } else {
                    old(self).thread_last(t)
                },
            forall|s: (Seq<char>, u32, Seq<char>)|
                final(self).site_last(s) == if s == site_of(*r) {
                    Some(r.ts)
                } else {
                    old(self).site_last(s)
                },
    {
        let pt = self.touch_thread(&r.thread, r.ts);
        let ghost mid = *self;
        let ps = self.touch_site(r);
        assert forall|t: Seq<char>|
            self.thread_last(t) == if t == r.thread@ {
                Some(r.ts)
            } else {
                old(self).thread_last(t)
            } by {
            assert(self.threads@ == mid.threads@);
            assert(self.thread_last(t) == mid.thread_last(t));
        }
        let thread_diff: i128 = match pt {
            Some(p) => r.ts as i128 - p as i128,
            None => 0,
        };
        let function_diff: i128 = match ps {
            Some(p) => r.ts as i128 - p as i128,
            None => 0,
        };
        TsEntry { thread_diff, function_diff }
    }
}

/// The deltas of a whole stream, record by record.
pub fn latency_diffs(recs: &Vec<TraceStamp>) -> (r: Vec<TsEntry>)
    ensures
        r@.len() == recs@.len(),
        forall|i: int|
            0 <= i < recs@.len() ==> r@[i].thread_diff == delta(
                last_thread_ts(recs@, i, recs@[i].thread@),
                recs@[i].ts,
            ) && r@[i].function_diff == delta(last_site_ts(recs@, i, site_of(recs@[i])), recs@[i].ts),
{
    let mut tracker = LatencyTracker::new();
    let mut out: Vec<TsEntry> = Vec::new();
    let mut i: usize = 0;
    while i < recs.len()
        invariant
            tracker.wf(),
            i <= recs@.len(),
            out@.len() == i,
            forall|t: Seq<char>| tracker.thread_last(t) == last_thread_ts(recs@, i as int, t),
            forall|s: (Seq<char>, u32, Seq<char>)|
                tracker.site_last(s) == last_site_ts(recs@, i as int, s),
            forall|k: int|
                0 <= k < i ==> out@[k].thread_diff == delta(
                    last_thread_ts(recs@, k, recs@[k].thread@),
                    recs@[k].ts,
                ) && out@[k].function_diff == delta(
                    last_site_ts(recs@, k, site_of(recs@[k])),
                    recs@[k].ts,
                ),
        decreases recs@.len() - i,
    {
        let d = tracker.observe(&recs[i]);
        out.push(d);
        i += 1;
    }
    out
}

} // verus!
