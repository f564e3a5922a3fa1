//! Per-component call/done counters of performance events, and the component
//! name taken from an object label.
use vstd::prelude::*;

verus! {

/// A performance event, by name.
#[derive(Clone, Copy, Debug, PartialEq, Eq)]
pub enum PerfEvent {
    EmptyThisBuffer,
    EmptyBufferDone,
    FillThisBuffer,
    FillBufferDone,
    Other,
}

impl PerfEvent {
    /// Classifies an event name; names other than the four are `Other`.
    pub fn from_name(name: &String) -> (r: PerfEvent)
        ensures
            r == (if name@ == "EmptyThisBuffer"@ {
                PerfEvent::EmptyThisBuffer
            } else if name@ == "EmptyBufferDone"@ {
                PerfEvent::EmptyBufferDone
            } else if name@ == "FillThisBuffer"@ {
                PerfEvent::FillThisBuffer
            } else if name@ == "FillBufferDone"@ {
                PerfEvent::FillBufferDone
            } else {
                PerfEvent::Other
            }),
    {
        let etb = "EmptyThisBuffer".to_owned();
        let ebd = "EmptyBufferDone".to_owned();
        let ftb = "FillThisBuffer".to_owned();
        let fbd = "FillBufferDone".to_owned();
        if *name == etb {
            PerfEvent::EmptyThisBuffer
        } else if *name == ebd {
            PerfEvent::EmptyBufferDone
        } else if *name == ftb {
            PerfEvent::FillThisBuffer
        } else if *name == fbd {
            PerfEvent::FillBufferDone
        } else {
            PerfEvent::Other
        }
    }
}

/// The component name: the last four characters of an object label, if it has four.
pub open spec fn component_of(label: Seq<char>) -> Option<Seq<char>> {
    if label.len() >= 4 {
        Some(label.subrange(label.len() - 4, label.len() as int))
    } else {
        None
    }
}

/// The component name of an object label, as characters.
pub fn component_name(label: &Vec<char>) -> (r: Option<Vec<char>>)
    ensures
        match r {
            Some(v) => component_of(label@) == Some(v@),
            None => component_of(label@).is_none(),
        },
{
    let n = label.len();
    if n < 4 {
        return None;
    }
    let mut out: Vec<char> = Vec::new();
    let mut i: usize = n - 4;
    while i < n
        invariant
            n == label@.len(),
            n >= 4,
            n - 4 <= i <= n,
            out@ =~= label@.subrange(n - 4, i as int),
        decreases n - i,
    {
        out.push(label[i]);
        i += 1;
    }
    Some(out)
}

/// Counts of the input (empty) and output (fill) call/done pairs.
#[derive(Clone, Copy, Debug, PartialEq, Eq)]
pub struct Count {
    pub empty_call: u64,
    pub empty_done: u64,
    pub fill_call: u64,
    pub fill_done: u64,
}

/// A counter that stops at its largest value.
pub open spec fn bump(x: u64) -> u64 {
    if x < u64::MAX { (x + 1) as u64 } else { x }
}

/// A count after one event.
pub open spec fn count_step(c: Count, e: PerfEvent) -> Count {
    match e {
        PerfEvent::EmptyThisBuffer => Count { empty_call: bump(c.empty_call), ..c },
        PerfEvent::EmptyBufferDone => Count { empty_done: bump(c.empty_done), ..c },
        PerfEvent::FillThisBuffer => Count { fill_call: bump(c.fill_call), ..c },
        PerfEvent::FillBufferDone => Count { fill_done: bump(c.fill_done), ..c },
        PerfEvent::Other => c,
    }
}

fn bump_exec(x: u64) -> (r: u64)
    ensures
        r == bump(x),
{
    if x < u64::MAX {
        x + 1
    } else {
        x
    }
}

impl Count {
    pub fn new() -> (r: Count)
        ensures
            r == (Count { empty_call: 0, empty_done: 0, fill_call: 0, fill_done: 0 }),
    {
        Count { fill_call: 0, fill_done: 0, empty_call: 0, empty_done: 0 }
    }

    pub fn step(self, e: PerfEvent) -> (r: Count)
        ensures
            r == count_step(self, e),
    {
        match e {
            PerfEvent::EmptyThisBuffer => Count { empty_call: bump_exec(self.empty_call), ..self },
            PerfEvent::EmptyBufferDone => Count { empty_done: bump_exec(self.empty_done), ..self },
            PerfEvent::FillThisBuffer => Count { fill_call: bump_exec(self.fill_call), ..self },
            PerfEvent::FillBufferDone => Count { fill_done: bump_exec(self.fill_done), ..self },
            PerfEvent::Other => self,
        }
    }
}

#[derive(Clone, Debug)]
pub struct ComponentCount {
    pub name: String,
    pub count: Count,
}

/// The counters of all components seen, in order of first appearance.
pub struct Counters {
    pub entries: Vec<ComponentCount>,
}

impl Counters {
    pub open spec fn wf(&self) -> bool {
        forall|i: int, j: int|
            0 <= i < j < self.entries@.len() ==> self.entries@[i].name@ != self.entries@[j].name@
    }

    /// The counts of a component; none if it never appeared.
    pub open spec fn count_of(&self, name: Seq<char>) -> Option<Count> {
        if exists|i: int| 0 <= i < self.entries@.len() && self.entries@[i].name@ == name {
            let i = choose|i: int| 0 <= i < self.entries@.len() && self.entries@[i].name@ == name;
            Some(self.entries@[i].count)
        } else {
            None
        }
    }

    pub fn new() -> (r: Counters)
        ensures
            r.wf(),
            r.entries@.len() == 0,
            forall|name: Seq<char>| r.count_of(name).is_none(),
    {
        Counters { entries: Vec::new() }
    }

    /// Counts one event for a component, creating its counters at zero if needed.
    pub fn record(&mut self, name: &String, e: PerfEvent)
        requires
            old(self).wf(),
        ensures
            final(self).wf(),
            forall|k: Seq<char>|
                final(self).count_of(k) == if k == name@ {
                    Some(
                        count_step(
                            match old(self).count_of(k) {
                                Some(c) => c,
                                None => Count { empty_call: 0, empty_done: 0, fill_call: 0, fill_done: 0 },
                            },
                            e,
                        ),
                    )
                } else {
                    old(self).count_of(k)
                },
    {
        let ghost before = self.entries@;
        let mut i: usize = 0;
        while i < self.entries.len()
            invariant
                self.wf(),
                self.entries@ == before,
                old(self).entries@ == before,
                i <= before.len(),
                forall|j: int| 0 <= j < i ==> before[j].name@ != name@,
            decreases before.len() - i,
        {
            if self.entries[i].name == *name {
                proof {
                    let j = choose|j: int| 0 <= j < before.len() && before[j].name@ == name@;
                    assert(before[j].name@ == before[i as int].name@);
                }
                let c = self.entries[i].count.step(e);
                self.entries.set(i, ComponentCount { name: name.clone(), count: c });
                proof {
                    assert forall|k: Seq<char>| k != name@ implies self.count_of(k) == old(
                        self,
                    ).count_of(k) by {
                        if exists|j: int| 0 <= j < before.len() && before[j].name@ == k {
                            let j = choose|j: int| 0 <= j < before.len() && before[j].name@ == k;
                            assert(self.entries@[j] == before[j]);
                        }
                        if exists|j: int| 0 <= j < self.entries@.len() && self.entries@[j].name@ == k {
                            let j = choose|j: int|
                                0 <= j < self.entries@.len() && self.entries@[j].name@ == k;
                            assert(self.entries@[j] == before[j]);
                        }
                    }
                    assert(self.entries@[i as int].name@ == name@);
                    let j = choose|j: int|
                        0 <= j < self.entries@.len() && self.entries@[j].name@ == name@;
                    assert(self.entries@[j].name@ == self.entries@[i as int].name@);
                }
                return;
            }
            i += 1;
        }
        let c = Count::new().step(e);
        self.entries.push(ComponentCount { name: name.clone(), count: c });
        proof {
            let n = before.len() as int;
            assert forall|k: Seq<char>| k != name@ implies self.count_of(k) == old(self).count_of(
                k,
            ) by {
                if exists|j: int| 0 <= j < before.len() && before[j].name@ == k {
                    let j = choose|j: int| 0 <= j < before.len() && before[j].name@ == k;
                    assert(self.entries@[j] == before[j]);
                }
                if exists|j: int| 0 <= j < self.entries@.len() && self.entries@[j].name@ == k {
                    let j = choose|j: int| 0 <= j < self.entries@.len() && self.entries@[j].name@ == k;
                    assert(j < n);
                    assert(self.entries@[j] == before[j]);
                }
            }
            assert(self.entries@[n].name@ == name@);
            let j = choose|j: int| 0 <= j < self.entries@.len() && self.entries@[j].name@ == name@;
            if j < n {
                assert(self.entries@[j] == before[j]);
            }
        }
    }
}

/// A performance record as the counter reads it: component name and event.
#[derive(Clone, Debug)]
pub struct PerfRecord {
    pub component: String,
    pub event: PerfEvent,
}

/// The counts of `comp` after the first `k` records.
pub open spec fn count_after(recs: Seq<PerfRecord>, k: int, comp: Seq<char>) -> Option<Count>
    decreases k,
{
    if k <= 0 {
        None
    } else {
        let prev = count_after(recs, k - 1, comp);
        if recs[k - 1].component@ == comp {
            Some(
                count_step(
                    match prev {
                        Some(c) => c,
                        None => Count { empty_call: 0, empty_done: 0, fill_call: 0, fill_done: 0 },
                    },
                    recs[k - 1].event,
                ),
            )
        } else {
            prev
        }
    }
}

/// Counts a whole stream of performance records.
pub fn count_events(recs: &Vec<PerfRecord>) -> (r: Counters)
    ensures
        r.wf(),
        forall|comp: Seq<char>| r.count_of(comp) == count_after(recs@, recs@.len() as int, comp),
        recs@.len() == 0 ==> r.entries@.len() == 0,
{
    let mut c = Counters::new();
    let mut i: usize = 0;
    while i < recs.len()
        invariant
            c.wf(),
            i <= recs@.len(),
            forall|comp: Seq<char>| c.count_of(comp) == count_after(recs@, i as int, comp),
            i == 0 ==> c.entries@.len() == 0,
        decreases recs@.len() - i,
    {
        c.record(&recs[i].component, recs[i].event);
        i += 1;
    }
    c
}

} // verus!
