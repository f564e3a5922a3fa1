//! Cross-component frame correlation: when each frame entered and left each component.
use vstd::prelude::*;
use crate::counters::PerfEvent;
use crate::ranking::{is_permutation, key_before, sorted_indices};

verus! {

/// Ingress and egress timestamps of one component for one frame.
#[derive(Clone, Debug)]
pub struct Component {
    pub frame: u64,
    pub name: String,
    pub in_ts: Option<u64>,
    pub out_ts: Option<u64>,
}

impl Component {
    pub fn new(frame: u64, name: &String) -> (r: Component)
        ensures
            r.frame == frame,
            r.name@ == name@,
            r.in_ts.is_none(),
            r.out_ts.is_none(),
    {
        Component { frame, name: name.clone(), in_ts: None, out_ts: None }
    }
}

/// Ingress keeps the first arrival; egress keeps the last departure.
pub open spec fn comp_step(st: (Option<u64>, Option<u64>), e: PerfEvent, ts: u64) -> (
    Option<u64>,
    Option<u64>,
) {
    match e {
        PerfEvent::EmptyThisBuffer => (if st.0.is_none() { Some(ts) } else { st.0 }, st.1),
        PerfEvent::FillBufferDone => (st.0, Some(ts)),
        _ => st,
    }
}

pub open spec fn comp_key(c: Component) -> (u64, Seq<char>) {
    (c.frame, c.name@)
}

/// One line of the frame report.
#[derive(Clone, Debug)]
pub struct FrameRow {
    pub frame: u64,
    pub component: String,
    pub ingress: Option<u64>,
    pub egress: Option<u64>,
    pub delta: Option<i128>,
}

/// Egress minus ingress, where both are known.
pub open spec fn transit(ingress: Option<u64>, egress: Option<u64>) -> Option<i128> {
    if ingress.is_some() && egress.is_some() {
        Some((egress.unwrap() - ingress.unwrap()) as i128)
    } else {
        None
    }
}

/// Components are ordered by ingress, an unknown ingress first.
pub open spec fn ingress_key(c: Component) -> i128 {
    match c.in_ts {
        Some(t) => (t + 1) as i128,
        None => 0,
    }
}

/// Report order: by frame, then by ingress, then by first appearance.
pub open spec fn report_before(cs: Seq<Component>, a: int, b: int) -> bool {
    cs[a].frame < cs[b].frame || (cs[a].frame == cs[b].frame && (ingress_key(cs[a])
        < ingress_key(cs[b]) || (ingress_key(cs[a]) == ingress_key(cs[b]) && a < b)))
}

/// Every (frame, component) pair seen, in order of first appearance.
pub struct FrameTable {
    pub comps: Vec<Component>,
}

impl FrameTable {
    pub open spec fn wf(&self) -> bool {
        forall|i: int, j: int|
            0 <= i < j < self.comps@.len() ==> comp_key(self.comps@[i]) != comp_key(self.comps@[j])
    }

    /// The timestamps stored for a component on a frame; none if never seen.
    pub open spec fn state_of(&self, k: (u64, Seq<char>)) -> Option<(Option<u64>, Option<u64>)> {
        if exists|i: int| 0 <= i < self.comps@.len() && comp_key(self.comps@[i]) == k {
            let i = choose|i: int| 0 <= i < self.comps@.len() && comp_key(self.comps@[i]) == k;
            Some((self.comps@[i].in_ts, self.comps@[i].out_ts))
        } else {
            None
        }
    }

    pub fn new() -> (r: FrameTable)
        ensures
            r.wf(),
            r.comps@.len() == 0,
            forall|k: (u64, Seq<char>)| r.state_of(k).is_none(),
    {
        FrameTable { comps: Vec::new() }
    }

    /// Records one performance event of a component on a frame.
    pub fn record(&mut self, frame: u64, name: &String, e: PerfEvent, ts: u64)
        requires
            old(self).wf(),
        ensures
            final(self).wf(),
            forall|k: (u64, Seq<char>)|
                final(self).state_of(k) == if k == (frame, name@) {
                    Some(
                        comp_step(
                            match old(self).state_of(k) {
                                Some(s) => s,
                                None => (None, None),
                            },
                            e,
                            ts,
                        ),
                    )
                } else {
                    old(self).state_of(k)
                },
    {
        let ghost before = self.comps@;
        let ghost key = (frame, name@);
        let mut i: usize = 0;
        while i < self.comps.len()
            invariant
                self.wf(),
                self.comps@ == before,
                old(self).comps@ == before,
                key == (frame, name@),
                i <= before.len(),
                forall|j: int| 0 <= j < i ==> comp_key(before[j]) != key,
            decreases before.len() - i,
        {
            if self.comps[i].frame == frame && self.comps[i].name == *name {
                proof {
                    let j = choose|j: int| 0 <= j < before.len() && comp_key(before[j]) == key;
                    assert(comp_key(before[j]) == comp_key(before[i as int]));
                }
                let c = self.step_at(i, e, ts);
                self.comps.set(i, c);
                proof {
                    assert forall|k: (u64, Seq<char>)| k != key implies self.state_of(k) == old(
                        self,
                    ).state_of(k) by {
                        if exists|j: int| 0 <= j < before.len() && comp_key(before[j]) == k {
                            let j = choose|j: int| 0 <= j < before.len() && comp_key(before[j]) == k;
                            assert(self.comps@[j] == before[j]);
                        }
                        if exists|j: int| 0 <= j < self.comps@.len() && comp_key(self.comps@[j]) == k {
                            let j = choose|j: int|
                                0 <= j < self.comps@.len() && comp_key(self.comps@[j]) == k;
                            assert(self.comps@[j] == before[j]);
                        }
                    }
                    assert(comp_key(self.comps@[i as int]) == key);
                    let j = choose|j: int| 0 <= j < self.comps@.len() && comp_key(self.comps@[j]) == key;
                    assert(comp_key(self.comps@[j]) == comp_key(self.comps@[i as int]));
                }
                return;
            }
            proof {
                if comp_key(before[i as int]) == key {
                    assert(before[i as int].name@ == name@);
                }
            }
            i += 1;
        }
        let fresh = Component::new(frame, name);
        let c = match e {
            PerfEvent::EmptyThisBuffer => Component { in_ts: Some(ts), ..fresh },
            PerfEvent::FillBufferDone => Component { out_ts: Some(ts), ..fresh },
            _ => fresh,
        };
        self.comps.push(c);
        proof {
            let n = before.len() as int;
            assert forall|k: (u64, Seq<char>)| k != key implies self.state_of(k) == old(self).state_of(
                k,
            ) by {
                if exists|j: int| 0 <= j < before.len() && comp_key(before[j]) == k {
                    let j = choose|j: int| 0 <= j < before.len() && comp_key(before[j]) == k;
                    assert(self.comps@[j] == before[j]);
                }
                if exists|j: int| 0 <= j < self.comps@.len() && comp_key(self.comps@[j]) == k {
                    let j = choose|j: int| 0 <= j < self.comps@.len() && comp_key(self.comps@[j]) == k;
                    assert(j < n);
                    assert(self.comps@[j] == before[j]);
                }
            }
            assert(comp_key(self.comps@[n]) == key);
            let j = choose|j: int| 0 <= j < self.comps@.len() && comp_key(self.comps@[j]) == key;
            if j < n {
                assert(self.comps@[j] == before[j]);
            }
        }
    }

    /// The entry at `i` after one event.
    fn step_at(&self, i: usize, e: PerfEvent, ts: u64) -> (r: Component)
        requires
            i < self.comps@.len(),
        ensures
            comp_key(r) == comp_key(self.comps@[i as int]),
            (r.in_ts, r.out_ts) == comp_step(
                (self.comps@[i as int].in_ts, self.comps@[i as int].out_ts),
                e,
                ts,
            ),
    {
        let old_c = &self.comps[i];
        let in_ts = match e {
            PerfEvent::EmptyThisBuffer => if old_c.in_ts.is_none() {
                Some(ts)
            } else {
                old_c.in_ts
            },
            _ => old_c.in_ts,
        };
        let out_ts = match e {
            PerfEvent::FillBufferDone => Some(ts),
            _ => old_c.out_ts,
        };
        Component { frame: old_c.frame, name: old_c.name.clone(), in_ts, out_ts }
    }

    /// The report order of the table's entries.
    pub fn report_order(&self) -> (order: Vec<usize>)
        ensures
            is_permutation(order@, self.comps@.len()),
            forall|p: int, q: int|
                0 <= p < q < order@.len() ==> report_before(self.comps@, order@[p] as int, order@[q] as int),
    {
        let m = self.comps.len();
        let mut in_keys: Vec<i128> = Vec::new();
        let mut i: usize = 0;
        while i < m
            invariant
                m == self.comps@.len(),
                i <= m,
                in_keys@ =~= Seq::new(i as nat, |j: int| ingress_key(self.comps@[j])),
            decreases m - i,
        {
            let k: i128 = match self.comps[i].in_ts {
                Some(t) => t as i128 + 1,
                None => 0,
            };
            in_keys.push(k);
            i += 1;
        }
        let first = sorted_indices(&in_keys);
        let mut frame_keys: Vec<i128> = Vec::new();
        let mut p: usize = 0;
        while p < m
            invariant
                m == self.comps@.len(),
                is_permutation(first@, m as nat),
                p <= m,
                frame_keys@ =~= Seq::new(p as nat, |j: int| self.comps@[first@[j] as int].frame as i128),
            decreases m - p,
        {
            frame_keys.push(self.comps[first[p]].frame as i128);
            p += 1;
        }
        let second = sorted_indices(&frame_keys);
        let mut order: Vec<usize> = Vec::new();
        let mut q: usize = 0;
        while q < m
            invariant
                m == self.comps@.len(),
                is_permutation(first@, m as nat),
                is_permutation(second@, m as nat),
                q <= m,
                order@ =~= Seq::new(q as nat, |j: int| first@[second@[j] as int]),
            decreases m - q,
        {
            order.push(first[second[q]]);
            q += 1;
        }
        proof {
            assert forall|a: int, b: int| 0 <= a < b < m implies order@[a] != order@[b]
                && report_before(self.comps@, order@[a] as int, order@[b] as int) by {
                let x = second@[a] as int;
                let y = second@[b] as int;
                assert(key_before(frame_keys@, x, y));
                assert(x != y);
                if x < y {
                    assert(key_before(in_keys@, first@[x] as int, first@[y] as int));
                } else {
                    assert(key_before(in_keys@, first@[y] as int, first@[x] as int));
                }
            }
        }
        order
    }

    /// The report: entries by frame, then ingress, each with its transit time.
    pub fn report(&self) -> (rows: Vec<FrameRow>)
        ensures
            rows@.len() == self.comps@.len(),
            exists|order: Seq<usize>|
                {
                    &&& is_permutation(order, self.comps@.len())
                    &&& forall|p: int, q: int|
                        0 <= p < q < order.len() ==> report_before(
                            self.comps@,
                            order[p] as int,
                            order[q] as int,
                        )
                    &&& forall|p: int|
                        0 <= p < rows@.len() ==> {
                            let c = #[trigger] self.comps@[order[p] as int];
                            &&& rows@[p].frame == c.frame
                            &&& rows@[p].component@ == c.name@
                            &&& rows@[p].ingress == c.in_ts
                            &&& rows@[p].egress == c.out_ts
                            &&& rows@[p].delta == transit(c.in_ts, c.out_ts)
                        }
                },
    {
        let order = self.report_order();
        let mut rows: Vec<FrameRow> = Vec::new();
        let mut p: usize = 0;
        while p < order.len()
            invariant
                is_permutation(order@, self.comps@.len()),
                p <= order@.len(),
                rows@.len() == p,
                forall|j: int|
                    0 <= j < p ==> {
                        let c = #[trigger] self.comps@[order@[j] as int];
                        &&& rows@[j].frame == c.frame
                        &&& rows@[j].component@ == c.name@
                        &&& rows@[j].ingress == c.in_ts
                        &&& rows@[j].egress == c.out_ts
                        &&& rows@[j].delta == transit(c.in_ts, c.out_ts)
                    },
            decreases order@.len() - p,
        {
            let c = &self.comps[order[p]];
            let delta: Option<i128> = match (c.in_ts, c.out_ts) {
                (Some(a), Some(b)) => Some(b as i128 - a as i128),
                _ => None,
            };
            rows.push(
                FrameRow {
                    frame: c.frame,
                    component: c.name.clone(),
                    ingress: c.in_ts,
                    egress: c.out_ts,
                    delta,
                },
            );
            p += 1;
        }
        rows
    }
}

/// A performance record as the frame correlator reads it.
#[derive(Clone, Debug)]
pub struct FrameEvent {
    pub frame: u64,
    pub component: String,
    pub event: PerfEvent,
    pub ts: u64,
}

/// The stored timestamps of `k` after the first `n` events.
pub open spec fn state_after(evs: Seq<FrameEvent>, n: int, k: (u64, Seq<char>)) -> Option<
    (Option<u64>, Option<u64>),
>
    decreases n,
{
    if n <= 0 {
        None
    } else {
        let prev = state_after(evs, n - 1, k);
        if (evs[n - 1].frame, evs[n - 1].component@) == k {
            Some(
                comp_step(
                    match prev {
                        Some(s) => s,
                        None => (None, None),
                    },
                    evs[n - 1].event,
                    evs[n - 1].ts,
                ),
            )
        } else {
            prev
        }
    }
}

/// Correlates a whole stream of performance records by frame.
pub fn correlate(evs: &Vec<FrameEvent>) -> (t: FrameTable)
    ensures
        t.wf(),
        forall|k: (u64, Seq<char>)| t.state_of(k) == state_after(evs@, evs@.len() as int, k),
        evs@.len() == 0 ==> t.comps@.len() == 0,
{
    let mut t = FrameTable::new();
    let mut i: usize = 0;
    while i < evs.len()
        invariant
            t.wf(),
            i <= evs@.len(),
            forall|k: (u64, Seq<char>)| t.state_of(k) == state_after(evs@, i as int, k),
            i == 0 ==> t.comps@.len() == 0,
        decreases evs@.len() - i,
    {
        t.record(evs[i].frame, &evs[i].component, evs[i].event, evs[i].ts);
        i += 1;
    }
    t
}

} // verus!
