//! Entity registry and per-pad timestamp monotonicity checking.
use vstd::prelude::*;

verus! {

/// Which timestamp kinds of buffer events are validated.
#[derive(Clone, Copy, Debug, PartialEq, Eq)]
pub enum Command {
    DecreasingPts,
    DecreasingDts,
    DecreasingBoth,
}

/// The kind of a buffer timestamp.
#[derive(Clone, Copy, Debug, PartialEq, Eq)]
pub enum TsKind {
    Pts,
    Dts,
}

/// A structured trace event, as far as the pad checker reads it.
#[derive(Clone, Debug)]
pub enum TraceEvent {
    NewElement { ix: u32, name: String },
    NewPad { ix: u32, parent_ix: u32, name: String },
    Buffer { pad_ix: u32, element_ix: u32, pts: Option<u64>, dts: Option<u64> },
    Other,
}

/// A buffer whose timestamp went backwards on a pad.
#[derive(Clone, Copy, Debug, PartialEq, Eq)]
pub struct Finding {
    pub pad: u32,
    pub kind: TsKind,
    pub previous: u64,
    pub current: u64,
}

#[derive(Clone, Copy, Debug, PartialEq, Eq)]
pub enum FlowError {
    UnknownElement,
}

#[derive(Clone, Debug)]
pub struct Element {
    pub index: u32,
    pub name: String,
}

impl Element {
    pub fn new(index: u32, name: &str) -> (r: Element)
        ensures
            r.index == index,
            r.name@ == name@,
    {
        Element { index, name: name.to_owned() }
    }
}

#[derive(Clone, Debug)]
pub struct Pad {
    pub index: u32,
    pub name: String,
    pub element_name: Option<String>,
    pub last_pts: Option<u64>,
    pub last_dts: Option<u64>,
}

pub open spec fn opt_view(o: Option<String>) -> Option<Seq<char>> {
    match o {
        Some(s) => Some(s@),
        None => None,
    }
}

impl Pad {
    pub fn new(index: u32, name: &str, element_name: Option<String>) -> (r: Pad)
        ensures
            r.index == index,
            r.name@ == name@,
            opt_view(r.element_name) == opt_view(element_name),
            r.last_pts.is_none(),
            r.last_dts.is_none(),
    {
        Pad { index, name: name.to_owned(), element_name, last_pts: None, last_dts: None }
    }
}

pub open spec fn checks_pts(c: Command) -> bool {
    c == Command::DecreasingPts || c == Command::DecreasingBoth
}

pub open spec fn checks_dts(c: Command) -> bool {
    c == Command::DecreasingDts || c == Command::DecreasingBoth
}

/// A new value is flagged only against a known earlier value that it is below.
pub open spec fn goes_back(prev: Option<u64>, cur: Option<u64>) -> bool {
    prev.is_some() && cur.is_some() && cur.unwrap() < prev.unwrap()
}

/// The value a pad keeps for one timestamp kind after a buffer: absent values leave it.
pub open spec fn next_ts(prev: Option<u64>, cur: Option<u64>) -> Option<u64> {
    if cur.is_some() { cur } else { prev }
}

/// The findings one buffer event yields, pts first.
pub open spec fn buffer_findings(
    c: Command,
    pad: u32,
    last_pts: Option<u64>,
    last_dts: Option<u64>,
    pts: Option<u64>,
    dts: Option<u64>,
) -> Seq<Finding> {
    let p = if checks_pts(c) && goes_back(last_pts, pts) {
        seq![Finding { pad, kind: TsKind::Pts, previous: last_pts.unwrap(), current: pts.unwrap() }]
    } else {
        Seq::<Finding>::empty()
    };
    let d = if checks_dts(c) && goes_back(last_dts, dts) {
        seq![Finding { pad, kind: TsKind::Dts, previous: last_dts.unwrap(), current: dts.unwrap() }]
    } else {
        Seq::<Finding>::empty()
    };
    p + d
}

/// What the checker knows of a pad.
pub struct PadModel {
    pub name: Seq<char>,
    pub element_name: Option<Seq<char>>,
    pub last_pts: Option<u64>,
    pub last_dts: Option<u64>,
}

/// The registries as maps: element names and pads, by index.
pub struct FlowModel {
    pub command: Command,
    pub elements: Map<u32, Seq<char>>,
    pub pads: Map<u32, PadModel>,
}

pub open spec fn pad_view(p: Pad) -> PadModel {
    PadModel {
        name: p.name@,
        element_name: opt_view(p.element_name),
        last_pts: p.last_pts,
        last_dts: p.last_dts,
    }
}

pub open spec fn empty_model(c: Command) -> FlowModel {
    FlowModel { command: c, elements: Map::empty(), pads: Map::empty() }
}

/// A pad not seen before: no name, no element, no timestamps.
pub open spec fn blank_pad() -> PadModel {
    PadModel { name: Seq::empty(), element_name: None, last_pts: None, last_dts: None }
}

/// Registering an element: first writer wins.
pub open spec fn element_step(m: FlowModel, ix: u32, name: Seq<char>) -> FlowModel {
    if m.elements.contains_key(ix) {
        m
    } else {
        FlowModel { elements: m.elements.insert(ix, name), ..m }
    }
}

/// Registering a pad: first writer wins; the element name is resolved if known.
pub open spec fn pad_step(m: FlowModel, ix: u32, parent_ix: u32, name: Seq<char>) -> FlowModel {
    if m.pads.contains_key(ix) {
        m
    } else {
        let element_name = if m.elements.contains_key(parent_ix) {
            Some(m.elements[parent_ix])
        } else {
            None
        };
        FlowModel {
            pads: m.pads.insert(
                ix,
                PadModel { name, element_name, last_pts: None, last_dts: None },
            ),
            ..m
        }
    }
}

/// A buffer event: an unknown element is an error; otherwise the pad (created if
/// unseen) gets its element name if it had none and the buffer's timestamps, and the
/// findings compare them with the pad's earlier ones.
pub open spec fn buffer_step(
    m: FlowModel,
    pad_ix: u32,
    element_ix: u32,
    pts: Option<u64>,
    dts: Option<u64>,
) -> (FlowModel, Result<Seq<Finding>, FlowError>) {
    if !m.elements.contains_key(element_ix) {
        (m, Err(FlowError::UnknownElement))
    } else {
        let p = if m.pads.contains_key(pad_ix) { m.pads[pad_ix] } else { blank_pad() };
        let q = PadModel {
            name: p.name,
            element_name: if p.element_name.is_some() {
                p.element_name
            } else {
                Some(m.elements[element_ix])
            },
            last_pts: next_ts(p.last_pts, pts),
            last_dts: next_ts(p.last_dts, dts),
        };
        (
            FlowModel { pads: m.pads.insert(pad_ix, q), ..m },
            Ok(buffer_findings(m.command, pad_ix, p.last_pts, p.last_dts, pts, dts)),
        )
    }
}

/// One event: the new model and the findings or error.
pub open spec fn event_step(m: FlowModel, ev: TraceEvent) -> (FlowModel, Result<Seq<Finding>, FlowError>) {
    match ev {
        TraceEvent::NewElement { ix, name } => (element_step(m, ix, name@), Ok(Seq::empty())),
        TraceEvent::NewPad { ix, parent_ix, name } => (
            pad_step(m, ix, parent_ix, name@),
            Ok(Seq::empty()),
        ),
        TraceEvent::Buffer { pad_ix, element_ix, pts, dts } => buffer_step(
            m,
            pad_ix,
            element_ix,
            pts,
            dts,
        ),
        TraceEvent::Other => (m, Ok(Seq::empty())),
    }
}

pub open spec fn result_view(r: Result<Vec<Finding>, FlowError>) -> Result<Seq<Finding>, FlowError> {
    match r {
        Ok(v) => Ok(v@),
        Err(e) => Err(e),
    }
}

/// The pad checker: registered elements and pads, and the last timestamps seen on each pad.
#[derive(Debug)]
pub struct Flow {
    pub command: Command,
    pub elements: Vec<Element>,
    pub pads: Vec<Pad>,
}

impl Flow {
    /// Indices are registered once: no two entries of a table share one.
    pub open spec fn wf(&self) -> bool {
        &&& forall|i: int, j: int|
            0 <= i < j < self.elements@.len() ==> self.elements@[i].index
                != self.elements@[j].index
        &&& forall|i: int, j: int|
            0 <= i < j < self.pads@.len() ==> self.pads@[i].index != self.pads@[j].index
    }

    pub open spec fn has_element(&self, ix: u32) -> bool {
        exists|i: int| 0 <= i < self.elements@.len() && self.elements@[i].index == ix
    }

    /// The name registered for an element index, if any.
    pub open spec fn element_name_of(&self, ix: u32) -> Option<Seq<char>> {
        if self.has_element(ix) {
            let i = choose|i: int| 0 <= i < self.elements@.len() && self.elements@[i].index == ix;
            Some(self.elements@[i].name@)
        } else {
            None
        }
    }

    pub open spec fn has_pad(&self, ix: u32) -> bool {
        exists|i: int| 0 <= i < self.pads@.len() && self.pads@[i].index == ix
    }

    /// The pad registered under an index (meaningful where `has_pad`).
    pub open spec fn pad_of(&self, ix: u32) -> Pad {
        let i = choose|i: int| 0 <= i < self.pads@.len() && self.pads@[i].index == ix;
        self.pads@[i]
    }

    /// The registries as maps.
    pub open spec fn model(&self) -> FlowModel {
        FlowModel {
            command: self.command,
            elements: Map::new(|k: u32| self.has_element(k), |k: u32| self.element_name_of(k).unwrap()),
            pads: Map::new(|k: u32| self.has_pad(k), |k: u32| pad_view(self.pad_of(k))),
        }
    }

    pub fn new(command: Command) -> (r: Flow)
        ensures
            r.wf(),
            r.command == command,
            r.elements@.len() == 0,
            r.pads@.len() == 0,
            r.model() == empty_model(command),
    {
        let r = Flow { command, elements: Vec::new(), pads: Vec::new() };
        assert(r.model().elements =~= Map::empty());
        assert(r.model().pads =~= Map::empty());
        r
    }

    fn find_element(&self, ix: u32) -> (r: Option<usize>)
        requires
            self.wf(),
        ensures
            match r {
                Some(i) => i < self.elements@.len() && self.elements@[i as int].index == ix
                    && self.has_element(ix) && self.element_name_of(ix) == Some(
                    self.elements@[i as int].name@,
                ),
                None => !self.has_element(ix) && self.element_name_of(ix).is_none(),
            },
    {
        let mut i: usize = 0;
        while i < self.elements.len()
            invariant
                self.wf(),
                i <= self.elements@.len(),
                forall|j: int| 0 <= j < i ==> self.elements@[j].index != ix,
            decreases self.elements@.len() - i,
        {
            if self.elements[i].index == ix {
                assert(self.has_element(ix));
                proof {
                    let j = choose|j: int|
                        0 <= j < self.elements@.len() && self.elements@[j].index == ix;
                    assert(self.elements@[j].index == self.elements@[i as int].index);
                }
                return Some(i);
            }
            i += 1;
        }
        None
    }

    fn find_pad(&self, ix: u32) -> (r: Option<usize>)
        requires
            self.wf(),
        ensures
            match r {
                Some(i) => i < self.pads@.len() && self.pads@[i as int].index == ix
                    && self.has_pad(ix) && self.pad_of(ix) == self.pads@[i as int],
                None => !self.has_pad(ix),
            },
    {
        let mut i: usize = 0;
        while i < self.pads.len()
            invariant
                self.wf(),
                i <= self.pads@.len(),
                forall|j: int| 0 <= j < i ==> self.pads@[j].index != ix,
            decreases self.pads@.len() - i,
        {
            if self.pads[i].index == ix {
                assert(self.has_pad(ix));
                proof {
                    let j = choose|j: int| 0 <= j < self.pads@.len() && self.pads@[j].index == ix;
                    assert(self.pads@[j].index == self.pads@[i as int].index);
                }
                return Some(i);
            }
            i += 1;
        }
        None
    }

    /// The name of a registered element, if any.
    pub fn element_name_for(&self, ix: u32) -> (r: Option<String>)
        requires
            self.wf(),
        ensures
            opt_view(r) == self.element_name_of(ix),
    {
        match self.find_element(ix) {
            Some(i) => Some(self.elements[i].name.clone()),
            None => None,
        }
    }

    /// Registers an element; an index seen before keeps its first name.
    pub fn register_element(&mut self, ix: u32, name: &str)
        requires
            old(self).wf(),
        ensures
            final(self).wf(),
            final(self).model() == element_step(old(self).model(), ix, name@),
    {
        if self.find_element(ix).is_none() {
            let ghost before = self.elements@;
            self.elements.push(Element::new(ix, name));
            assert(self.elements@[before.len() as int].index == ix);
            assert(self.has_element(ix));
            proof {
                let i = choose|i: int| 0 <= i < self.elements@.len() && self.elements@[i].index == ix;
                if i < before.len() {
                    assert(before[i] == self.elements@[i]);
                }
            }
            assert forall|k: u32| k != ix implies self.has_element(k) == old(self).has_element(k)
                && self.element_name_of(k) == old(self).element_name_of(k) by {
                if old(self).has_element(k) {
                    let i = choose|i: int| 0 <= i < before.len() && before[i].index == k;
                    assert(self.elements@[i] == before[i]);
                    assert(self.has_element(k));
                    let j = choose|j: int| 0 <= j < self.elements@.len() && self.elements@[j].index == k;
                    assert(self.elements@[j].index == self.elements@[i].index);
                } else {
                    if self.has_element(k) {
                        let i = choose|i: int| 0 <= i < self.elements@.len() && self.elements@[i].index == k;
                        assert(i < before.len());
                        assert(before[i] == self.elements@[i]);
                        assert(false);
                    }
                }
            }
            assert(self.model().elements =~= old(self).model().elements.insert(ix, name@));
            assert(self.model().pads =~= old(self).model().pads);
        } else {
            assert(self.model().elements =~= old(self).model().elements);
        }
    }

    /// Registers a pad; its element name is resolved if the element is already known.
    /// An index seen before keeps its first registration.
    pub fn register_pad(&mut self, ix: u32, parent_ix: u32, name: &str)
        requires
            old(self).wf(),
        ensures
            final(self).wf(),
            final(self).model() == pad_step(old(self).model(), ix, parent_ix, name@),
    {
        if self.find_pad(ix).is_none() {
            let element_name = self.element_name_for(parent_ix);
            let ghost before = *self;
            let p = Pad::new(ix, name, element_name);
            self.pads.push(p);
            proof {
                lemma_pads_changed(before, *self, before.pads@.len() as int, p);
                assert(self.model().elements =~= before.model().elements);
            }
        }
    }

    /// Checks one buffer event on a pad, backfills the pad's element name, and
    /// records the buffer's timestamps as the pad's latest. A pad seen for the
    /// first time is created, with an empty name, by its first buffer.
    pub fn handle_buffer(
        &mut self,
        pad_ix: u32,
        element_ix: u32,
        pts: Option<u64>,
        dts: Option<u64>,
    ) -> (r: Result<Vec<Finding>, FlowError>)
        requires
            old(self).wf(),
        ensures
            final(self).wf(),
            (final(self).model(), result_view(r)) == buffer_step(
                old(self).model(),
                pad_ix,
                element_ix,
                pts,
                dts,
            ),
    {
        let ei = match self.find_element(element_ix) {
            Some(i) => i,
            None => return Err(FlowError::UnknownElement),
        };
        let ghost before = *self;
        let found = self.find_pad(pad_ix);
        let (name, element_name, last_pts, last_dts) = match found {
            Some(pi) => {
                let element_name = if self.pads[pi].element_name.is_none() {
                    Some(self.elements[ei].name.clone())
                } else {
                    self.pads[pi].element_name.clone()
                };
                (self.pads[pi].name.clone(), element_name, self.pads[pi].last_pts, self.pads[pi].last_dts)
            },
            None => (String::new(), Some(self.elements[ei].name.clone()), None, None),
        };
        let mut findings: Vec<Finding> = Vec::new();
        let mut new_pts = last_pts;
        if let Some(v) = pts {
            if (matches!(self.command, Command::DecreasingPts | Command::DecreasingBoth)) {
                if let Some(l) = last_pts {
                    if v < l {
                        findings.push(Finding { pad: pad_ix, kind: TsKind::Pts, previous: l, current: v });
                    }
                }
            }
            new_pts = Some(v);
        }
        let mut new_dts = last_dts;
        if let Some(v) = dts {
            if (matches!(self.command, Command::DecreasingDts | Command::DecreasingBoth)) {
                if let Some(l) = last_dts {
                    if v < l {
                        findings.push(Finding { pad: pad_ix, kind: TsKind::Dts, previous: l, current: v });
                    }
                }
            }
            new_dts = Some(v);
        }
        let pad = Pad { index: pad_ix, name, element_name, last_pts: new_pts, last_dts: new_dts };
        let ghost pos: int;
        match found {
            Some(pi) => {
                self.pads.set(pi, pad);
                proof {
                    pos = pi as int;
                }
            },
            None => {
                self.pads.push(pad);
                proof {
                    pos = before.pads@.len() as int;
                }
            },
        }
        proof {
            let m = before.model();
            let p = if m.pads.contains_key(pad_ix) { m.pads[pad_ix] } else { blank_pad() };
            assert(findings@ =~= buffer_findings(m.command, pad_ix, p.last_pts, p.last_dts, pts, dts));
            lemma_pads_changed(before, *self, pos, pad);
            assert(self.model().elements =~= m.elements);
        }
        Ok(findings)
    }

    /// Handles one structured trace event.
    pub fn parse(&mut self, ev: &TraceEvent) -> (r: Result<Vec<Finding>, FlowError>)
        requires
            old(self).wf(),
        ensures
            final(self).wf(),
            (final(self).model(), result_view(r)) == event_step(old(self).model(), *ev),
    {
        match ev {
            TraceEvent::NewElement { ix, name } => {
                self.register_element(*ix, name.as_str());
                let r = Ok(Vec::new());
                assert(result_view(r) =~= Ok::<Seq<Finding>, FlowError>(Seq::empty()));
                r
            },
            TraceEvent::NewPad { ix, parent_ix, name } => {
                self.register_pad(*ix, *parent_ix, name.as_str());
                let r = Ok(Vec::new());
                assert(result_view(r) =~= Ok::<Seq<Finding>, FlowError>(Seq::empty()));
                r
            },
            TraceEvent::Buffer { pad_ix, element_ix, pts, dts } => {
                self.handle_buffer(*pad_ix, *element_ix, *pts, *dts)
            },
            TraceEvent::Other => {
                let r = Ok(Vec::new());
                assert(result_view(r) =~= Ok::<Seq<Finding>, FlowError>(Seq::empty()));
                r
            },
        }
    }
}

/// A change of one pad entry (in place, or appended for a new index) changes the
/// pad model at that index alone.
proof fn lemma_pads_changed(a: Flow, b: Flow, i: int, p: Pad)
    requires
        a.wf(),
        b.command == a.command,
        b.elements@ == a.elements@,
        (0 <= i < a.pads@.len() && a.pads@[i].index == p.index && b.pads@ == a.pads@.update(i, p))
            || (i == a.pads@.len() && !a.has_pad(p.index) && b.pads@ == a.pads@.push(p)),
    ensures
        b.wf(),
        b.model() == (FlowModel { pads: a.model().pads.insert(p.index, pad_view(p)), ..a.model() }),
{
    assert(b.pads@[i] == p);
    assert(b.wf()) by {
        assert forall|x: int, y: int| 0 <= x < y < b.pads@.len() implies b.pads@[x].index
            != b.pads@[y].index by {
            if x != i && y != i {
                assert(b.pads@[x] == a.pads@[x] && b.pads@[y] == a.pads@[y]);
            } else if x == i {
                assert(b.pads@[y] == a.pads@[y]);
                if i < a.pads@.len() {
                    assert(a.pads@[i].index != a.pads@[y].index);
                }
            } else {
                assert(b.pads@[x] == a.pads@[x]);
                if i < a.pads@.len() {
                    assert(a.pads@[x].index != a.pads@[i].index);
                }
            }
        }
    }
    assert(b.has_pad(p.index));
    let jb = choose|j: int| 0 <= j < b.pads@.len() && b.pads@[j].index == p.index;
    assert(b.pads@[jb].index == b.pads@[i].index);
    assert forall|k: u32| k != p.index implies b.has_pad(k) == a.has_pad(k) && (a.has_pad(k)
        ==> b.pad_of(k) == a.pad_of(k)) by {
        if a.has_pad(k) {
            let ja = choose|j: int| 0 <= j < a.pads@.len() && a.pads@[j].index == k;
            assert(b.pads@[ja] == a.pads@[ja]);
            assert(b.has_pad(k));
            let jb2 = choose|j: int| 0 <= j < b.pads@.len() && b.pads@[j].index == k;
            assert(b.pads@[jb2].index == b.pads@[ja].index);
        } else if b.has_pad(k) {
            let jb2 = choose|j: int| 0 <= j < b.pads@.len() && b.pads@[j].index == k;
            assert(jb2 != i);
            assert(a.pads@[jb2] == b.pads@[jb2]);
        }
    }
    assert(b.model().pads =~= a.model().pads.insert(p.index, pad_view(p)));
    assert(b.model().elements =~= a.model().elements);
}

/// Prefixes findings to a stream result; an error stays as it is.
pub open spec fn prepend(a: Seq<Finding>, r: Result<Seq<Finding>, FlowError>) -> Result<
    Seq<Finding>,
    FlowError,
> {
    match r {
        Ok(g) => Ok(a + g),
        Err(e) => Err(e),
    }
}

/// The result of a stream of events from model `m`: every finding in order, or the
/// error of the first event that fails.
pub open spec fn stream_result(m: FlowModel, evs: Seq<TraceEvent>) -> Result<Seq<Finding>, FlowError>
    decreases evs.len(),
{
    if evs.len() == 0 {
        Ok(Seq::empty())
    } else {
        let (m2, r) = event_step(m, evs[0]);
        match r {
            Ok(f) => prepend(f, stream_result(m2, evs.drop_first())),
            Err(e) => Err(e),
        }
    }
}

/// Checks a whole stream of events with a fresh registry; stops at the first error.
pub fn check_events(command: Command, events: &Vec<TraceEvent>) -> (r: Result<Vec<Finding>, FlowError>)
    ensures
        result_view(r) == stream_result(empty_model(command), events@),
{
    let mut flow = Flow::new(command);
    let mut all: Vec<Finding> = Vec::new();
    let n = events.len();
    let mut i: usize = 0;
    proof {
        assert(flow.model().elements =~= empty_model(command).elements);
        assert(flow.model().pads =~= empty_model(command).pads);
        assert(events@.subrange(0, n as int) =~= events@);
        assert(all@ + Seq::<Finding>::empty() =~= Seq::<Finding>::empty());
    }
    while i < n
        invariant
            flow.wf(),
            n == events@.len(),
            i <= n,
            stream_result(empty_model(command), events@) == prepend(
                all@,
                stream_result(flow.model(), events@.subrange(i as int, n as int)),
            ),
        decreases n - i,
    {
        let ghost m = flow.model();
        let ghost rest = events@.subrange(i as int, n as int);
        assert(rest[0] == events@[i as int]);
        assert(rest.drop_first() =~= events@.subrange(i + 1, n as int));
        let found = flow.parse(&events[i]);
        match found {
            Ok(v) => {
                let ghost prev = all@;
                let mut j: usize = 0;
                while j < v.len()
                    invariant
                        j <= v@.len(),
                        all@ =~= prev + v@.subrange(0, j as int),
                    decreases v@.len() - j,
                {
                    all.push(v[j]);
                    j += 1;
                }
                proof {
                    assert(v@.subrange(0, v@.len() as int) =~= v@);
                    let tail = stream_result(flow.model(), events@.subrange(i + 1, n as int));
                    match tail {
                        Ok(g) => {
                            assert(prev + (v@ + g) =~= (prev + v@) + g);
                        },
                        Err(e) => {},
                    }
                }
            },
            Err(e) => {
                return Err(e);
            },
        }
        i += 1;
    }
    proof {
        assert(events@.subrange(n as int, n as int) =~= Seq::<TraceEvent>::empty());
        assert(all@ + Seq::<Finding>::empty() =~= all@);
    }
    Ok(all)
}

/// The first buffer seen on a pad has nothing to compare against: it yields no finding.
pub proof fn lemma_first_buffer_no_finding(
    c: Command,
    pad: u32,
    pts: Option<u64>,
    dts: Option<u64>,
)
    ensures
        buffer_findings(c, pad, None, None, pts, dts).len() == 0,
{
    assert(buffer_findings(c, pad, None, None, pts, dts) =~= Seq::<Finding>::empty());
}

/// The first buffer of a pad, whether the pad was registered without timestamps or
/// never seen, yields no finding, and its timestamps become the pad's.
pub proof fn lemma_first_buffer(
    m: FlowModel,
    pad_ix: u32,
    element_ix: u32,
    pts: Option<u64>,
    dts: Option<u64>,
)
    requires
        m.elements.contains_key(element_ix),
        m.pads.contains_key(pad_ix) ==> m.pads[pad_ix].last_pts.is_none()
            && m.pads[pad_ix].last_dts.is_none(),
    ensures
        buffer_step(m, pad_ix, element_ix, pts, dts).1 == Ok::<Seq<Finding>, FlowError>(
            Seq::empty(),
        ),
        buffer_step(m, pad_ix, element_ix, pts, dts).0.pads.contains_key(pad_ix),
        buffer_step(m, pad_ix, element_ix, pts, dts).0.pads[pad_ix].last_pts == pts,
        buffer_step(m, pad_ix, element_ix, pts, dts).0.pads[pad_ix].last_dts == dts,
{
    lemma_first_buffer_no_finding(m.command, pad_ix, pts, dts);
    assert(buffer_findings(m.command, pad_ix, None, None, pts, dts) =~= Seq::<Finding>::empty());
}

/// Registering an element index a second time, under any name, changes nothing.
pub proof fn lemma_element_registered_once(m: FlowModel, ix: u32, a: Seq<char>, b: Seq<char>)
    ensures
        element_step(element_step(m, ix, a), ix, b) == element_step(m, ix, a),
        element_step(m, ix, a).elements[ix] == (if m.elements.contains_key(ix) {
            m.elements[ix]
        } else {
            a
        }),
        element_step(m, ix, a).elements.dom() == m.elements.dom().insert(ix),
{
    if !m.elements.contains_key(ix) {
        assert(element_step(m, ix, a).elements.dom() =~= m.elements.dom().insert(ix));
    } else {
        assert(m.elements.dom() =~= m.elements.dom().insert(ix));
    }
}

/// Two buffers in a row on one pad with values `a` then `b` for a checked kind: exactly
/// one finding, comparing `b < a`, when `b` is below `a`, and none otherwise.
pub proof fn lemma_pts_pair(c: Command, pad: u32, a: u64, b: u64, last_dts: Option<u64>)
    requires
        checks_pts(c),
    ensures
        b < a ==> buffer_findings(c, pad, Some(a), last_dts, Some(b), None) == seq![
            Finding { pad, kind: TsKind::Pts, previous: a, current: b },
        ],
        b >= a ==> buffer_findings(c, pad, Some(a), last_dts, Some(b), None).len() == 0,
{
    assert(buffer_findings(c, pad, Some(a), last_dts, Some(b), None) =~= if b < a {
        seq![Finding { pad, kind: TsKind::Pts, previous: a, current: b }]
    } else {
        Seq::<Finding>::empty()
    });
}

/// The same as `lemma_pts_pair`, for decode timestamps.
pub proof fn lemma_dts_pair(c: Command, pad: u32, a: u64, b: u64, last_pts: Option<u64>)
    requires
        checks_dts(c),
    ensures
        b < a ==> buffer_findings(c, pad, last_pts, Some(a), None, Some(b)) == seq![
            Finding { pad, kind: TsKind::Dts, previous: a, current: b },
        ],
        b >= a ==> buffer_findings(c, pad, last_pts, Some(a), None, Some(b)).len() == 0,
{
    assert(buffer_findings(c, pad, last_pts, Some(a), None, Some(b)) =~= if b < a {
        seq![Finding { pad, kind: TsKind::Dts, previous: a, current: b }]
    } else {
        Seq::<Finding>::empty()
    });
}

} // verus!
