//! Timeline markers: a rectangular pulse per observed instant, the element part of
//! an `element:pad` object label, and the pts written in a scheduling message.
use vstd::prelude::*;

verus! {

/// The rise and fall instants of the pulse marking `ts`: up at `ts`, down one
/// nanosecond later; none where `ts + 1` does not fit.
pub fn pulse(ts: u64) -> (r: Option<(u64, u64)>)
    ensures
        ts < u64::MAX ==> r == Some((ts, (ts + 1) as u64)),
        ts == u64::MAX ==> r.is_none(),
{
    if ts < u64::MAX {
        Some((ts, ts + 1))
    } else {
        None
    }
}

/// The element name of an object label: everything before the first `:`, or the
/// whole label where it has none.
pub fn element_of(label: &Vec<char>) -> (r: Vec<char>)
    ensures
        r@.len() <= label@.len(),
        r@ == label@.subrange(0, r@.len() as int),
        forall|j: int| 0 <= j < r@.len() ==> r@[j] != ':',
        r@.len() < label@.len() ==> label@[r@.len() as int] == ':',
{
    let mut out: Vec<char> = Vec::new();
    let mut i: usize = 0;
    while i < label.len()
        invariant
            i <= label@.len(),
            out@ =~= label@.subrange(0, i as int),
            forall|j: int| 0 <= j < i ==> label@[j] != ':',
        decreases label@.len() - i,
    {
        if label[i] == ':' {
            return out;
        }
        out.push(label[i]);
        i += 1;
    }
    out
}

/// The text `pts ` starts at position `i` of `s`.
pub open spec fn pts_tag_at(s: Seq<char>, i: int) -> bool {
    0 <= i && i + 4 <= s.len() && s[i] == 'p' && s[i + 1] == 't' && s[i + 2] == 's' && s[i + 3]
        == ' '
}

/// Where a field of `s` that starts at `from` ends: at the first `,` or `pts ` tag, or
/// at the end.
pub open spec fn field_stops_at(s: Seq<char>, from: int, end: int) -> bool {
    &&& from <= end <= s.len()
    &&& forall|j: int| from <= j < end ==> s[j] != ',' && !pts_tag_at(s, j)
    &&& end < s.len() ==> s[end] == ',' || pts_tag_at(s, end)
}

/// The first `pts ` tag of `s` is at `i`, and the field after it ends at `end`.
pub open spec fn first_pts_field(s: Seq<char>, i: int, end: int) -> bool {
    &&& pts_tag_at(s, i)
    &&& forall|j: int| 0 <= j < i ==> !pts_tag_at(s, j)
    &&& field_stops_at(s, i + 4, end)
}

fn tag_at(s: &Vec<char>, i: usize) -> (r: bool)
    requires
        i <= s@.len(),
    ensures
        r == pts_tag_at(s@, i as int),
{
    s.len() >= 4 && i <= s.len() - 4 && s[i] == 'p' && s[i + 1] == 't' && s[i + 2] == 's' && s[i + 3] == ' '
}

/// The buffer pts written in a scheduling message: the text after its first `pts `
/// tag, up to the next `,` or `pts ` tag; none where the message has no tag.
pub fn pts_field(msg: &Vec<char>) -> (r: Option<Vec<char>>)
    ensures
        r.is_none() <==> forall|i: int| 0 <= i < msg@.len() ==> !pts_tag_at(msg@, i),
        r.is_some() ==> exists|i: int, end: int|
            #[trigger] first_pts_field(msg@, i, end) && r.unwrap()@ == msg@.subrange(i + 4, end),
{
    let n = msg.len();
    let mut i: usize = 0;
    while i < n
        invariant
            n == msg@.len(),
            i <= n,
            forall|j: int| 0 <= j < i ==> !pts_tag_at(msg@, j),
        decreases n - i,
    {
        if tag_at(msg, i) {
            let start = i + 4;
            let mut out: Vec<char> = Vec::new();
            let mut k: usize = start;
            while k < n && msg[k] != ',' && !tag_at(msg, k)
                invariant
                    n == msg@.len(),
                    start <= k <= n,
                    start == i + 4,
                    pts_tag_at(msg@, i as int),
                    out@ =~= msg@.subrange(start as int, k as int),
                    forall|j: int| start <= j < k ==> msg@[j] != ',' && !pts_tag_at(msg@, j),
                decreases n - k,
            {
                out.push(msg[k]);
                k += 1;
            }
            assert(first_pts_field(msg@, i as int, k as int));
            return Some(out);
        }
        i += 1;
    }
    None
}

} // verus!
