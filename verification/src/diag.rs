use vstd::prelude::*;

use crate::error::{CompileError, Span};
use vstd::string::StringSliceAdditionalSpecFns;

verus! {

// The diagnostics formatter: maps an error's source spans back onto the
// expression text as a sequence of styled segments. Overlapping and nested
// spans coalesce — a marked segment runs from where coverage first begins
// to where it ends — and the segments reconstruct the text exactly, with
// no gaps and no overlaps.

/// One run of bytes of the source text, marked when some error span
/// covers it.
#[derive(Clone, Copy, Debug, PartialEq, Eq, Structural)]
pub struct Section {
    pub start: usize,
    pub end: usize,
    pub marked: bool,
}

/// Whether position `pos` lies inside some span of `spans`.
pub open spec fn covered(spans: Seq<Span>, pos: int) -> bool {
    exists|s: int| 0 <= s < spans.len() && (#[trigger] spans[s]).start <= pos < spans[s].end
}

/// Whether position `pos` of the source lies inside one of the error's
/// spans.
fn covers(spans: &Vec<Span>, pos: usize) -> (r: bool)
    ensures
        r == covered(spans@, pos as int),
{
    let n = spans.len();
    let mut s: usize = 0;
    while s < n
        invariant
            n == spans@.len(),
            s <= n,
            forall|k: int| 0 <= k < s ==> !((#[trigger] spans@[k]).start <= pos < spans@[k].end),
        decreases n - s,
    {
        if spans[s].start <= pos && pos < spans[s].end {
            return true;
        }
        s += 1;
    }
    false
}

/// Whether `secs` exactly tiles `0..n` and its marks alternate and agree
/// with span coverage.
pub open spec fn spec_sections_ok(secs: Seq<Section>, spans: Seq<Span>, n: int) -> bool {
    &&& (n == 0 ==> secs.len() == 0)
    &&& (n > 0 ==> {
        &&& secs.len() > 0
        &&& secs[0].start == 0
        &&& secs[secs.len() - 1].end == n
        &&& forall|k: int| 0 <= k < secs.len() - 1 ==> (#[trigger] secs[k]).end == secs[k + 1].start
        &&& forall|k: int| 0 <= k < secs.len() ==> (#[trigger] secs[k]).start < secs[k].end
        &&& forall|k: int|
            #![trigger secs[k]]
            0 <= k < secs.len() ==> (forall|p: int|
                secs[k].start <= p < secs[k].end ==> #[trigger] covered(spans, p)
                    == secs[k].marked)
        &&& forall|k: int| 0 <= k < secs.len() - 1 ==> (#[trigger] secs[k]).marked != secs[k
            + 1].marked
    })
}

/// Splits the source into sections, marking exactly the bytes that the
/// error's spans cover, with overlapping spans coalesced: together the
/// sections reconstruct the whole text, in order, without gaps or
/// overlaps, and neighbouring sections always differ in marking.
pub fn mark_errors(input: &str, error: &CompileError) -> (r: Vec<Section>)
    ensures
        spec_sections_ok(r@, error.spans@, input.spec_bytes().len() as int),
{
    let spans = &error.spans;
    let bytes = input.as_bytes();
    let n = bytes.len();
    let mut secs: Vec<Section> = Vec::new();
    if n == 0 {
        return secs;
    }
    let mut cur = covers(spans, 0);
    let mut seg_start: usize = 0;
    let mut i: usize = 1;
    while i < n
        invariant
            n == input.spec_bytes().len(),
            n > 0,
            1 <= i <= n,
            seg_start < i,
            cur == covered(error.spans@, i - 1),
            spans == &error.spans,
            forall|p: int| seg_start <= p < i ==> covered(error.spans@, p) == cur,
            secs@.len() == 0 ==> seg_start == 0,
            secs@.len() > 0 ==> {
                &&& secs@[0].start == 0
                &&& secs@[secs@.len() - 1].end == seg_start
                &&& secs@[secs@.len() - 1].marked != cur
            },
            forall|k: int|
                0 <= k < secs@.len() - 1 ==> (#[trigger] secs@[k]).end == secs@[k + 1].start,
            forall|k: int| 0 <= k < secs@.len() ==> (#[trigger] secs@[k]).start < secs@[k].end,
            forall|k: int|
                #![trigger secs@[k]]
                0 <= k < secs@.len() ==> (forall|p: int|
                    secs@[k].start <= p < secs@[k].end ==> #[trigger] covered(error.spans@, p)
                        == secs@[k].marked),
            forall|k: int|
                0 <= k < secs@.len() - 1 ==> (#[trigger] secs@[k]).marked != secs@[k + 1].marked,
        decreases n - i,
    {
        let c = covers(spans, i);
        if c != cur {
            secs.push(Section { start: seg_start, end: i, marked: cur });
            seg_start = i;
            cur = c;
        }
        i += 1;
    }
    secs.push(Section { start: seg_start, end: n, marked: cur });
    secs
}

} // verus!
