use vstd::prelude::*;

use crate::compile::compile;
use crate::data::LogStream;
use crate::error::ExprError;
use crate::num::{add_text, div_text, int_text, mul_text, nan_text, sub_text, Num};
use crate::program::{Instr, Program};
use crate::run::{binds_view, run_code, spec_exec};
use vstd::utf8::{encode_utf8, is_ascii_chars, is_ascii_chars_encode_utf8};

verus! {

// The evaluator: compiles an expression pair against every channel name
// plus the synthetic `time`, then walks the primary stream sample by
// sample, resolves each variable's value (interpolating other streams
// against their own time axes), runs both programs, and keeps the points
// where both succeed. Failing samples are skipped, never substituted.

/// One expression pair, as the user typed it: the X and the Y formula.
#[derive(Clone, Debug)]
pub struct Expr {
    pub x: String,
    pub y: String,
}

impl Expr {
    pub fn new(x: String, y: String) -> (r: Expr)
        ensures
            r.x@ == x@,
            r.y@ == y@,
    {
        Expr { x, y }
    }
}

impl Default for Expr {
    /// Both axes empty.
    fn default() -> (r: Expr)
        ensures
            r.x@ == ""@,
            r.y@ == ""@,
    {
        Expr { x: String::from_str(""), y: String::from_str("") }
    }
}

/// Where a variable id reads from: channel `c` of stream `s`, or the
/// primary stream's timestamp scaled to seconds.
#[derive(Clone, Copy, Debug, PartialEq, Eq, Structural)]
pub enum Binding {
    Chan(usize, usize),
    Time,
}

/// The names of one stream's channels, in order, as bytes.
pub open spec fn entry_names(entries: Seq<crate::data::DataEntry>) -> Seq<Seq<u8>> {
    Seq::new(entries.len(), |c: int| encode_utf8(entries[c].name@))
}

/// The channel names of the first `s` streams, concatenated.
pub open spec fn names_first(streams: Seq<LogStream>, s: int) -> Seq<Seq<u8>>
    decreases s,
{
    if s <= 0 {
        Seq::empty()
    } else {
        names_first(streams, s - 1) + entry_names(streams[s - 1].entries@)
    }
}

/// The full name table: every channel name of every stream, stream by
/// stream, then the synthetic `time`.
pub open spec fn spec_names(streams: Seq<LogStream>) -> Seq<Seq<u8>> {
    names_first(streams, streams.len() as int).push(encode_utf8("time"@))
}

/// The bindings of one stream's channels.
pub open spec fn chan_binds(s: int, n: int) -> Seq<Binding> {
    Seq::new(n as nat, |c: int| Binding::Chan(s as usize, c as usize))
}

/// The bindings of the first `s` streams, concatenated.
pub open spec fn binds_first(streams: Seq<LogStream>, s: int) -> Seq<Binding>
    decreases s,
{
    if s <= 0 {
        Seq::empty()
    } else {
        binds_first(streams, s - 1) + chan_binds(s - 1, streams[s - 1].entries@.len() as int)
    }
}

/// The full binding table, aligned with `spec_names`: one entry per
/// channel, then the time axis.
pub open spec fn spec_table(streams: Seq<LogStream>) -> Seq<Binding> {
    binds_first(streams, streams.len() as int).push(Binding::Time)
}

/// Builds the name table and the binding table. They align index by index
/// with `spec_names` and `spec_table`: the compiler's variable ids index
/// both.
pub fn build_table(streams: &Vec<LogStream>) -> (r: (Vec<Vec<u8>>, Vec<Binding>))
    ensures
        r.0@.map_values(|v: Vec<u8>| v@) == spec_names(streams@),
        r.1@ == spec_table(streams@),
        r.0@.len() == r.1@.len(),
{
    let mut names: Vec<Vec<u8>> = Vec::new();
    let mut table: Vec<Binding> = Vec::new();
    proof {
        assert(names@.map_values(|v: Vec<u8>| v@) =~= names_first(streams@, 0));
        assert(table@ =~= binds_first(streams@, 0));
    }
    let n = streams.len();
    let mut s: usize = 0;
    while s < n
        invariant
            n == streams@.len(),
            s <= n,
            names@.map_values(|v: Vec<u8>| v@) == names_first(streams@, s as int),
            table@ == binds_first(streams@, s as int),
            names@.len() == table@.len(),
        decreases n - s,
    {
        let entries = &streams[s].entries;
        let m = entries.len();
        proof {
            assert(names@.map_values(|v: Vec<u8>| v@) =~= names_first(streams@, s as int)
                + entry_names(streams@[s as int].entries@).subrange(0, 0));
            assert(table@ =~= binds_first(streams@, s as int) + chan_binds(
                s as int,
                m as int,
            ).subrange(0, 0));
        }
        let mut c: usize = 0;
        while c < m
            invariant
                n == streams@.len(),
                s < n,
                c <= m,
                m == streams@[s as int].entries@.len(),
                entries == &streams@[s as int].entries,
                names@.map_values(|v: Vec<u8>| v@) == names_first(streams@, s as int)
                    + entry_names(streams@[s as int].entries@).subrange(0, c as int),
                table@ == binds_first(streams@, s as int) + chan_binds(s as int, m as int).subrange(
                    0,
                    c as int,
                ),
                names@.len() == table@.len(),
            decreases m - c,
        {
            let nm = entries[c].name.as_str().as_bytes_vec();
            proof {
                assert(nm@ == encode_utf8(streams@[s as int].entries@[c as int].name@));
                assert(entry_names(streams@[s as int].entries@)[c as int] == nm@);
            }
            let ghost old_map = names@.map_values(|v: Vec<u8>| v@);
            names.push(nm);
            table.push(Binding::Chan(s, c));
            proof {
                assert(names@.map_values(|v: Vec<u8>| v@) =~= old_map.push(nm@));
                assert(names@.map_values(|v: Vec<u8>| v@) =~= names_first(streams@, s as int)
                    + entry_names(streams@[s as int].entries@).subrange(0, c as int + 1));
                assert(table@ =~= binds_first(streams@, s as int) + chan_binds(
                    s as int,
                    m as int,
                ).subrange(0, c as int + 1));
            }
            c += 1;
        }
        proof {
            assert(entry_names(streams@[s as int].entries@).subrange(0, m as int) =~= entry_names(
                streams@[s as int].entries@,
            ));
            assert(chan_binds(s as int, m as int).subrange(0, m as int) =~= chan_binds(
                s as int,
                m as int,
            ));
            assert(names_first(streams@, s as int + 1) == names_first(streams@, s as int)
                + entry_names(streams@[s as int].entries@));
            assert(binds_first(streams@, s as int + 1) == binds_first(streams@, s as int)
                + chan_binds(s as int, streams@[s as int].entries@.len() as int));
        }
        s += 1;
    }
    let time_name: Vec<u8> = "time".as_bytes_vec();
    proof {
        assert(time_name@ == encode_utf8("time"@));
    }
    let ghost old_map = names@.map_values(|v: Vec<u8>| v@);
    names.push(time_name);
    table.push(Binding::Time);
    proof {
        assert(names@.map_values(|v: Vec<u8>| v@) =~= old_map.push(encode_utf8("time"@)));
        assert(names@.map_values(|v: Vec<u8>| v@) =~= spec_names(streams@));
    }
    (names, table)
}

/// The least index of `times` holding a value at least `t`, or the length
/// if every value is smaller.
pub open spec fn first_at_least(times: Seq<u32>, t: u32) -> int
    decreases times.len(),
{
    if times.len() == 0 {
        0
    } else if times[0] >= t {
        0
    } else {
        1 + first_at_least(times.skip(1), t)
    }
}

/// The characterization of `first_at_least`.
pub proof fn lemma_first_at_least(times: Seq<u32>, t: u32)
    ensures
        0 <= first_at_least(times, t) <= times.len(),
        forall|k: int| 0 <= k < first_at_least(times, t) ==> times[k] < t,
        first_at_least(times, t) < times.len() ==> times[first_at_least(times, t)] >= t,
    decreases times.len(),
{
    if times.len() > 0 && times[0] < t {
        lemma_first_at_least(times.skip(1), t);
        assert forall|k: int| 0 <= k < first_at_least(times, t) implies times[k] < t by {
            if k > 0 {
                assert(times.skip(1)[k - 1] == times[k]);
            }
        }
        if first_at_least(times, t) < times.len() {
            assert(times.skip(1)[first_at_least(times, t) - 1] == times[first_at_least(times, t)]);
        }
    }
}

/// The two-or-one-sample lookback window into another stream's time axis:
/// either one sample (an exact hit or a boundary clamp) or a bracketing
/// pair `j`, `j + 1`.
#[derive(Clone, Copy, Debug, PartialEq, Eq, Structural)]
pub enum Window {
    One(usize),
    Pair(usize),
}

/// The window that the resolver uses for time `t` against `times`: `None`
/// for an empty stream; one sample when `t` hits exactly, or lies before
/// the first or after the last sample; otherwise the bracketing pair.
pub open spec fn spec_window(times: Seq<u32>, t: u32) -> Option<Window> {
    if times.len() == 0 {
        None
    } else {
        let j = first_at_least(times, t);
        if j == times.len() {
            Some(Window::One((times.len() - 1) as usize))
        } else if times[j] == t {
            Some(Window::One(j as usize))
        } else if j == 0 {
            Some(Window::One(0))
        } else {
            Some(Window::Pair((j - 1) as usize))
        }
    }
}

/// Finds the window for `t`, resuming the scan at `cur`; never re-scans
/// from the start. Returns the new cursor (the first index at or past
/// `t`), so that the next, no-earlier sample time can resume there.
pub fn find_window(times: &Vec<u32>, t: u32, cur: usize) -> (r: (usize, Option<Window>))
    requires
        cur <= times@.len(),
        forall|k: int| 0 <= k < cur ==> times@[k] < t,
    ensures
        r.0 == first_at_least(times@, t),
        r.1 == spec_window(times@, t),
        r.1 matches Some(w) ==> match w {
            Window::One(j) => j < times@.len(),
            Window::Pair(j) => j + 1 < times@.len() && times@[j as int] < t < times@[j + 1],
        },
{
    proof {
        lemma_first_at_least(times@, t);
    }
    let n = times.len();
    if n == 0 {
        return (cur, None);
    }
    let mut j = cur;
    while j < n && times[j] < t
        invariant
            n == times@.len(),
            j <= n,
            forall|k: int| 0 <= k < j ==> times@[k] < t,
        decreases n - j,
    {
        j += 1;
    }
    proof {
        let f = first_at_least(times@, t);
        if j < f {
            assert(times@[j as int] < t);
        }
        if f < j {
            assert(times@[f] < t);
        }
        assert(j == f);
    }
    if j == n {
        (j, Some(Window::One(n - 1)))
    } else if times[j] == t {
        (j, Some(Window::One(j)))
    } else if j == 0 {
        (0, Some(Window::One(0)))
    } else {
        (j, Some(Window::Pair(j - 1)))
    }
}

/// The value of channel `c` of `stream` at instant `t` of the primary
/// axis: the sample itself at an exact hit or boundary clamp, linear
/// interpolation inside a bracketing window, NaN against an empty stream.
pub open spec fn spec_value_at(stream: LogStream, c: int, t: u32) -> Seq<u8> {
    match spec_window(stream.time@, t) {
        None => nan_text(),
        Some(Window::One(j)) => stream.entries@[c].kind.spec_get(j as int),
        Some(Window::Pair(j)) => {
            let t0 = stream.time@[j as int];
            let t1 = stream.time@[j + 1];
            let v0 = stream.entries@[c].kind.spec_get(j as int);
            let v1 = stream.entries@[c].kind.spec_get(j + 1);
            add_text(
                v0,
                mul_text(
                    div_text(int_text((t - t0) as i64), int_text((t1 - t0) as i64)),
                    sub_text(v1, v0),
                ),
            )
        },
    }
}

/// The value one binding takes at sample `i` of the primary stream.
pub open spec fn spec_bind_value(streams: Seq<LogStream>, b: Binding, i: int) -> Seq<u8> {
    match b {
        Binding::Chan(s, c) => if s == 0 {
            streams[0].entries@[c as int].kind.spec_get(i)
        } else {
            spec_value_at(streams[s as int], c as int, streams[0].time@[i])
        },
        Binding::Time => div_text(int_text(streams[0].time@[i] as i64), int_text(1000)),
    }
}

/// The whole binding vector at sample `i`.
pub open spec fn spec_binds_at(streams: Seq<LogStream>, i: int) -> Seq<Seq<u8>> {
    spec_table(streams).map(|k: int, b: Binding| spec_bind_value(streams, b, i))
}

/// The plot point sample `i` contributes: `Some` exactly when both
/// programs run without a runtime error.
pub open spec fn spec_point(px: Seq<Instr>, py: Seq<Instr>, streams: Seq<LogStream>, i: int) -> Option<
    (Seq<u8>, Seq<u8>),
> {
    let binds = spec_binds_at(streams, i);
    if spec_exec(px, binds) is Some && spec_exec(py, binds) is Some {
        Some((spec_exec(px, binds).unwrap(), spec_exec(py, binds).unwrap()))
    } else {
        None
    }
}

/// The points of the first `n` samples, in sample order, with failing
/// samples silently skipped.
pub open spec fn spec_points_upto(px: Seq<Instr>, py: Seq<Instr>, streams: Seq<LogStream>, n: int) -> Seq<
    (Seq<u8>, Seq<u8>),
>
    decreases n,
{
    if n <= 0 {
        Seq::empty()
    } else {
        spec_points_upto(px, py, streams, n - 1) + (match spec_point(px, py, streams, n - 1) {
            Some(p) => seq![p],
            None => Seq::empty(),
        })
    }
}

/// Never more points than samples, whatever the programs compute.
pub proof fn lemma_points_bound(px: Seq<Instr>, py: Seq<Instr>, streams: Seq<LogStream>, n: int)
    ensures
        spec_points_upto(px, py, streams, n).len() <= (if n >= 0 {
            n
        } else {
            0
        }),
    decreases n,
{
    if n > 0 {
        lemma_points_bound(px, py, streams, n - 1);
    }
}

/// Sample provenance and order: a surviving sample `i` appears in the
/// output at position `spec_points_upto(.., i).len()` — the number of
/// surviving samples before it — so surviving points keep the samples'
/// relative order, and dropped samples leave no trace.
pub proof fn lemma_points_provenance(
    px: Seq<Instr>,
    py: Seq<Instr>,
    streams: Seq<LogStream>,
    i: int,
    n: int,
)
    requires
        0 <= i < n,
    ensures
        spec_points_upto(px, py, streams, i).len() <= spec_points_upto(
            px,
            py,
            streams,
            n,
        ).len(),
        spec_point(px, py, streams, i) matches Some(p) ==> {
            let at = spec_points_upto(px, py, streams, i).len() as int;
            &&& at < spec_points_upto(px, py, streams, n).len()
            &&& spec_points_upto(px, py, streams, n)[at] == p
        },
    decreases n,
{
    if i == n - 1 {
        match spec_point(px, py, streams, i) {
            Some(p) => {
                assert(spec_points_upto(px, py, streams, n) == spec_points_upto(
                    px,
                    py,
                    streams,
                    i,
                ) + seq![p]);
            },
            None => {
                assert(spec_points_upto(px, py, streams, n) == spec_points_upto(
                    px,
                    py,
                    streams,
                    i,
                ) + Seq::<(Seq<u8>, Seq<u8>)>::empty());
                assert(spec_points_upto(px, py, streams, n) =~= spec_points_upto(
                    px,
                    py,
                    streams,
                    i,
                ));
            },
        }
    } else {
        lemma_points_provenance(px, py, streams, i, n - 1);
    }
}

/// Every entry of the flattened binding prefix is a channel binding of an
/// earlier stream, within that stream's channel count.
pub proof fn lemma_binds_first_bounds(streams: Seq<LogStream>, s: int)
    requires
        0 <= s <= streams.len(),
        streams.len() <= usize::MAX,
        forall|j: int| 0 <= j < streams.len() ==> (#[trigger] streams[j].entries@).len()
            <= usize::MAX,
    ensures
        forall|k: int|
            0 <= k < binds_first(streams, s).len() ==> ((#[trigger] binds_first(streams, s)[k])
                matches Binding::Chan(a, b) && a < s && b < streams[a as int].entries@.len()),
    decreases s,
{
    if s > 0 {
        lemma_binds_first_bounds(streams, s - 1);
        assert forall|k: int| 0 <= k < binds_first(streams, s).len() implies ((
        #[trigger] binds_first(streams, s)[k]) matches Binding::Chan(a, b) && a < s && b
            < streams[a as int].entries@.len()) by {
            let pre = binds_first(streams, s - 1);
            let m = streams[s - 1].entries@.len() as int;
            assert(binds_first(streams, s) == pre + chan_binds(s - 1, m));
            assert(chan_binds(s - 1, m).len() == m);
            if k < pre.len() {
                assert(binds_first(streams, s)[k] == pre[k]);
                assert(pre[k] matches Binding::Chan(a, b) && a < s - 1 && b < streams[a as int].entries@.len());
            } else {
                let c = k - pre.len();
                assert(binds_first(streams, s)[k] == chan_binds(s - 1, m)[c]);
                assert(chan_binds(s - 1, m)[c] == Binding::Chan((s - 1) as usize, c as usize));
                assert((s - 1) as usize == s - 1);
                assert(c as usize == c);
            }
        }
    }
}

/// One output point: a pair of canonical float texts.
#[derive(Clone, Debug)]
pub struct PlotPoint {
    pub x: Num,
    pub y: Num,
}

/// The spec view of a point list.
pub open spec fn points_view(s: Seq<PlotPoint>) -> Seq<(Seq<u8>, Seq<u8>)> {
    s.map(|i: int, p: PlotPoint| (p.x@, p.y@))
}

/// Linear interpolation between two samples:
/// `v0 + (t - t0) / (t1 - t0) * (v1 - v0)`, all in double arithmetic.
pub fn interp(v0: &Num, v1: &Num, t: u32, t0: u32, t1: u32) -> (r: Num)
    requires
        t0 <= t,
        t0 < t1,
    ensures
        r@ == add_text(
            v0@,
            mul_text(
                div_text(int_text((t - t0) as i64), int_text((t1 - t0) as i64)),
                sub_text(v1@, v0@),
            ),
        ),
{
    let pos = Num::of_int((t - t0) as i64);
    let range = Num::of_int((t1 - t0) as i64);
    let factor = pos.div(&range);
    v0.add(&factor.mul(&v1.sub(v0)))
}

/// Runs both compiled programs over every sample of the primary stream
/// (stream 0) and collects, in sample order, the points of exactly the
/// samples where both programs succeed. The result is precisely
/// `spec_points_upto` over the whole stream: a pure function of the
/// programs and the channel store, so re-evaluating an unchanged pair
/// against an unchanged store reproduces it identically.
pub fn eval_compiled(px: &Program, py: &Program, streams: &Vec<LogStream>) -> (r: Vec<PlotPoint>)
    requires
        streams@.len() >= 1,
        forall|s: int| 0 <= s < streams@.len() ==> (#[trigger] streams@[s]).wf(),
        px.wf(),
        py.wf(),
        px.n_vars == spec_table(streams@).len(),
        py.n_vars == spec_table(streams@).len(),
    ensures
        points_view(r@) == spec_points_upto(
            px.code@,
            py.code@,
            streams@,
            streams@[0].time@.len() as int,
        ),
        r@.len() <= streams@[0].time@.len(),
{
    let tables = build_table(streams);
    let table = tables.1;
    let m = streams.len();
    let n = streams[0].time.len();
    let mut cursors: Vec<usize> = Vec::new();
    let mut s0: usize = 0;
    while s0 < m
        invariant
            cursors@.len() == s0 <= m,
            forall|s: int| 0 <= s < s0 ==> cursors@[s] == 0,
        decreases m - s0,
    {
        cursors.push(0);
        s0 += 1;
    }
    let mut points: Vec<PlotPoint> = Vec::new();
    proof {
        assert(points_view(points@) =~= spec_points_upto(px.code@, py.code@, streams@, 0));
    }
    let mut i: usize = 0;
    while i < n
        invariant
            m == streams@.len(),
            1 <= m,
            n == streams@[0].time@.len(),
            forall|s: int| 0 <= s < streams@.len() ==> (#[trigger] streams@[s]).wf(),
            px.wf(),
            py.wf(),
            px.n_vars == spec_table(streams@).len(),
            py.n_vars == spec_table(streams@).len(),
            table@ == spec_table(streams@),
            i <= n,
            cursors@.len() == m,
            forall|s: int| 1 <= s < m ==> cursors@[s] <= streams@[s].time@.len(),
            forall|s: int, k: int|
                1 <= s < m && 0 <= k < cursors@[s] && i < n ==> (#[trigger] streams@[s].time@[k])
                    < streams@[0].time@[i as int],
            points_view(points@) == spec_points_upto(px.code@, py.code@, streams@, i as int),
            points@.len() <= i,
        decreases n - i,
    {
        let t = streams[0].time[i];
        proof {
            assert(streams@[0].wf());
            if i > 0 {
                assert(streams@[0].time@[i - 1] <= streams@[0].time@[i as int]);
            }
        }
        // One lookback window per secondary stream, advanced monotonically.
        let mut wins: Vec<Option<Window>> = Vec::new();
        wins.push(None);
        let mut s: usize = 1;
        while s < m
            invariant
                m == streams@.len(),
                n == streams@[0].time@.len(),
                forall|s2: int| 0 <= s2 < streams@.len() ==> (#[trigger] streams@[s2]).wf(),
                i < n,
                t == streams@[0].time@[i as int],
                1 <= s <= m,
                wins@.len() == s,
                cursors@.len() == m,
                forall|s2: int|
                    1 <= s2 < s ==> wins@[s2] == spec_window(
                        streams@[s2].time@,
                        streams@[0].time@[i as int],
                    ),
                forall|s2: int| 1 <= s2 < m ==> cursors@[s2] <= streams@[s2].time@.len(),
                forall|s2: int, k: int|
                    1 <= s2 < m && 0 <= k < cursors@[s2] ==> (#[trigger] streams@[s2].time@[k])
                        < t,
                forall|s2: int|
                    1 <= s2 < s ==> cursors@[s2] == first_at_least(
                        streams@[s2].time@,
                        streams@[0].time@[i as int],
                    ),
            decreases m - s,
        {
            proof {
                lemma_first_at_least(streams@[s as int].time@, t);
            }
            let res = find_window(&streams[s].time, t, cursors[s]);
            proof {
                assert(res.0 <= streams@[s as int].time@.len());
            }
            let ghost old_cursors = cursors@;
            cursors.set(s, res.0);
            proof {
                assert(cursors@ == old_cursors.update(s as int, res.0));
                assert forall|s2: int| 1 <= s2 < m implies cursors@[s2] <= streams@[
                    s2].time@.len() by {
                    if s2 != s {
                        assert(cursors@[s2] == old_cursors[s2]);
                    }
                }
                assert forall|s2: int, k: int|
                    1 <= s2 < m && 0 <= k < cursors@[s2] implies (
                #[trigger] streams@[s2].time@[k]) < t by {
                    if s2 != s {
                        assert(cursors@[s2] == old_cursors[s2]);
                    }
                }
            }
            wins.push(res.1);
            s += 1;
        }
        // Resolve every variable of the binding table for this sample.
        let mut binds: Vec<Num> = Vec::new();
        proof {
            broadcast use vstd::std_specs::vec::axiom_spec_len;

            assert forall|j: int| 0 <= j < streams@.len() implies (
            #[trigger] streams@[j].entries@).len() <= usize::MAX by {
                assert(vstd::std_specs::vec::spec_vec_len(&streams@[j].entries) == streams@[
                    j].entries@.len());
            }
            lemma_binds_first_bounds(streams@, streams@.len() as int);
            assert(binds_view(binds@) =~= spec_binds_at(streams@, i as int).subrange(0, 0));
        }
        let tl = table.len();
        let mut k: usize = 0;
        while k < tl
            invariant
                m == streams@.len(),
                1 <= m,
                n == streams@[0].time@.len(),
                forall|s2: int| 0 <= s2 < streams@.len() ==> (#[trigger] streams@[s2]).wf(),
                i < n,
                t == streams@[0].time@[i as int],
                table@ == spec_table(streams@),
                tl == table@.len(),
                k <= tl,
                wins@.len() == m,
                forall|s2: int|
                    1 <= s2 < m ==> wins@[s2] == spec_window(
                        streams@[s2].time@,
                        streams@[0].time@[i as int],
                    ),
                binds_view(binds@) == spec_binds_at(streams@, i as int).subrange(0, k as int),
            decreases tl - k,
        {
            proof {
                broadcast use vstd::std_specs::vec::axiom_spec_len;

                assert forall|j: int| 0 <= j < streams@.len() implies (
                #[trigger] streams@[j].entries@).len() <= usize::MAX by {
                    assert(vstd::std_specs::vec::spec_vec_len(&streams@[j].entries) == streams@[
                    j].entries@.len());
                }
                lemma_binds_first_bounds(streams@, streams@.len() as int);
            }
            let b = table[k];
            let v: Num = match b {
                Binding::Time => Num::of_int(t as i64).div(&Num::of_int(1000)),
                Binding::Chan(cs, cc) => {
                    proof {
                        if k < tl - 1 {
                            assert(table@[k as int] == binds_first(
                                streams@,
                                streams@.len() as int,
                            )[k as int]);
                        }
                        assert(streams@[cs as int].wf());
                    }
                    if cs == 0 {
                        streams[0].entries[cc].kind.get_num(i)
                    } else {
                        let nlen = streams[cs].time.len();
                        match wins[cs] {
                            None => Num::nan(),
                            Some(Window::One(j)) => {
                                proof {
                                    lemma_first_at_least(streams@[cs as int].time@, t);
                                    assert(spec_window(streams@[cs as int].time@, t) == Some(
                                        Window::One(j),
                                    ));
                                    assert(j < nlen);
                                }
                                streams[cs].entries[cc].kind.get_num(j)
                            },
                            Some(Window::Pair(j)) => {
                                proof {
                                    lemma_first_at_least(streams@[cs as int].time@, t);
                                    assert(spec_window(streams@[cs as int].time@, t) == Some(
                                        Window::Pair(j),
                                    ));
                                    assert(first_at_least(streams@[cs as int].time@, t) == j + 1);
                                    assert(j + 1 < nlen);
                                    assert(streams@[cs as int].time@[j as int] < t);
                                    assert(streams@[cs as int].time@[j + 1] > t);
                                }
                                let t0 = streams[cs].time[j];
                                let t1 = streams[cs].time[j + 1];
                                let v0 = streams[cs].entries[cc].kind.get_num(j);
                                let v1 = streams[cs].entries[cc].kind.get_num(j + 1);
                                interp(&v0, &v1, t, t0, t1)
                            },
                        }
                    }
                },
            };
            proof {
                assert(v@ == spec_bind_value(streams@, table@[k as int], i as int));
                assert(spec_binds_at(streams@, i as int)[k as int] == spec_bind_value(
                    streams@,
                    table@[k as int],
                    i as int,
                ));
            }
            let ghost old_bv = binds_view(binds@);
            binds.push(v);
            proof {
                assert(binds_view(binds@) =~= old_bv.push(v@));
                assert(binds_view(binds@) =~= spec_binds_at(streams@, i as int).subrange(
                    0,
                    k as int + 1,
                ));
            }
            k += 1;
        }
        proof {
            assert(spec_binds_at(streams@, i as int).subrange(0, tl as int) =~= spec_binds_at(
                streams@,
                i as int,
            ));
            assert(binds@.len() == spec_table(streams@).len());
        }
        // Execute both axes against the same bindings; keep the sample only
        // if both succeed.
        let rx = run_code(px, &binds);
        let ry = run_code(py, &binds);
        let ghost gp = spec_point(px.code@, py.code@, streams@, i as int);
        let ghost old_pv = points_view(points@);
        match (rx, ry) {
            (Some(x), Some(y)) => {
                proof {
                    assert(gp == Some((x@, y@)));
                }
                points.push(PlotPoint { x, y });
                proof {
                    assert(points_view(points@) =~= old_pv.push((x@, y@)));
                    assert(spec_points_upto(px.code@, py.code@, streams@, i as int + 1)
                        =~= old_pv.push((x@, y@)));
                }
            },
            _ => {
                proof {
                    assert(gp is None);
                    assert(spec_points_upto(px.code@, py.code@, streams@, i as int + 1)
                        =~= old_pv);
                }
            },
        }
        proof {
            if i + 1 < n {
                assert(streams@[0].wf());
                assert(streams@[0].time@[i as int] <= streams@[0].time@[i as int + 1]);
            }
        }
        i += 1;
    }
    points
}


/// Whether no channel of any stream is itself named `time`, so that the
/// identifier binds to the synthetic time axis (the last table entry).
pub open spec fn spec_no_time_channel(streams: Seq<LogStream>) -> bool {
    forall|k: int|
        0 <= k < spec_names(streams).len() - 1 ==> #[trigger] spec_names(streams)[k]
            != encode_utf8("time"@)
}

/// The bytes of the literal `time`, established once for the proofs below.
proof fn lemma_time_bytes()
    ensures
        encode_utf8("time"@) == seq![116u8, 105u8, 109u8, 101u8],
        encode_utf8("PI"@).len() == 2,
        encode_utf8("E"@).len() == 1,
        encode_utf8("TAU"@).len() == 3,
{
    reveal_strlit("time");
    reveal_strlit("PI");
    reveal_strlit("E");
    reveal_strlit("TAU");
    assert(is_ascii_chars("time"@));
    assert(is_ascii_chars("PI"@));
    assert(is_ascii_chars("E"@));
    assert(is_ascii_chars("TAU"@));
    is_ascii_chars_encode_utf8("time"@);
    is_ascii_chars_encode_utf8("PI"@);
    is_ascii_chars_encode_utf8("E"@);
    is_ascii_chars_encode_utf8("TAU"@);
    assert(encode_utf8("time"@) =~= seq![116u8, 105u8, 109u8, 101u8]);
}

/// Compiles the two axes of an expression pair independently against the
/// same name table: a diagnostic on one axis never suppresses the other.
/// `Ok` exactly when both compile; otherwise the error holds `x` or `y`
/// exactly for the axes that failed. An axis that is exactly `time`, when
/// no channel shadows that name, always compiles, to the program that
/// reads the synthetic time variable.
pub fn compile_pair(expr: &Expr, streams: &Vec<LogStream>) -> (r: Result<
    (Program, Program),
    Box<ExprError>,
>)
    ensures
        r matches Ok(p) ==> p.0.wf() && p.1.wf() && p.0.n_vars == spec_table(streams@).len()
            && p.1.n_vars == spec_table(streams@).len(),
        r matches Err(e) ==> e.x is Some || e.y is Some,
        (expr.x@ == "time"@ && expr.y@ == "time"@ && spec_no_time_channel(streams@)) ==> (r
            matches Ok(p) && p.0.code@ == seq![
            Instr::PushVar((spec_table(streams@).len() - 1) as usize),
        ] && p.1.code@ == seq![Instr::PushVar((spec_table(streams@).len() - 1) as usize)]),
        (crate::compile::spec_plain_var_named(encode_utf8(expr.x@), spec_names(streams@))
            && crate::compile::spec_plain_var_named(encode_utf8(expr.y@), spec_names(streams@)))
            ==> (r matches Ok(p) && p.0.code@ == seq![
            Instr::PushVar(first_name_at(spec_names(streams@), encode_utf8(expr.x@)) as usize),
        ] && p.1.code@ == seq![
            Instr::PushVar(first_name_at(spec_names(streams@), encode_utf8(expr.y@)) as usize),
        ]),
        r matches Err(e) ==> {
            &&& (crate::compile::spec_plain_var_named(encode_utf8(expr.x@), spec_names(streams@))
                ==> e.x is None && e.y is Some)
            &&& (crate::compile::spec_plain_var_named(encode_utf8(expr.y@), spec_names(streams@))
                ==> e.y is None && e.x is Some)
        },
        crate::compile::spec_unknown_var_named(encode_utf8(expr.x@), spec_names(streams@)) ==> (r
            matches Err(e) && (e.x matches Some(c) && c.kind
            == crate::error::ErrorKind::UnknownIdent)),
        crate::compile::spec_unknown_var_named(encode_utf8(expr.y@), spec_names(streams@)) ==> (r
            matches Err(e) && (e.y matches Some(c) && c.kind
            == crate::error::ErrorKind::UnknownIdent)),
{
    let tables = build_table(streams);
    let names = tables.0;
    let n_names = names.len();
    proof {
        if expr.x@ == "time"@ && expr.y@ == "time"@ && spec_no_time_channel(streams@) {
            lemma_time_bytes();
            let tb = encode_utf8("time"@);
            let nv = names@.map_values(|v: Vec<u8>| v@);
            assert(nv[nv.len() - 1] == tb);
            assert(names@[names@.len() - 1]@ == tb);
            assert(crate::lex::spec_is_ident_text(tb));
            assert(encode_utf8(expr.x@) == tb);
            assert(tb != encode_utf8("PI"@));
            assert(tb != encode_utf8("E"@));
            assert(tb != encode_utf8("TAU"@));
            assert(crate::compile::spec_plain_var(encode_utf8(expr.x@), names@));
            assert(crate::compile::spec_plain_var(encode_utf8(expr.y@), names@));
        }
    }
    let rx = compile(expr.x.as_str(), &names);
    let ry = compile(expr.y.as_str(), &names);
    proof {
        assert(names@.map_values(|v: Vec<u8>| v@).len() == names@.len());
        let nv = names@.map_values(|v: Vec<u8>| v@);
        if crate::compile::spec_plain_var_named(encode_utf8(expr.x@), spec_names(streams@))
            && crate::compile::spec_plain_var_named(encode_utf8(expr.y@), spec_names(streams@)) {
            let bx = encode_utf8(expr.x@);
            let by = encode_utf8(expr.y@);
            lemma_first_name_at(spec_names(streams@), bx);
            lemma_first_name_at(spec_names(streams@), by);
            let kx = first_name_at(spec_names(streams@), bx);
            let ky = first_name_at(spec_names(streams@), by);
            assert(nv == spec_names(streams@));
            assert(kx < nv.len()) by {
                if kx == spec_names(streams@).len() {
                    let k0 = choose|k: int|
                        0 <= k < spec_names(streams@).len() && #[trigger] spec_names(streams@)[k]
                            == bx;
                    assert(spec_names(streams@)[k0] != bx);
                }
            }
            assert(ky < nv.len()) by {
                if ky == spec_names(streams@).len() {
                    let k0 = choose|k: int|
                        0 <= k < spec_names(streams@).len() && #[trigger] spec_names(streams@)[k]
                            == by;
                    assert(spec_names(streams@)[k0] != by);
                }
            }
            assert(nv[kx] == bx);
            assert(nv[ky] == by);
            assert forall|j: int| 0 <= j < nv.len() implies names@[j]@ == nv[j] by {}
            assert(names@[kx]@ == bx);
            assert(names@[ky]@ == by);
            assert(crate::compile::spec_plain_var(bx, names@));
            assert(crate::compile::spec_plain_var(by, names@));
            assert forall|j: int| 0 <= j < kx implies names@[j]@ != bx by {
                assert(spec_names(streams@)[j] != bx);
            }
            assert forall|j: int| 0 <= j < ky implies names@[j]@ != by by {
                assert(spec_names(streams@)[j] != by);
            }
            assert(rx matches Ok(p) && p.code@ =~= seq![Instr::PushVar(kx as usize)]);
            assert(ry matches Ok(p) && p.code@ =~= seq![Instr::PushVar(ky as usize)]);
        }
        if crate::compile::spec_plain_var_named(encode_utf8(expr.x@), spec_names(streams@)) {
            assert forall|k: int|
                0 <= k < nv.len() && nv[k] == encode_utf8(expr.x@) implies names@[k]@
                == encode_utf8(expr.x@) by {}
            assert(crate::compile::spec_plain_var(encode_utf8(expr.x@), names@));
            assert(rx is Ok);
        }
        if crate::compile::spec_plain_var_named(encode_utf8(expr.y@), spec_names(streams@)) {
            assert forall|k: int|
                0 <= k < nv.len() && nv[k] == encode_utf8(expr.y@) implies names@[k]@
                == encode_utf8(expr.y@) by {}
            assert(crate::compile::spec_plain_var(encode_utf8(expr.y@), names@));
            assert(ry is Ok);
        }
        if crate::compile::spec_unknown_var_named(encode_utf8(expr.x@), spec_names(streams@)) {
            assert forall|k: int| 0 <= k < names@.len() implies names@[k]@ != encode_utf8(
                expr.x@,
            ) by {
                assert(nv[k] == names@[k]@);
                assert(spec_names(streams@)[k] != encode_utf8(expr.x@));
            }
            assert(crate::compile::spec_unknown_var(encode_utf8(expr.x@), names@));
            assert(rx matches Err(c) && c.kind == crate::error::ErrorKind::UnknownIdent);
        }
        if crate::compile::spec_unknown_var_named(encode_utf8(expr.y@), spec_names(streams@)) {
            assert forall|k: int| 0 <= k < names@.len() implies names@[k]@ != encode_utf8(
                expr.y@,
            ) by {
                assert(nv[k] == names@[k]@);
                assert(spec_names(streams@)[k] != encode_utf8(expr.y@));
            }
            assert(crate::compile::spec_unknown_var(encode_utf8(expr.y@), names@));
            assert(ry matches Err(c) && c.kind == crate::error::ErrorKind::UnknownIdent);
        }
        if expr.x@ == "time"@ && expr.y@ == "time"@ && spec_no_time_channel(streams@) {
            lemma_time_bytes();
            let tb = encode_utf8("time"@);
            let nv = names@.map_values(|v: Vec<u8>| v@);
            assert forall|j: int| 0 <= j < names@.len() - 1 implies names@[j]@ != tb by {
                assert(nv[j] == names@[j]@);
                assert(spec_names(streams@)[j] != tb);
            }
            assert(spec_table(streams@).len() == names@.len());
            assert(rx matches Ok(p) && p.code@ =~= seq![
                Instr::PushVar((spec_table(streams@).len() - 1) as usize),
            ]);
            assert(ry matches Ok(p) && p.code@ =~= seq![
                Instr::PushVar((spec_table(streams@).len() - 1) as usize),
            ]);
        }
    }
    match (rx, ry) {
        (Ok(px), Ok(py)) => Ok((px, py)),
        (Ok(_), Err(ey)) => Err(Box::new(ExprError { x: None, y: Some(ey) })),
        (Err(ex), Ok(_)) => Err(Box::new(ExprError { x: Some(ex), y: None })),
        (Err(ex), Err(ey)) => Err(Box::new(ExprError { x: Some(ex), y: Some(ey) })),
    }
}

/// Compiles and evaluates an expression pair in one call, as a background
/// job runs it. On success the points are `spec_points_upto` of the two
/// compiled programs over the whole primary stream; on failure no
/// evaluation was attempted and the diagnostics mark exactly the failing
/// axes. When both axes are exactly `time` and no channel shadows that
/// name, the result is owed: one point per sample, both coordinates the
/// sample's timestamp scaled to seconds.
pub fn eval(expr: &Expr, streams: &Vec<LogStream>) -> (r: Result<Vec<PlotPoint>, Box<ExprError>>)
    requires
        streams@.len() >= 1,
        forall|s: int| 0 <= s < streams@.len() ==> (#[trigger] streams@[s]).wf(),
    ensures
        r matches Ok(points) ==> points@.len() <= streams@[0].time@.len() && (exists|
            cx: Seq<Instr>,
            cy: Seq<Instr>,
        |
            points_view(points@) == #[trigger] spec_points_upto(
                cx,
                cy,
                streams@,
                streams@[0].time@.len() as int,
            )),
        r matches Err(e) ==> e.x is Some || e.y is Some,
        (expr.x@ == "time"@ && expr.y@ == "time"@ && spec_no_time_channel(streams@)) ==> (r
            matches Ok(points) && points@.len() == streams@[0].time@.len() && (forall|j: int|
            0 <= j < points@.len() ==> points_view(points@)[j] == (
                secs_text(streams@, j),
                secs_text(streams@, j),
            ))),
        (crate::compile::spec_plain_var_named(encode_utf8(expr.x@), spec_names(streams@))
            && crate::compile::spec_plain_var_named(encode_utf8(expr.y@), spec_names(streams@)))
            ==> (r matches Ok(points) && points@.len() == streams@[0].time@.len() && (forall|
            j: int,
        |
            0 <= j < points@.len() ==> points_view(points@)[j] == (
                spec_bind_value(
                    streams@,
                    spec_table(streams@)[first_name_at(
                        spec_names(streams@),
                        encode_utf8(expr.x@),
                    )],
                    j,
                ),
                spec_bind_value(
                    streams@,
                    spec_table(streams@)[first_name_at(
                        spec_names(streams@),
                        encode_utf8(expr.y@),
                    )],
                    j,
                ),
            ))),
        r matches Err(e) ==> {
            &&& (crate::compile::spec_plain_var_named(encode_utf8(expr.x@), spec_names(streams@))
                ==> e.x is None && e.y is Some)
            &&& (crate::compile::spec_plain_var_named(encode_utf8(expr.y@), spec_names(streams@))
                ==> e.y is None && e.x is Some)
        },
        crate::compile::spec_unknown_var_named(encode_utf8(expr.x@), spec_names(streams@)) ==> (r
            matches Err(e) && (e.x matches Some(c) && c.kind
            == crate::error::ErrorKind::UnknownIdent)),
        crate::compile::spec_unknown_var_named(encode_utf8(expr.y@), spec_names(streams@)) ==> (r
            matches Err(e) && (e.y matches Some(c) && c.kind
            == crate::error::ErrorKind::UnknownIdent)),
{
    match compile_pair(expr, streams) {
        Ok((px, py)) => {
            let points = eval_compiled(&px, &py, streams);
            proof {
                assert(points_view(points@) == spec_points_upto(
                    px.code@,
                    py.code@,
                    streams@,
                    streams@[0].time@.len() as int,
                ));
                if expr.x@ == "time"@ && expr.y@ == "time"@ && spec_no_time_channel(streams@) {
                    let tid = (spec_table(streams@).len() - 1) as usize;
                    assert(px.n_vars == spec_table(streams@).len());
                    assert(tid + 1 == spec_table(streams@).len());
                    assert(px.code@ == seq![Instr::PushVar(tid)]);
                    assert(py.code@ == seq![Instr::PushVar(tid)]);
                    lemma_time_round_trip(streams@, tid, streams@[0].time@.len() as int);
                }
                if crate::compile::spec_plain_var_named(
                    encode_utf8(expr.x@),
                    spec_names(streams@),
                ) && crate::compile::spec_plain_var_named(
                    encode_utf8(expr.y@),
                    spec_names(streams@),
                ) {
                    let kx = first_name_at(spec_names(streams@), encode_utf8(expr.x@));
                    let ky = first_name_at(spec_names(streams@), encode_utf8(expr.y@));
                    assert(px.code@ == seq![Instr::PushVar(kx as usize)]);
                    assert(py.code@ == seq![Instr::PushVar(ky as usize)]);
                    assert(px.code@[0] == Instr::PushVar(kx as usize));
                    assert(crate::program::vars_bound(px.code@, px.n_vars as int));
                    assert((kx as usize) < px.n_vars);
                    assert((ky as usize) < py.n_vars);
                    lemma_first_name_at(spec_names(streams@), encode_utf8(expr.x@));
                    lemma_first_name_at(spec_names(streams@), encode_utf8(expr.y@));
                    lemma_table_names_len(streams@);
                    assert(kx < spec_names(streams@).len()) by {
                        if kx == spec_names(streams@).len() {
                            let k0 = choose|k: int|
                                0 <= k < spec_names(streams@).len() && #[trigger] spec_names(
                                    streams@,
                                )[k] == encode_utf8(expr.x@);
                            assert(spec_names(streams@)[k0] != encode_utf8(expr.x@));
                        }
                    }
                    assert(ky < spec_names(streams@).len()) by {
                        if ky == spec_names(streams@).len() {
                            let k0 = choose|k: int|
                                0 <= k < spec_names(streams@).len() && #[trigger] spec_names(
                                    streams@,
                                )[k] == encode_utf8(expr.y@);
                            assert(spec_names(streams@)[k0] != encode_utf8(expr.y@));
                        }
                    }
                    assert(spec_names(streams@).len() == px.n_vars);
                    assert(kx as usize == kx && ky as usize == ky);
                    lemma_var_points(
                        streams@,
                        kx as usize,
                        ky as usize,
                        streams@[0].time@.len() as int,
                    );
                }
            }
            Ok(points)
        },
        Err(e) => Err(e),
    }
}

/// Idempotence: the points of an evaluation are a pure function of the
/// compiled programs and the channel store, so two evaluations of the same
/// pair against the same snapshot yield identical sequences. This is the
/// statement `eval_compiled` already ensures, recorded as a law.
pub proof fn lemma_eval_idempotent(
    a: Seq<(Seq<u8>, Seq<u8>)>,
    b: Seq<(Seq<u8>, Seq<u8>)>,
    px: Seq<Instr>,
    py: Seq<Instr>,
    streams: Seq<LogStream>,
    n: int,
)
    requires
        a == spec_points_upto(px, py, streams, n),
        b == spec_points_upto(px, py, streams, n),
    ensures
        a == b,
{
}

/// Round trip: a program that only reads the synthetic time variable
/// yields, on both axes, one point per sample, whose coordinates are both
/// the sample's timestamp scaled from milliseconds to seconds.
pub proof fn lemma_time_round_trip(streams: Seq<LogStream>, tid: usize, n: int)
    requires
        streams.len() >= 1,
        tid + 1 == spec_table(streams).len(),
        0 <= n <= streams[0].time@.len(),
    ensures
        ({
            let code = seq![Instr::PushVar(tid)];
            let pts = spec_points_upto(code, code, streams, n);
            &&& pts.len() == n
            &&& forall|j: int|
                0 <= j < n ==> #[trigger] pts[j] == (secs_text(streams, j), secs_text(streams, j))
        }),
{
    lemma_var_points(streams, tid, tid, n);
    assert(spec_table(streams)[tid as int] == Binding::Time);
    assert forall|j: int| 0 <= j < n implies spec_bind_value(
        streams,
        spec_table(streams)[tid as int],
        j,
    ) == secs_text(streams, j) by {}
}

/// The name table and the binding table have the same length: one entry
/// per channel of each stream, plus the time axis.
pub proof fn lemma_table_names_len(streams: Seq<LogStream>)
    ensures
        spec_table(streams).len() == spec_names(streams).len(),
{
    lemma_firsts_len(streams, streams.len() as int);
}

/// The flattened prefixes of the two tables grow in step.
proof fn lemma_firsts_len(streams: Seq<LogStream>, s: int)
    ensures
        names_first(streams, s).len() == binds_first(streams, s).len(),
    decreases s,
{
    if s > 0 {
        lemma_firsts_len(streams, s - 1);
    }
}

/// The least index of `names` holding exactly `id`, or the length when no
/// entry does. This is the id the compiler binds a plain identifier to.
pub open spec fn first_name_at(names: Seq<Seq<u8>>, id: Seq<u8>) -> int
    decreases names.len(),
{
    if names.len() == 0 {
        0
    } else if names[0] == id {
        0
    } else {
        1 + first_name_at(names.skip(1), id)
    }
}

/// The characterization of `first_name_at`.
pub proof fn lemma_first_name_at(names: Seq<Seq<u8>>, id: Seq<u8>)
    ensures
        0 <= first_name_at(names, id) <= names.len(),
        forall|k: int| 0 <= k < first_name_at(names, id) ==> names[k] != id,
        first_name_at(names, id) < names.len() ==> names[first_name_at(names, id)] == id,
    decreases names.len(),
{
    if names.len() > 0 && names[0] != id {
        lemma_first_name_at(names.skip(1), id);
        assert forall|k: int| 0 <= k < first_name_at(names, id) implies names[k] != id by {
            if k > 0 {
                assert(names.skip(1)[k - 1] == names[k]);
            }
        }
        if first_name_at(names, id) < names.len() {
            assert(names.skip(1)[first_name_at(names, id) - 1] == names[first_name_at(
                names,
                id,
            )]);
        }
    }
}

/// A program that only reads variable `k` runs without error and yields
/// that binding's value.
proof fn lemma_var_exec(streams: Seq<LogStream>, k: usize, i: int)
    requires
        k < spec_table(streams).len(),
    ensures
        crate::run::spec_exec(seq![Instr::PushVar(k)], spec_binds_at(streams, i)) == Some(
            spec_bind_value(streams, spec_table(streams)[k as int], i),
        ),
{
    let code = seq![Instr::PushVar(k)];
    let binds = spec_binds_at(streams, i);
    assert(binds.len() == spec_table(streams).len());
    assert(binds[k as int] == spec_bind_value(streams, spec_table(streams)[k as int], i));
    let stack0 = Seq::<crate::run::GVal>::empty();
    let stack1 = stack0.push(crate::run::GVal::Float(binds[k as int]));
    assert(crate::run::spec_step(stack0, code[0], binds) == Some(stack1));
    assert(code.skip(1).len() == 0);
    assert(crate::run::spec_run(code.skip(1), binds, stack1) == Some(stack1));
    assert(crate::run::spec_run(code, binds, stack0) == Some(stack1));
    assert(crate::run::spec_exec(code, binds) == Some(binds[k as int]));
}

/// One sample of a pair of single-variable programs: both axes succeed
/// and the point is the pair of bindings they read.
proof fn lemma_var_point(streams: Seq<LogStream>, kx: usize, ky: usize, i: int)
    requires
        kx < spec_table(streams).len(),
        ky < spec_table(streams).len(),
    ensures
        spec_point(seq![Instr::PushVar(kx)], seq![Instr::PushVar(ky)], streams, i) == Some(
            (
                spec_bind_value(streams, spec_table(streams)[kx as int], i),
                spec_bind_value(streams, spec_table(streams)[ky as int], i),
            ),
        ),
{
    lemma_var_exec(streams, kx, i);
    lemma_var_exec(streams, ky, i);
}

/// A pair of single-variable programs keeps every sample: one point per
/// sample, each the pair of the two bindings' values there.
pub proof fn lemma_var_points(streams: Seq<LogStream>, kx: usize, ky: usize, n: int)
    requires
        kx < spec_table(streams).len(),
        ky < spec_table(streams).len(),
        n >= 0,
    ensures
        ({
            let pts = spec_points_upto(
                seq![Instr::PushVar(kx)],
                seq![Instr::PushVar(ky)],
                streams,
                n,
            );
            &&& pts.len() == n
            &&& forall|j: int|
                0 <= j < n ==> #[trigger] pts[j] == (
                    spec_bind_value(streams, spec_table(streams)[kx as int], j),
                    spec_bind_value(streams, spec_table(streams)[ky as int], j),
                )
        }),
    decreases n,
{
    let px = seq![Instr::PushVar(kx)];
    let py = seq![Instr::PushVar(ky)];
    if n > 0 {
        lemma_var_points(streams, kx, ky, n - 1);
        lemma_var_point(streams, kx, ky, n - 1);
        assert(spec_points_upto(px, py, streams, n) == spec_points_upto(px, py, streams, n - 1)
            + seq![
            (
                spec_bind_value(streams, spec_table(streams)[kx as int], n - 1),
                spec_bind_value(streams, spec_table(streams)[ky as int], n - 1),
            ),
        ]);
    }
}

/// The timestamp of sample `i`, scaled to seconds, as the evaluator names
/// it.
pub open spec fn secs_text(streams: Seq<LogStream>, i: int) -> Seq<u8> {
    div_text(int_text(streams[0].time@[i] as i64), int_text(1000))
}

} // verus!
