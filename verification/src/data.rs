use vstd::prelude::*;

use crate::num::{int_text, nan_text, uint_text, Num};

verus! {

// The channel store: one `LogStream` per opened log, each with its own
// millisecond timestamp axis and a set of named, typed channels. Channels
// are immutable after load; every element is readable as a double through
// one widening conversion, which is the only numeric interface the
// evaluator needs.

/// The on-disk format revision a stream was read from.
#[derive(Clone, Copy, Debug, PartialEq, Eq, Structural)]
pub enum Version {
    V1,
    V2,
}

impl Version {
    /// The revision's display label.
    pub fn label(&self) -> (r: &'static str)
        ensures
            r@ == (match self {
                Version::V1 => "v1"@,
                Version::V2 => "v2"@,
            }),
    {
        match self {
            Version::V1 => "v1",
            Version::V2 => "v2",
        }
    }
}

/// Why a log file could not be read. Produced by the host's file reader;
/// held here so the rest of the pipeline can speak of it.
#[derive(Debug)]
pub enum Error {
    IO(String),
    Utf8(String),
    InvalidMagic([u8; 4]),
    UnknownVersion(u16),
    UnknownDatatype(u8),
    InvalidTimestamp(i64),
}

/// A failed plausibility check, carrying the offending channel's name.
#[derive(Debug)]
pub struct SanityError(pub String);

/// One named, single-typed column of samples. Integer and boolean channels
/// hold their native values; float channels hold each sample's canonical
/// decimal text (see `num`), so the verifier can speak of them.
pub enum EntryKind {
    Bool(Vec<bool>),
    U8(Vec<u8>),
    U16(Vec<u16>),
    U32(Vec<u32>),
    U64(Vec<u64>),
    I8(Vec<i8>),
    I16(Vec<i16>),
    I32(Vec<i32>),
    I64(Vec<i64>),
    F32(Vec<Num>),
    F64(Vec<Num>),
}

/// A channel: its name and its column of samples.
pub struct DataEntry {
    pub name: String,
    pub kind: EntryKind,
}

/// One stream: a format version, an optional start instant (seconds since
/// the Unix epoch, as the reader decoded it), a monotone millisecond
/// timestamp per sample, and the channels, all of the same length.
pub struct LogStream {
    pub version: Version,
    pub start: Option<i64>,
    pub time: Vec<u32>,
    pub entries: Vec<DataEntry>,
}

impl EntryKind {
    /// How many samples the column holds.
    pub open spec fn spec_len(&self) -> nat {
        match self {
            EntryKind::Bool(v) => v@.len(),
            EntryKind::U8(v) => v@.len(),
            EntryKind::U16(v) => v@.len(),
            EntryKind::U32(v) => v@.len(),
            EntryKind::U64(v) => v@.len(),
            EntryKind::I8(v) => v@.len(),
            EntryKind::I16(v) => v@.len(),
            EntryKind::I32(v) => v@.len(),
            EntryKind::I64(v) => v@.len(),
            EntryKind::F32(v) => v@.len(),
            EntryKind::F64(v) => v@.len(),
        }
    }

    /// The canonical text of sample `i` widened to a double: booleans read
    /// as 0 or 1, integers as their value, floats as themselves.
    pub open spec fn spec_get(&self, i: int) -> Seq<u8> {
        match self {
            EntryKind::Bool(v) => int_text(if v@[i] { 1 as i64 } else { 0 as i64 }),
            EntryKind::U8(v) => int_text(v@[i] as i64),
            EntryKind::U16(v) => int_text(v@[i] as i64),
            EntryKind::U32(v) => int_text(v@[i] as i64),
            EntryKind::U64(v) => uint_text(v@[i]),
            EntryKind::I8(v) => int_text(v@[i] as i64),
            EntryKind::I16(v) => int_text(v@[i] as i64),
            EntryKind::I32(v) => int_text(v@[i] as i64),
            EntryKind::I64(v) => int_text(v@[i]),
            EntryKind::F32(v) => v@[i]@,
            EntryKind::F64(v) => v@[i]@,
        }
    }

    /// How many samples the column holds.
    pub fn len(&self) -> (r: usize)
        ensures
            r == self.spec_len(),
    {
        match self {
            EntryKind::Bool(v) => v.len(),
            EntryKind::U8(v) => v.len(),
            EntryKind::U16(v) => v.len(),
            EntryKind::U32(v) => v.len(),
            EntryKind::U64(v) => v.len(),
            EntryKind::I8(v) => v.len(),
            EntryKind::I16(v) => v.len(),
            EntryKind::I32(v) => v.len(),
            EntryKind::I64(v) => v.len(),
            EntryKind::F32(v) => v.len(),
            EntryKind::F64(v) => v.len(),
        }
    }

    /// Sample `i`, widened to a double.
    pub fn get_num(&self, i: usize) -> (r: Num)
        requires
            i < self.spec_len(),
        ensures
            r@ == self.spec_get(i as int),
    {
        match self {
            EntryKind::Bool(v) => Num::of_int(if v[i] { 1 } else { 0 }),
            EntryKind::U8(v) => Num::of_int(v[i] as i64),
            EntryKind::U16(v) => Num::of_int(v[i] as i64),
            EntryKind::U32(v) => Num::of_int(v[i] as i64),
            EntryKind::U64(v) => Num::of_uint(v[i]),
            EntryKind::I8(v) => Num::of_int(v[i] as i64),
            EntryKind::I16(v) => Num::of_int(v[i] as i64),
            EntryKind::I32(v) => Num::of_int(v[i] as i64),
            EntryKind::I64(v) => Num::of_int(v[i]),
            EntryKind::F32(v) => v[i].clone(),
            EntryKind::F64(v) => v[i].clone(),
        }
    }

    /// An empty column of the element type the on-disk code names: `Ok`
    /// exactly for the eleven known codes, in their wire order, and
    /// otherwise the unknown-datatype error carrying the code.
    pub fn from_code(code: u8) -> (r: Result<EntryKind, Error>)
        ensures
            r matches Ok(k) ==> code <= 10 && k.spec_len() == 0 && spec_code_of(&k) == code,
            r matches Err(e) ==> code > 10 && (e matches Error::UnknownDatatype(c) && c == code),
    {
        let kind = match code {
            0 => EntryKind::Bool(Vec::new()),
            1 => EntryKind::U8(Vec::new()),
            2 => EntryKind::U16(Vec::new()),
            3 => EntryKind::U32(Vec::new()),
            4 => EntryKind::U64(Vec::new()),
            5 => EntryKind::I8(Vec::new()),
            6 => EntryKind::I16(Vec::new()),
            7 => EntryKind::I32(Vec::new()),
            8 => EntryKind::I64(Vec::new()),
            9 => EntryKind::F32(Vec::new()),
            10 => EntryKind::F64(Vec::new()),
            _ => {
                return Err(Error::UnknownDatatype(code));
            },
        };
        Ok(kind)
    }

    /// How many bytes one sample of the column occupies on disk.
    pub fn size(&self) -> (r: u8)
        ensures
            r == spec_kind_size(self),
    {
        match self {
            EntryKind::Bool(_) => 1,
            EntryKind::U8(_) => 1,
            EntryKind::U16(_) => 2,
            EntryKind::U32(_) => 4,
            EntryKind::U64(_) => 8,
            EntryKind::I8(_) => 1,
            EntryKind::I16(_) => 2,
            EntryKind::I32(_) => 4,
            EntryKind::I64(_) => 8,
            EntryKind::F32(_) => 4,
            EntryKind::F64(_) => 8,
        }
    }

    /// Whether the two columns carry the same element type.
    pub open spec fn spec_matches(&self, other: &EntryKind) -> bool {
        match (self, other) {
            (EntryKind::Bool(_), EntryKind::Bool(_)) => true,
            (EntryKind::U8(_), EntryKind::U8(_)) => true,
            (EntryKind::U16(_), EntryKind::U16(_)) => true,
            (EntryKind::U32(_), EntryKind::U32(_)) => true,
            (EntryKind::U64(_), EntryKind::U64(_)) => true,
            (EntryKind::I8(_), EntryKind::I8(_)) => true,
            (EntryKind::I16(_), EntryKind::I16(_)) => true,
            (EntryKind::I32(_), EntryKind::I32(_)) => true,
            (EntryKind::I64(_), EntryKind::I64(_)) => true,
            (EntryKind::F32(_), EntryKind::F32(_)) => true,
            (EntryKind::F64(_), EntryKind::F64(_)) => true,
            _ => false,
        }
    }

    /// Whether the two columns carry the same element type.
    pub fn matches(&self, other: &EntryKind) -> (r: bool)
        ensures
            r == self.spec_matches(other),
    {
        match (self, other) {
            (EntryKind::Bool(_), EntryKind::Bool(_)) => true,
            (EntryKind::U8(_), EntryKind::U8(_)) => true,
            (EntryKind::U16(_), EntryKind::U16(_)) => true,
            (EntryKind::U32(_), EntryKind::U32(_)) => true,
            (EntryKind::U64(_), EntryKind::U64(_)) => true,
            (EntryKind::I8(_), EntryKind::I8(_)) => true,
            (EntryKind::I16(_), EntryKind::I16(_)) => true,
            (EntryKind::I32(_), EntryKind::I32(_)) => true,
            (EntryKind::I64(_), EntryKind::I64(_)) => true,
            (EntryKind::F32(_), EntryKind::F32(_)) => true,
            (EntryKind::F64(_), EntryKind::F64(_)) => true,
            _ => false,
        }
    }

    /// Appends `other`'s samples after this column's, when the types match;
    /// columns of different types are left unchanged.
    pub fn extend(&mut self, other: &EntryKind)
        ensures
            final(self).spec_matches(old(self)),
            old(self).spec_matches(other) ==> {
                &&& final(self).spec_len() == old(self).spec_len() + other.spec_len()
                &&& forall|i: int|
                    0 <= i < old(self).spec_len() ==> final(self).spec_get(i) == old(
                        self,
                    ).spec_get(i)
                &&& forall|j: int|
                    0 <= j < other.spec_len() ==> final(self).spec_get(
                        old(self).spec_len() + j,
                    ) == other.spec_get(j)
            },
            !old(self).spec_matches(other) ==> *final(self) == *old(self),
    {
        match (self, other) {
            (EntryKind::Bool(a), EntryKind::Bool(b)) => a.extend_from_slice(b.as_slice()),
            (EntryKind::U8(a), EntryKind::U8(b)) => a.extend_from_slice(b.as_slice()),
            (EntryKind::U16(a), EntryKind::U16(b)) => a.extend_from_slice(b.as_slice()),
            (EntryKind::U32(a), EntryKind::U32(b)) => a.extend_from_slice(b.as_slice()),
            (EntryKind::U64(a), EntryKind::U64(b)) => a.extend_from_slice(b.as_slice()),
            (EntryKind::I8(a), EntryKind::I8(b)) => a.extend_from_slice(b.as_slice()),
            (EntryKind::I16(a), EntryKind::I16(b)) => a.extend_from_slice(b.as_slice()),
            (EntryKind::I32(a), EntryKind::I32(b)) => a.extend_from_slice(b.as_slice()),
            (EntryKind::I64(a), EntryKind::I64(b)) => a.extend_from_slice(b.as_slice()),
            (EntryKind::F32(a), EntryKind::F32(b)) => a.extend_from_slice(b.as_slice()),
            (EntryKind::F64(a), EntryKind::F64(b)) => a.extend_from_slice(b.as_slice()),
            _ => (),
        }
    }
}

/// The on-disk code of the column's element type, in wire order.
pub open spec fn spec_code_of(kind: &EntryKind) -> int {
    match kind {
        EntryKind::Bool(_) => 0,
        EntryKind::U8(_) => 1,
        EntryKind::U16(_) => 2,
        EntryKind::U32(_) => 3,
        EntryKind::U64(_) => 4,
        EntryKind::I8(_) => 5,
        EntryKind::I16(_) => 6,
        EntryKind::I32(_) => 7,
        EntryKind::I64(_) => 8,
        EntryKind::F32(_) => 9,
        EntryKind::F64(_) => 10,
    }
}

/// The on-disk width of one sample of the column.
pub open spec fn spec_kind_size(kind: &EntryKind) -> u8 {
    match kind {
        EntryKind::Bool(_) => 1,
        EntryKind::U8(_) => 1,
        EntryKind::U16(_) => 2,
        EntryKind::U32(_) => 4,
        EntryKind::U64(_) => 8,
        EntryKind::I8(_) => 1,
        EntryKind::I16(_) => 2,
        EntryKind::I32(_) => 4,
        EntryKind::I64(_) => 8,
        EntryKind::F32(_) => 4,
        EntryKind::F64(_) => 8,
    }
}

impl LogStream {
    /// A stream is well formed when its timestamps never decrease and every
    /// channel has exactly one sample per timestamp.
    pub open spec fn wf(&self) -> bool {
        &&& forall|j: int, k: int|
            0 <= j <= k < self.time@.len() ==> self.time@[j] <= self.time@[k]
        &&& forall|e: int|
            0 <= e < self.entries@.len() ==> (#[trigger] self.entries@[e].kind.spec_len())
                == self.time@.len()
    }

    /// How many samples the stream holds.
    pub fn len(&self) -> (r: usize)
        ensures
            r == self.time@.len(),
    {
        self.time.len()
    }

    /// Whether `other` carries the same channel layout (same number of
    /// channels, pairwise same element types), so their samples can be
    /// concatenated.
    pub open spec fn spec_header_matches(&self, other: &LogStream) -> bool {
        &&& self.entries@.len() == other.entries@.len()
        &&& forall|e: int|
            0 <= e < self.entries@.len() ==> (#[trigger] self.entries@[e].kind).spec_matches(
                &other.entries@[e].kind,
            )
    }

    /// Whether `other` carries the same channel layout.
    pub fn header_matches(&self, other: &LogStream) -> (r: bool)
        ensures
            r == self.spec_header_matches(other),
    {
        if self.entries.len() != other.entries.len() {
            return false;
        }
        let n = self.entries.len();
        let mut e: usize = 0;
        while e < n
            invariant
                n == self.entries@.len() == other.entries@.len(),
                e <= n,
                forall|k: int|
                    0 <= k < e ==> (#[trigger] self.entries@[k].kind).spec_matches(
                        &other.entries@[k].kind,
                    ),
            decreases n - e,
        {
            if !self.entries[e].kind.matches(&other.entries[e].kind) {
                return false;
            }
            e += 1;
        }
        true
    }
}


impl EntryKind {
    /// Asks the column to make room for `additional` more samples. Purely
    /// an allocation hint: the samples are unchanged.
    pub fn reserve(&mut self, additional: usize)
        ensures
            final(self).spec_matches(old(self)),
            final(self).spec_len() == old(self).spec_len(),
            forall|i: int|
                0 <= i < old(self).spec_len() ==> final(self).spec_get(i) == old(self).spec_get(i),
    {
        match self {
            EntryKind::Bool(v) => v.reserve(additional),
            EntryKind::U8(v) => v.reserve(additional),
            EntryKind::U16(v) => v.reserve(additional),
            EntryKind::U32(v) => v.reserve(additional),
            EntryKind::U64(v) => v.reserve(additional),
            EntryKind::I8(v) => v.reserve(additional),
            EntryKind::I16(v) => v.reserve(additional),
            EntryKind::I32(v) => v.reserve(additional),
            EntryKind::I64(v) => v.reserve(additional),
            EntryKind::F32(v) => v.reserve(additional),
            EntryKind::F64(v) => v.reserve(additional),
        }
    }
}

impl LogStream {
    /// Asks every column and the time axis for room for `additional` more
    /// samples. Purely an allocation hint: nothing observable changes.
    pub fn reserve(&mut self, additional: usize)
        ensures
            final(self).version == old(self).version,
            final(self).start == old(self).start,
            final(self).time@ == old(self).time@,
            final(self).entries@.len() == old(self).entries@.len(),
            forall|e: int|
                0 <= e < old(self).entries@.len() ==> {
                    &&& (#[trigger] final(self).entries@[e]).name == old(self).entries@[e].name
                    &&& final(self).entries@[e].kind.spec_matches(&old(self).entries@[e].kind)
                    &&& final(self).entries@[e].kind.spec_len() == old(
                        self,
                    ).entries@[e].kind.spec_len()
                    &&& (forall|i: int|
                        0 <= i < old(self).entries@[e].kind.spec_len()
                            ==> final(self).entries@[e].kind.spec_get(i) == old(
                            self,
                        ).entries@[e].kind.spec_get(i))
                },
    {
        self.time.reserve(additional);
        let n = self.entries.len();
        let mut e: usize = 0;
        while e < n
            invariant
                n == self.entries@.len() == old(self).entries@.len(),
                e <= n,
                self.version == old(self).version,
                self.start == old(self).start,
                self.time@ == old(self).time@,
                forall|k: int|
                    0 <= k < n ==> (#[trigger] self.entries@[k]).name == old(
                        self,
                    ).entries@[k].name,
                forall|k: int|
                    e <= k < n ==> (#[trigger] self.entries@[k]).kind == old(
                        self,
                    ).entries@[k].kind,
                forall|k: int|
                    0 <= k < e ==> {
                        &&& (#[trigger] self.entries@[k]).kind.spec_matches(
                            &old(self).entries@[k].kind,
                        )
                        &&& self.entries@[k].kind.spec_len() == old(
                            self,
                        ).entries@[k].kind.spec_len()
                        &&& (forall|i: int|
                            0 <= i < old(self).entries@[k].kind.spec_len()
                                ==> self.entries@[k].kind.spec_get(i) == old(
                                self,
                            ).entries@[k].kind.spec_get(i))
                    },
            decreases n - e,
        {
            self.entries[e].kind.reserve(additional);
            e += 1;
        }
    }

    /// Appends `other`'s samples after this stream's: the time axes are
    /// concatenated and each channel is extended by its counterpart.
    pub fn extend(&mut self, other: &LogStream)
        requires
            old(self).spec_header_matches(other),
        ensures
            final(self).version == old(self).version,
            final(self).start == old(self).start,
            final(self).time@ == old(self).time@ + other.time@,
            final(self).entries@.len() == old(self).entries@.len(),
            forall|e: int|
                0 <= e < old(self).entries@.len() ==> {
                    &&& (#[trigger] final(self).entries@[e]).name == old(self).entries@[e].name
                    &&& final(self).entries@[e].kind.spec_len() == old(
                        self,
                    ).entries@[e].kind.spec_len() + other.entries@[e].kind.spec_len()
                    &&& (forall|i: int|
                        0 <= i < old(self).entries@[e].kind.spec_len()
                            ==> final(self).entries@[e].kind.spec_get(i) == old(
                            self,
                        ).entries@[e].kind.spec_get(i))
                    &&& (forall|j: int|
                        0 <= j < other.entries@[e].kind.spec_len()
                            ==> final(self).entries@[e].kind.spec_get(
                            old(self).entries@[e].kind.spec_len() + j,
                        ) == other.entries@[e].kind.spec_get(j))
                },
    {
        self.time.extend_from_slice(other.time.as_slice());
        let n = self.entries.len();
        let mut e: usize = 0;
        while e < n
            invariant
                n == self.entries@.len() == old(self).entries@.len(),
                other.entries@.len() == n,
                e <= n,
                old(self).spec_header_matches(other),
                self.version == old(self).version,
                self.start == old(self).start,
                self.time@ == old(self).time@ + other.time@,
                forall|k: int|
                    0 <= k < n ==> (#[trigger] self.entries@[k]).name == old(
                        self,
                    ).entries@[k].name,
                forall|k: int|
                    e <= k < n ==> (#[trigger] self.entries@[k]).kind == old(
                        self,
                    ).entries@[k].kind,
                forall|k: int|
                    0 <= k < e ==> {
                        &&& (#[trigger] self.entries@[k]).kind.spec_len() == old(
                            self,
                        ).entries@[k].kind.spec_len() + other.entries@[k].kind.spec_len()
                        &&& (forall|i: int|
                            0 <= i < old(self).entries@[k].kind.spec_len()
                                ==> self.entries@[k].kind.spec_get(i) == old(
                                self,
                            ).entries@[k].kind.spec_get(i))
                        &&& (forall|j: int|
                            0 <= j < other.entries@[k].kind.spec_len()
                                ==> self.entries@[k].kind.spec_get(
                                old(self).entries@[k].kind.spec_len() + j,
                            ) == other.entries@[k].kind.spec_get(j))
                    },
            decreases n - e,
        {
            proof {
                assert(old(self).entries@[e as int].kind.spec_matches(
                    &other.entries@[e as int].kind,
                ));
            }
            self.entries[e].kind.extend(&other.entries[e].kind);
            e += 1;
        }
    }
}

/// The average of a stream's first timestamp deltas (at most twenty), the
/// apparent sampling interval: the telescoping sum of the first `m` deltas
/// is `time[m] - time[0]`, divided by the lesser of twenty and the sample
/// count.
pub open spec fn spec_avg_delta(s: LogStream) -> int {
    let len = s.time@.len() as int;
    let m = if len - 1 < 20 {
        len - 1
    } else {
        20
    };
    let d = if len < 20 {
        len
    } else {
        20
    };
    (s.time@[m] - s.time@[0]) / d
}

/// Picks the primary stream: the one with the lowest average initial
/// timestamp delta, that is, the highest apparent sampling rate, so the
/// densest data is never down-sampled by the join. The earliest such
/// stream wins ties.
pub fn select_primary(streams: &Vec<LogStream>) -> (r: usize)
    requires
        streams@.len() >= 1,
        forall|s: int| 0 <= s < streams@.len() ==> (#[trigger] streams@[s]).wf(),
        forall|s: int| 0 <= s < streams@.len() ==> (#[trigger] streams@[s]).time@.len() >= 1,
    ensures
        r < streams@.len(),
        forall|s: int| 0 <= s < streams@.len() ==> spec_avg_delta(streams@[r as int])
            <= spec_avg_delta(#[trigger] streams@[s]),
        forall|s: int| 0 <= s < r ==> spec_avg_delta(#[trigger] streams@[s]) > spec_avg_delta(
            streams@[r as int],
        ),
{
    let n = streams.len();
    let mut best: usize = 0;
    let mut best_delta = avg_delta(&streams[0]);
    let mut s: usize = 1;
    while s < n
        invariant
            n == streams@.len(),
            forall|k: int| 0 <= k < streams@.len() ==> (#[trigger] streams@[k]).wf(),
            forall|k: int| 0 <= k < streams@.len() ==> (#[trigger] streams@[k]).time@.len() >= 1,
            1 <= s <= n,
            best < s,
            best_delta == spec_avg_delta(streams@[best as int]),
            forall|k: int| 0 <= k < s ==> spec_avg_delta(streams@[best as int]) <= spec_avg_delta(
                #[trigger] streams@[k],
            ),
            forall|k: int| 0 <= k < best ==> spec_avg_delta(#[trigger] streams@[k])
                > spec_avg_delta(streams@[best as int]),
        decreases n - s,
    {
        let d = avg_delta(&streams[s]);
        if d < best_delta {
            best = s;
            best_delta = d;
        }
        s += 1;
    }
    best
}

/// The average initial delta, as `spec_avg_delta` names it.
fn avg_delta(s: &LogStream) -> (r: u64)
    requires
        s.wf(),
        s.time@.len() >= 1,
    ensures
        r == spec_avg_delta(*s),
{
    let len = s.time.len();
    let m: usize = if len - 1 < 20 {
        len - 1
    } else {
        20
    };
    let d: u64 = if len < 20 {
        len as u64
    } else {
        20
    };
    proof {
        assert(s.time@[0] <= s.time@[m as int]);
    }
    ((s.time[m] - s.time[0]) as u64) / d
}

} // verus!
