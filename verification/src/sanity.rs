use vstd::prelude::*;

use crate::data::{DataEntry, EntryKind, SanityError};
use crate::num::{inf_text, nan_text, neg_inf_text};

verus! {

// A plausibility check over freshly loaded channels: integer samples that
// sit exactly on their type's minimum or maximum, and float samples that
// are NaN or infinite, are taken as signs of sensor or logger trouble.

/// The way in which one sample is implausible.
#[derive(Clone, Copy, Debug, PartialEq, Eq, Structural)]
pub enum Fault {
    Max,
    Min,
    Nan,
    Inf,
}

/// The fault, if any, that sample `i` of the column shows. Boolean columns
/// never fault; integer columns fault on their type's extreme values, the
/// maximum reported first; float columns fault on NaN, then on infinities.
pub open spec fn spec_fault(kind: &EntryKind, i: int) -> Option<Fault> {
    match kind {
        EntryKind::Bool(_) => None,
        EntryKind::U8(v) => if v@[i] == u8::MAX {
            Some(Fault::Max)
        } else if v@[i] == 0 {
            Some(Fault::Min)
        } else {
            None
        },
        EntryKind::U16(v) => if v@[i] == u16::MAX {
            Some(Fault::Max)
        } else if v@[i] == 0 {
            Some(Fault::Min)
        } else {
            None
        },
        EntryKind::U32(v) => if v@[i] == u32::MAX {
            Some(Fault::Max)
        } else if v@[i] == 0 {
            Some(Fault::Min)
        } else {
            None
        },
        EntryKind::U64(v) => if v@[i] == u64::MAX {
            Some(Fault::Max)
        } else if v@[i] == 0 {
            Some(Fault::Min)
        } else {
            None
        },
        EntryKind::I8(v) => if v@[i] == i8::MAX {
            Some(Fault::Max)
        } else if v@[i] == i8::MIN {
            Some(Fault::Min)
        } else {
            None
        },
        EntryKind::I16(v) => if v@[i] == i16::MAX {
            Some(Fault::Max)
        } else if v@[i] == i16::MIN {
            Some(Fault::Min)
        } else {
            None
        },
        EntryKind::I32(v) => if v@[i] == i32::MAX {
            Some(Fault::Max)
        } else if v@[i] == i32::MIN {
            Some(Fault::Min)
        } else {
            None
        },
        EntryKind::I64(v) => if v@[i] == i64::MAX {
            Some(Fault::Max)
        } else if v@[i] == i64::MIN {
            Some(Fault::Min)
        } else {
            None
        },
        EntryKind::F32(v) => if v@[i]@ == nan_text() {
            Some(Fault::Nan)
        } else if v@[i]@ == inf_text() || v@[i]@ == neg_inf_text() {
            Some(Fault::Inf)
        } else {
            None
        },
        EntryKind::F64(v) => if v@[i]@ == nan_text() {
            Some(Fault::Nan)
        } else if v@[i]@ == inf_text() || v@[i]@ == neg_inf_text() {
            Some(Fault::Inf)
        } else {
            None
        },
    }
}

/// Whether every sample of the column is plausible.
pub open spec fn spec_entry_ok(kind: &EntryKind) -> bool {
    forall|i: int| 0 <= i < kind.spec_len() ==> spec_fault(kind, i) is None
}

/// The message suffix that announces a fault.
pub open spec fn spec_suffix(f: Fault) -> Seq<char> {
    match f {
        Fault::Max => "' is max"@,
        Fault::Min => "' is min"@,
        Fault::Nan => "' is nan"@,
        Fault::Inf => "' is infinite"@,
    }
}

/// The fault of sample `i`, as `spec_fault` names it.
fn fault_at(kind: &EntryKind, i: usize) -> (r: Option<Fault>)
    requires
        i < kind.spec_len(),
    ensures
        r == spec_fault(kind, i as int),
{
    match kind {
        EntryKind::Bool(_) => None,
        EntryKind::U8(v) => if v[i] == u8::MAX {
            Some(Fault::Max)
        } else if v[i] == 0 {
            Some(Fault::Min)
        } else {
            None
        },
        EntryKind::U16(v) => if v[i] == u16::MAX {
            Some(Fault::Max)
        } else if v[i] == 0 {
            Some(Fault::Min)
        } else {
            None
        },
        EntryKind::U32(v) => if v[i] == u32::MAX {
            Some(Fault::Max)
        } else if v[i] == 0 {
            Some(Fault::Min)
        } else {
            None
        },
        EntryKind::U64(v) => if v[i] == u64::MAX {
            Some(Fault::Max)
        } else if v[i] == 0 {
            Some(Fault::Min)
        } else {
            None
        },
        EntryKind::I8(v) => if v[i] == i8::MAX {
            Some(Fault::Max)
        } else if v[i] == i8::MIN {
            Some(Fault::Min)
        } else {
            None
        },
        EntryKind::I16(v) => if v[i] == i16::MAX {
            Some(Fault::Max)
        } else if v[i] == i16::MIN {
            Some(Fault::Min)
        } else {
            None
        },
        EntryKind::I32(v) => if v[i] == i32::MAX {
            Some(Fault::Max)
        } else if v[i] == i32::MIN {
            Some(Fault::Min)
        } else {
            None
        },
        EntryKind::I64(v) => if v[i] == i64::MAX {
            Some(Fault::Max)
        } else if v[i] == i64::MIN {
            Some(Fault::Min)
        } else {
            None
        },
        EntryKind::F32(v) => if v[i].is_nan() {
            Some(Fault::Nan)
        } else if v[i].is_infinite() {
            Some(Fault::Inf)
        } else {
            None
        },
        EntryKind::F64(v) => if v[i].is_nan() {
            Some(Fault::Nan)
        } else if v[i].is_infinite() {
            Some(Fault::Inf)
        } else {
            None
        },
    }
}

/// Checks every channel in order and reports the first implausible sample:
/// `Ok` exactly when every sample of every channel is plausible, and
/// otherwise an error naming the first faulting channel and its first
/// fault's kind.
pub fn sanity_check(entries: &Vec<DataEntry>) -> (r: Result<(), SanityError>)
    ensures
        (r is Ok) <==> (forall|e: int|
            0 <= e < entries@.len() ==> spec_entry_ok(&(#[trigger] entries@[e]).kind)),
        r matches Err(err) ==> exists|e: int, i: int|
            {
                &&& #[trigger] spec_fault(&entries@[e].kind, i) is Some
                &&& 0 <= e < entries@.len()
                &&& forall|k: int| 0 <= k < e ==> spec_entry_ok(&(#[trigger] entries@[k]).kind)
                &&& 0 <= i < entries@[e].kind.spec_len()
                &&& forall|j: int| 0 <= j < i ==> spec_fault(&entries@[e].kind, j) is None
                &&& (spec_fault(&entries@[e].kind, i) matches Some(f) && err.0@ == "'"@
                    + entries@[e].name@ + spec_suffix(f))
            },
{
    let n = entries.len();
    let mut e: usize = 0;
    while e < n
        invariant
            n == entries@.len(),
            e <= n,
            forall|k: int| 0 <= k < e ==> spec_entry_ok(&(#[trigger] entries@[k]).kind),
        decreases n - e,
    {
        let kind = &entries[e].kind;
        let len = kind.len();
        let mut i: usize = 0;
        while i < len
            invariant
                n == entries@.len(),
                e < n,
                forall|k: int| 0 <= k < e ==> spec_entry_ok(&(#[trigger] entries@[k]).kind),
                kind == &entries@[e as int].kind,
                len == kind.spec_len(),
                i <= len,
                forall|j: int| 0 <= j < i ==> spec_fault(kind, j) is None,
            decreases len - i,
        {
            if let Some(f) = fault_at(kind, i) {
                let mut msg = String::from_str("'");
                msg.append(entries[e].name.as_str());
                match f {
                    Fault::Max => msg.append("' is max"),
                    Fault::Min => msg.append("' is min"),
                    Fault::Nan => msg.append("' is nan"),
                    Fault::Inf => msg.append("' is infinite"),
                }
                proof {
                    assert(msg@ == "'"@ + entries@[e as int].name@ + spec_suffix(f));
                    assert(spec_fault(&entries@[e as int].kind, i as int) == Some(f));
                    assert(0 <= i < entries@[e as int].kind.spec_len());
                }
                return Err(SanityError(msg));
            }
            i += 1;
        }
        e += 1;
    }
    Ok(())
}

} // verus!
