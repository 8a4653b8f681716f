use vstd::prelude::*;

verus! {

// Small path helpers over '/'-separated path text, held as bytes.

/// The index just past the last separator of `p`, or `None` when `p` is
/// empty or holds no separator.
pub open spec fn spec_parent_len(p: Seq<u8>) -> Option<int> {
    if exists|k: int| 0 <= k < p.len() && p[k] == 47u8 {
        let k = choose|k: int|
            0 <= k < p.len() && p[k] == 47u8 && (forall|j: int| k < j < p.len() ==> p[j] != 47u8);
        Some(k)
    } else {
        None
    }
}

/// The directory part of `p`: everything before the last `/`, or `None`
/// when there is no separator.
pub open spec fn spec_parent(p: Seq<u8>) -> Option<Seq<u8>> {
    match spec_parent_len(p) {
        Some(k) => Some(p.subrange(0, k)),
        None => None,
    }
}

/// The directory part of a path, as `spec_parent` names it.
fn parent_of(p: &Vec<u8>) -> (r: Option<Vec<u8>>)
    ensures
        r matches Some(d) ==> spec_parent(p@) == Some(d@),
        (r is None) ==> spec_parent(p@) is None,
{
    let n = p.len();
    let mut i: usize = n;
    while i > 0
        invariant
            n == p@.len(),
            i <= n,
            forall|j: int| i <= j < n ==> p@[j] != 47u8,
        decreases i,
    {
        if p[i - 1] == 47 {
            let mut d: Vec<u8> = Vec::new();
            let mut k: usize = 0;
            while k < i - 1
                invariant
                    i <= n == p@.len(),
                    i >= 1,
                    k <= i - 1,
                    d@ == p@.subrange(0, k as int),
                decreases i - k,
            {
                d.push(p[k]);
                proof {
                    assert(p@.subrange(0, k as int).push(p@[k as int]) =~= p@.subrange(
                        0,
                        k as int + 1,
                    ));
                }
                k += 1;
            }
            proof {
                let w = i - 1;
                assert(0 <= w < p@.len() && p@[w] == 47u8 && (forall|j: int|
                    w < j < p@.len() ==> p@[j] != 47u8));
                assert(spec_parent_len(p@) == Some(i - 1));
            }
            return Some(d);
        }
        i -= 1;
    }
    proof {
        assert(spec_parent_len(p@) is None);
    }
    None
}

/// The directory that every one of `files` sits in directly, when they all
/// share one: the parent of the first path, provided every other path has
/// the same parent. `None` for an empty list, for a first path without a
/// separator, or when the parents differ.
pub fn common_parent_dir(files: &Vec<Vec<u8>>) -> (r: Option<Vec<u8>>)
    ensures
        r matches Some(d) ==> {
            &&& files@.len() > 0
            &&& spec_parent(files@[0]@) == Some(d@)
            &&& forall|f: int|
                0 <= f < files@.len() ==> spec_parent((#[trigger] files@[f])@) == Some(d@)
        },
        (r is None) ==> files@.len() == 0 || spec_parent(files@[0]@) is None || exists|f: int|
            0 <= f < files@.len() && spec_parent((#[trigger] files@[f])@) != spec_parent(
                files@[0]@,
            ),
{
    if files.len() == 0 {
        return None;
    }
    let first = match parent_of(&files[0]) {
        Some(d) => d,
        None => {
            return None;
        },
    };
    let n = files.len();
    let mut f: usize = 1;
    while f < n
        invariant
            n == files@.len(),
            1 <= f <= n,
            spec_parent(files@[0]@) == Some(first@),
            forall|g: int|
                0 <= g < f ==> spec_parent((#[trigger] files@[g])@) == Some(first@),
        decreases n - f,
    {
        match parent_of(&files[f]) {
            Some(d) => {
                if !byte_vec_eq(&d, &first) {
                    return None;
                }
            },
            None => {
                return None;
            },
        }
        f += 1;
    }
    Some(first)
}

/// Whether two byte vectors hold the same bytes.
fn byte_vec_eq(a: &Vec<u8>, b: &Vec<u8>) -> (r: bool)
    ensures
        r == (a@ == b@),
{
    if a.len() != b.len() {
        return false;
    }
    let n = a.len();
    let mut i: usize = 0;
    while i < n
        invariant
            n == a@.len() == b@.len(),
            i <= n,
            forall|k: int| 0 <= k < i ==> a@[k] == b@[k],
        decreases n - i,
    {
        if a[i] != b[i] {
            return false;
        }
        i += 1;
    }
    proof {
        assert(a@ =~= b@);
    }
    true
}

} // verus!
