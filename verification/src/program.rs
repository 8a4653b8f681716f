use vstd::prelude::*;

use crate::num::Num;

verus! {

// A compiled expression: straight-line code for a small stack machine.
// Every instruction pushes exactly one value; the well-formedness
// predicate below guarantees that no instruction pops below the starting
// depth and that the whole program leaves exactly one value, so the
// interpreter never under- or overruns its stack.

/// One stack-machine instruction.
pub enum Instr {
    /// Push a floating-point literal.
    PushNum(Num),
    /// Push an integer literal.
    PushInt(i64),
    /// Push the current sample's value of the variable with this id.
    PushVar(usize),
    Neg,
    Add,
    Sub,
    Mul,
    Div,
    Pow,
    Min,
    Max,
    Sin,
    Cos,
    Sqrt,
    Abs,
}

/// How many operands the instruction pops. Every instruction pushes one
/// result.
pub open spec fn pops(ins: Instr) -> int {
    match ins {
        Instr::PushNum(_) => 0,
        Instr::PushInt(_) => 0,
        Instr::PushVar(_) => 0,
        Instr::Neg => 1,
        Instr::Sin => 1,
        Instr::Cos => 1,
        Instr::Sqrt => 1,
        Instr::Abs => 1,
        _ => 2,
    }
}

/// Whether running `code` from stack depth `d` never pops a value that is
/// not there.
pub open spec fn wf_from(code: Seq<Instr>, d: int) -> bool
    decreases code.len(),
{
    code.len() == 0 || (pops(code[0]) <= d && wf_from(code.skip(1), d - pops(code[0]) + 1))
}

/// The stack depth after running `code` from depth `d`.
pub open spec fn depth_after(code: Seq<Instr>, d: int) -> int
    decreases code.len(),
{
    if code.len() == 0 {
        d
    } else {
        depth_after(code.skip(1), d - pops(code[0]) + 1)
    }
}

/// Whether every variable id referenced by `code` lies below `n`.
pub open spec fn vars_bound(code: Seq<Instr>, n: int) -> bool {
    forall|k: int|
        0 <= k < code.len() ==> ((#[trigger] code[k]) matches Instr::PushVar(v) ==> v < n)
}

/// Appending one instruction: the code stays well formed exactly when the
/// instruction finds its operands, and the depth moves by its net effect.
pub proof fn lemma_wf_snoc(code: Seq<Instr>, x: Instr, d: int)
    ensures
        wf_from(code.push(x), d) == (wf_from(code, d) && pops(x) <= depth_after(code, d)),
        depth_after(code.push(x), d) == depth_after(code, d) - pops(x) + 1,
    decreases code.len(),
{
    assert(code.push(x).len() == code.len() + 1);
    if code.len() == 0 {
        assert(code.push(x)[0] == x);
        assert(code.push(x).skip(1) =~= Seq::<Instr>::empty());
        assert(wf_from(code.push(x), d) == (pops(x) <= d && wf_from(
            code.push(x).skip(1),
            d - pops(x) + 1,
        )));
        assert(depth_after(code.push(x), d) == depth_after(code.push(x).skip(1), d - pops(x) + 1));
        assert(wf_from(Seq::<Instr>::empty(), d - pops(x) + 1));
        assert(depth_after(Seq::<Instr>::empty(), d - pops(x) + 1) == d - pops(x) + 1);
    } else {
        assert(code.push(x)[0] == code[0]);
        assert(code.push(x).skip(1) =~= code.skip(1).push(x));
        lemma_wf_snoc(code.skip(1), x, d - pops(code[0]) + 1);
        assert(wf_from(code.push(x), d) == (pops(code[0]) <= d && wf_from(
            code.skip(1).push(x),
            d - pops(code[0]) + 1,
        )));
        assert(depth_after(code.push(x), d) == depth_after(
            code.skip(1).push(x),
            d - pops(code[0]) + 1,
        ));
        assert(wf_from(code, d) == (pops(code[0]) <= d && wf_from(
            code.skip(1),
            d - pops(code[0]) + 1,
        )));
        assert(depth_after(code, d) == depth_after(code.skip(1), d - pops(code[0]) + 1));
    }
}

/// A well-formed program stays well formed on every prefix.
pub proof fn lemma_wf_prefix(code: Seq<Instr>, d: int, k: int)
    requires
        wf_from(code, d),
        0 <= k <= code.len(),
    ensures
        wf_from(code.subrange(0, k), d),
    decreases code.len(),
{
    if code.len() == 0 || k == 0 {
        assert(code.subrange(0, k) =~= Seq::<Instr>::empty());
    } else {
        assert(code.subrange(0, k)[0] == code[0]);
        assert(code.subrange(0, k).skip(1) =~= code.skip(1).subrange(0, k - 1));
        lemma_wf_prefix(code.skip(1), d - pops(code[0]) + 1, k - 1);
    }
}

/// A compiled expression together with the number of variable slots it may
/// reference.
pub struct Program {
    pub code: Vec<Instr>,
    pub n_vars: usize,
}

impl Program {
    /// Well-formedness: the code never underflows an empty starting stack,
    /// leaves exactly one value, and references only existing variables.
    pub open spec fn wf(&self) -> bool {
        &&& wf_from(self.code@, 0)
        &&& depth_after(self.code@, 0) == 1
        &&& vars_bound(self.code@, self.n_vars as int)
    }
}

/// Checks a program's well-formedness by running the depth computation
/// once; the result is exactly the `Program::wf` predicate.
pub fn validate(code: &Vec<Instr>, n_vars: usize) -> (r: bool)
    ensures
        r == (wf_from(code@, 0) && depth_after(code@, 0) == 1 && vars_bound(
            code@,
            n_vars as int,
        )),
{
    let m = code.len();
    let mut d: usize = 0;
    let mut k: usize = 0;
    while k < m
        invariant
            m == code@.len(),
            k <= m,
            d <= k,
            wf_from(code@.subrange(0, k as int), 0),
            d == depth_after(code@.subrange(0, k as int), 0),
            vars_bound(code@.subrange(0, k as int), n_vars as int),
        decreases m - k,
    {
        let p: usize = match &code[k] {
            Instr::PushNum(_) => 0,
            Instr::PushInt(_) => 0,
            Instr::PushVar(v) => {
                if *v >= n_vars {
                    proof {
                        assert(code@[k as int] matches Instr::PushVar(v_) && v_ >= n_vars);
                        assert(!vars_bound(code@, n_vars as int));
                    }
                    return false;
                }
                0
            },
            Instr::Neg => 1,
            Instr::Sin => 1,
            Instr::Cos => 1,
            Instr::Sqrt => 1,
            Instr::Abs => 1,
            _ => 2,
        };
        proof {
            assert(code@.subrange(0, k as int).push(code@[k as int]) =~= code@.subrange(
                0,
                k as int + 1,
            ));
            lemma_wf_snoc(code@.subrange(0, k as int), code@[k as int], 0);
        }
        if d < p {
            proof {
                if wf_from(code@, 0) {
                    lemma_wf_prefix(code@, 0, k as int + 1);
                }
            }
            return false;
        }
        d = d - p + 1;
        k += 1;
        proof {
            assert forall|j: int|
                0 <= j < code@.subrange(0, k as int).len() implies ((#[trigger] code@.subrange(
                0,
                k as int,
            )[j]) matches Instr::PushVar(v) ==> v < n_vars) by {
                assert(code@.subrange(0, k as int)[j] == code@[j]);
            }
        }
    }
    proof {
        assert(code@.subrange(0, m as int) =~= code@);
    }
    d == 1
}

} // verus!
