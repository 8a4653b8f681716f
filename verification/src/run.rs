use vstd::prelude::*;

use crate::num::{
    abs_text, add_text, cos_text, div_text, int_text, max_text, min_text, mul_text, neg_text,
    pow_text, sin_text, spec_is_negative, spec_is_zero, sqrt_text, sub_text, Num,
};
use crate::program::{depth_after, lemma_wf_prefix, lemma_wf_snoc, pops, Instr, Program};

verus! {

// The interpreter. A program runs once per sample against the sample's
// variable bindings (all floating point). Integer literals stay integers
// until an operation forces them to floating point; integer arithmetic is
// checked, and overflow, division by zero and the square root of a
// negative value are runtime errors, which make the evaluation loop skip
// the sample rather than abort.

/// A runtime value.
pub enum Val {
    Int(i64),
    Float(Num),
}

/// The specification-level mirror of `Val`: floats are their canonical
/// texts.
pub ghost enum GVal {
    Int(i64),
    Float(Seq<u8>),
}

impl Val {
    /// The spec value this runtime value denotes.
    pub open spec fn view_val(&self) -> GVal {
        match self {
            Val::Int(v) => GVal::Int(*v),
            Val::Float(n) => GVal::Float(n@),
        }
    }
}

/// The canonical float text of a value: integers widen to the nearest
/// double.
pub open spec fn spec_to_text(v: GVal) -> Seq<u8> {
    match v {
        GVal::Int(i) => int_text(i),
        GVal::Float(t) => t,
    }
}

/// One step of the machine: `None` is a runtime error (or an underflow,
/// which well-formed programs never reach).
pub open spec fn spec_step(stack: Seq<GVal>, ins: Instr, binds: Seq<Seq<u8>>) -> Option<
    Seq<GVal>,
> {
    if stack.len() < pops(ins) {
        None
    } else {
        match ins {
            Instr::PushNum(n) => Some(stack.push(GVal::Float(n@))),
            Instr::PushInt(v) => Some(stack.push(GVal::Int(v))),
            Instr::PushVar(v) => if v < binds.len() {
                Some(stack.push(GVal::Float(binds[v as int])))
            } else {
                None
            },
            Instr::Neg => {
                let a = stack.last();
                match a {
                    GVal::Int(i) => if i == i64::MIN {
                        None
                    } else {
                        Some(stack.drop_last().push(GVal::Int((-i) as i64)))
                    },
                    GVal::Float(t) => Some(stack.drop_last().push(GVal::Float(neg_text(t)))),
                }
            },
            Instr::Add => {
                let b = stack.last();
                let a = stack.drop_last().last();
                let rest = stack.drop_last().drop_last();
                match (a, b) {
                    (GVal::Int(x), GVal::Int(y)) => if i64::MIN <= x + y <= i64::MAX {
                        Some(rest.push(GVal::Int((x + y) as i64)))
                    } else {
                        None
                    },
                    _ => Some(
                        rest.push(GVal::Float(add_text(spec_to_text(a), spec_to_text(b)))),
                    ),
                }
            },
            Instr::Sub => {
                let b = stack.last();
                let a = stack.drop_last().last();
                let rest = stack.drop_last().drop_last();
                match (a, b) {
                    (GVal::Int(x), GVal::Int(y)) => if i64::MIN <= x - y <= i64::MAX {
                        Some(rest.push(GVal::Int((x - y) as i64)))
                    } else {
                        None
                    },
                    _ => Some(
                        rest.push(GVal::Float(sub_text(spec_to_text(a), spec_to_text(b)))),
                    ),
                }
            },
            Instr::Mul => {
                let b = stack.last();
                let a = stack.drop_last().last();
                let rest = stack.drop_last().drop_last();
                match (a, b) {
                    (GVal::Int(x), GVal::Int(y)) => if i64::MIN <= x * y <= i64::MAX {
                        Some(rest.push(GVal::Int((x * y) as i64)))
                    } else {
                        None
                    },
                    _ => Some(
                        rest.push(GVal::Float(mul_text(spec_to_text(a), spec_to_text(b)))),
                    ),
                }
            },
            Instr::Div => {
                let b = stack.last();
                let a = stack.drop_last().last();
                let rest = stack.drop_last().drop_last();
                if spec_is_zero(spec_to_text(b)) {
                    None
                } else {
                    Some(rest.push(GVal::Float(div_text(spec_to_text(a), spec_to_text(b)))))
                }
            },
            Instr::Pow => {
                let b = stack.last();
                let a = stack.drop_last().last();
                let rest = stack.drop_last().drop_last();
                Some(rest.push(GVal::Float(pow_text(spec_to_text(a), spec_to_text(b)))))
            },
            Instr::Min => {
                let b = stack.last();
                let a = stack.drop_last().last();
                let rest = stack.drop_last().drop_last();
                Some(rest.push(GVal::Float(min_text(spec_to_text(a), spec_to_text(b)))))
            },
            Instr::Max => {
                let b = stack.last();
                let a = stack.drop_last().last();
                let rest = stack.drop_last().drop_last();
                Some(rest.push(GVal::Float(max_text(spec_to_text(a), spec_to_text(b)))))
            },
            Instr::Sin => Some(
                stack.drop_last().push(
                    GVal::Float(sin_text(spec_to_text(stack.last()))),
                ),
            ),
            Instr::Cos => Some(
                stack.drop_last().push(
                    GVal::Float(cos_text(spec_to_text(stack.last()))),
                ),
            ),
            Instr::Sqrt => {
                let t = spec_to_text(stack.last());
                if spec_is_negative(t) {
                    None
                } else {
                    Some(stack.drop_last().push(GVal::Float(sqrt_text(t))))
                }
            },
            Instr::Abs => {
                let a = stack.last();
                match a {
                    GVal::Int(i) => if i == i64::MIN {
                        None
                    } else if i < 0 {
                        Some(stack.drop_last().push(GVal::Int((-i) as i64)))
                    } else {
                        Some(stack.drop_last().push(GVal::Int(i)))
                    },
                    GVal::Float(t) => Some(stack.drop_last().push(GVal::Float(abs_text(t)))),
                }
            },
        }
    }
}

/// Running all of `code` from a given stack.
pub open spec fn spec_run(code: Seq<Instr>, binds: Seq<Seq<u8>>, stack: Seq<GVal>) -> Option<
    Seq<GVal>,
>
    decreases code.len(),
{
    if code.len() == 0 {
        Some(stack)
    } else {
        match spec_step(stack, code[0], binds) {
            None => None,
            Some(s) => spec_run(code.skip(1), binds, s),
        }
    }
}

/// The result of one full program run, as the canonical float text of the
/// single value a well-formed program leaves: `None` on a runtime error.
pub open spec fn spec_exec(code: Seq<Instr>, binds: Seq<Seq<u8>>) -> Option<Seq<u8>> {
    match spec_run(code, binds, Seq::empty()) {
        None => None,
        Some(stack) => if stack.len() == 1 {
            Some(spec_to_text(stack[0]))
        } else {
            None
        },
    }
}

/// A successful step grows the stack by the instruction's net effect.
pub proof fn lemma_step_len(stack: Seq<GVal>, ins: Instr, binds: Seq<Seq<u8>>)
    ensures
        spec_step(stack, ins, binds) matches Some(s) ==> s.len() == stack.len() - pops(ins) + 1,
{
}

/// Running a concatenation runs the halves in order.
pub proof fn lemma_run_concat(a: Seq<Instr>, b: Seq<Instr>, binds: Seq<Seq<u8>>, stack: Seq<GVal>)
    ensures
        spec_run(a + b, binds, stack) == (match spec_run(a, binds, stack) {
            None => None::<Seq<GVal>>,
            Some(s) => spec_run(b, binds, s),
        }),
    decreases a.len(),
{
    if a.len() == 0 {
        assert(a + b =~= b);
    } else {
        assert((a + b)[0] == a[0]);
        assert((a + b).skip(1) =~= a.skip(1) + b);
        match spec_step(stack, a[0], binds) {
            None => {},
            Some(s) => {
                lemma_run_concat(a.skip(1), b, binds, s);
            },
        }
    }
}

/// The interpreter. For a well-formed program it refines `spec_exec`
/// exactly: it returns the value `spec_exec` names, and fails precisely on
/// the runs `spec_exec` calls a runtime error.
pub fn run_code(prog: &Program, binds: &Vec<Num>) -> (r: Option<Num>)
    requires
        prog.wf(),
        prog.n_vars == binds@.len(),
    ensures
        (r is Some) ==> spec_exec(prog.code@, binds_view(binds@)) == Some(r.unwrap()@),
        (r is None) ==> spec_exec(prog.code@, binds_view(binds@)) is None,
{
    let ghost gbinds = binds_view(binds@);
    let code = &prog.code;
    let m = code.len();
    let mut stack: Vec<Val> = Vec::new();
    let mut k: usize = 0;
    while k < m
        invariant
            m == code@.len(),
            k <= m,
            prog.wf(),
            prog.n_vars == binds@.len(),
            code == &prog.code,
            gbinds == binds_view(binds@),
            spec_run(code@.subrange(0, k as int), gbinds, Seq::empty()) == Some(
                stack_view(stack@),
            ),
            stack@.len() == depth_after(code@.subrange(0, k as int), 0),
        decreases m - k,
    {
        proof {
            lemma_wf_prefix(code@, 0, k as int + 1);
            assert(code@.subrange(0, k as int).push(code@[k as int]) =~= code@.subrange(
                0,
                k as int + 1,
            ));
            lemma_wf_snoc(code@.subrange(0, k as int), code@[k as int], 0);
            lemma_run_concat(
                code@.subrange(0, k as int),
                seq![code@[k as int]],
                gbinds,
                Seq::empty(),
            );
            assert(code@.subrange(0, k as int) + seq![code@[k as int]] =~= code@.subrange(
                0,
                k as int + 1,
            ));
        }
        let ghost pre = stack_view(stack@);
        let step_ok = exec_step(&mut stack, &code[k], binds);
        proof {
            assert(seq![code@[k as int]][0] == code@[k as int]);
            assert(seq![code@[k as int]].skip(1) =~= Seq::<Instr>::empty());
        }
        if !step_ok {
            proof {
                assert(code@.subrange(0, k as int + 1) + code@.subrange(k as int + 1, m as int)
                    =~= code@);
                lemma_run_concat(
                    code@.subrange(0, k as int + 1),
                    code@.subrange(k as int + 1, m as int),
                    gbinds,
                    Seq::empty(),
                );
            }
            return None;
        }
        proof {
            let x = code@[k as int];
            assert(spec_step(pre, x, gbinds) == Some(stack_view(stack@)));
            assert(seq![x].skip(1).len() == 0);
            assert(spec_run(seq![x].skip(1), gbinds, stack_view(stack@)) == Some(
                stack_view(stack@),
            ));
            assert(spec_run(seq![x], gbinds, pre) == Some(stack_view(stack@)));
            assert(spec_run(code@.subrange(0, k as int + 1), gbinds, Seq::empty()) == Some(
                stack_view(stack@),
            ));
            lemma_step_len(pre, x, gbinds);
            assert(pre.len() == depth_after(code@.subrange(0, k as int), 0));
        }
        k += 1;
    }
    proof {
        assert(code@.subrange(0, m as int) =~= code@);
    }
    if stack.len() == 1 {
        let v = stack.pop().unwrap();
        Some(to_num(v))
    } else {
        None
    }
}

/// The spec views of a runtime stack and of a binding vector.
pub open spec fn stack_view(s: Seq<Val>) -> Seq<GVal> {
    s.map(|i: int, v: Val| v.view_val())
}

pub open spec fn binds_view(s: Seq<Num>) -> Seq<Seq<u8>> {
    s.map(|i: int, n: Num| n@)
}

/// Widens a value to its float carrier.
fn to_num(v: Val) -> (r: Num)
    ensures
        r@ == spec_to_text(v.view_val()),
{
    match v {
        Val::Int(i) => Num::of_int(i),
        Val::Float(n) => n,
    }
}

/// One step of the machine on the real stack. Returns false exactly when
/// the step is a runtime error.
fn exec_step(stack: &mut Vec<Val>, ins: &Instr, binds: &Vec<Num>) -> (ok: bool)
    requires
        pops(*ins) <= old(stack)@.len(),
        (*ins matches Instr::PushVar(v) ==> v < binds@.len()),
    ensures
        ok ==> Some(stack_view(final(stack)@)) == spec_step(
            stack_view(old(stack)@),
            *ins,
            binds_view(binds@),
        ),
        !ok ==> spec_step(stack_view(old(stack)@), *ins, binds_view(binds@)) is None,
{
    let ghost gstack = stack_view(stack@);
    let ghost gbinds = binds_view(binds@);
    match ins {
        Instr::PushNum(n) => {
            stack.push(Val::Float(n.clone()));
            proof {
                assert(stack_view(stack@) =~= gstack.push(GVal::Float(n@)));
            }
            true
        },
        Instr::PushInt(v) => {
            stack.push(Val::Int(*v));
            proof {
                assert(stack_view(stack@) =~= gstack.push(GVal::Int(*v)));
            }
            true
        },
        Instr::PushVar(v) => {
            stack.push(Val::Float(binds[*v].clone()));
            proof {
                assert(stack_view(stack@) =~= gstack.push(GVal::Float(gbinds[*v as int])));
            }
            true
        },
        Instr::Neg => {
            let a = stack.pop().unwrap();
            match a {
                Val::Int(i) => {
                    if i == i64::MIN {
                        false
                    } else {
                        stack.push(Val::Int(-i));
                        proof {
                            assert(stack_view(stack@) =~= gstack.drop_last().push(
                                GVal::Int((-i) as i64),
                            ));
                        }
                        true
                    }
                },
                Val::Float(n) => {
                    stack.push(Val::Float(n.neg()));
                    proof {
                        assert(stack_view(stack@) =~= gstack.drop_last().push(
                            GVal::Float(neg_text(n@)),
                        ));
                    }
                    true
                },
            }
        },
        Instr::Add => {
            let b = stack.pop().unwrap();
            let a = stack.pop().unwrap();
            match (&a, &b) {
                (Val::Int(x), Val::Int(y)) => {
                    match x.checked_add(*y) {
                        Some(s) => {
                            stack.push(Val::Int(s));
                            proof {
                                assert(stack_view(stack@) =~= gstack.drop_last().drop_last().push(
                                    GVal::Int(s),
                                ));
                            }
                            true
                        },
                        None => false,
                    }
                },
                _ => {
                    let r = to_num(a).add(&to_num(b));
                    stack.push(Val::Float(r));
                    proof {
                        assert(stack_view(stack@) =~= gstack.drop_last().drop_last().push(
                            GVal::Float(
                                add_text(
                                    spec_to_text(gstack.drop_last().last()),
                                    spec_to_text(gstack.last()),
                                ),
                            ),
                        ));
                    }
                    true
                },
            }
        },
        Instr::Sub => {
            let b = stack.pop().unwrap();
            let a = stack.pop().unwrap();
            match (&a, &b) {
                (Val::Int(x), Val::Int(y)) => {
                    match x.checked_sub(*y) {
                        Some(s) => {
                            stack.push(Val::Int(s));
                            proof {
                                assert(stack_view(stack@) =~= gstack.drop_last().drop_last().push(
                                    GVal::Int(s),
                                ));
                            }
                            true
                        },
                        None => false,
                    }
                },
                _ => {
                    let r = to_num(a).sub(&to_num(b));
                    stack.push(Val::Float(r));
                    proof {
                        assert(stack_view(stack@) =~= gstack.drop_last().drop_last().push(
                            GVal::Float(
                                sub_text(
                                    spec_to_text(gstack.drop_last().last()),
                                    spec_to_text(gstack.last()),
                                ),
                            ),
                        ));
                    }
                    true
                },
            }
        },
        Instr::Mul => {
            let b = stack.pop().unwrap();
            let a = stack.pop().unwrap();
            match (&a, &b) {
                (Val::Int(x), Val::Int(y)) => {
                    match x.checked_mul(*y) {
                        Some(s) => {
                            stack.push(Val::Int(s));
                            proof {
                                assert(stack_view(stack@) =~= gstack.drop_last().drop_last().push(
                                    GVal::Int(s),
                                ));
                            }
                            true
                        },
                        None => false,
                    }
                },
                _ => {
                    let r = to_num(a).mul(&to_num(b));
                    stack.push(Val::Float(r));
                    proof {
                        assert(stack_view(stack@) =~= gstack.drop_last().drop_last().push(
                            GVal::Float(
                                mul_text(
                                    spec_to_text(gstack.drop_last().last()),
                                    spec_to_text(gstack.last()),
                                ),
                            ),
                        ));
                    }
                    true
                },
            }
        },
        Instr::Div => {
            let b = stack.pop().unwrap();
            let a = stack.pop().unwrap();
            let bn = to_num(b);
            if bn.is_zero() {
                false
            } else {
                let r = to_num(a).div(&bn);
                stack.push(Val::Float(r));
                proof {
                    assert(stack_view(stack@) =~= gstack.drop_last().drop_last().push(
                        GVal::Float(
                            div_text(
                                spec_to_text(gstack.drop_last().last()),
                                spec_to_text(gstack.last()),
                            ),
                        ),
                    ));
                }
                true
            }
        },
        Instr::Pow => {
            let b = stack.pop().unwrap();
            let a = stack.pop().unwrap();
            let r = to_num(a).pow(&to_num(b));
            stack.push(Val::Float(r));
            proof {
                assert(stack_view(stack@) =~= gstack.drop_last().drop_last().push(
                    GVal::Float(
                        pow_text(
                            spec_to_text(gstack.drop_last().last()),
                            spec_to_text(gstack.last()),
                        ),
                    ),
                ));
            }
            true
        },
        Instr::Min => {
            let b = stack.pop().unwrap();
            let a = stack.pop().unwrap();
            let r = to_num(a).min(&to_num(b));
            stack.push(Val::Float(r));
            proof {
                assert(stack_view(stack@) =~= gstack.drop_last().drop_last().push(
                    GVal::Float(
                        min_text(
                            spec_to_text(gstack.drop_last().last()),
                            spec_to_text(gstack.last()),
                        ),
                    ),
                ));
            }
            true
        },
        Instr::Max => {
            let b = stack.pop().unwrap();
            let a = stack.pop().unwrap();
            let r = to_num(a).max(&to_num(b));
            stack.push(Val::Float(r));
            proof {
                assert(stack_view(stack@) =~= gstack.drop_last().drop_last().push(
                    GVal::Float(
                        max_text(
                            spec_to_text(gstack.drop_last().last()),
                            spec_to_text(gstack.last()),
                        ),
                    ),
                ));
            }
            true
        },
        Instr::Sin => {
            let a = stack.pop().unwrap();
            let r = to_num(a).sin();
            stack.push(Val::Float(r));
            proof {
                assert(stack_view(stack@) =~= gstack.drop_last().push(
                    GVal::Float(sin_text(spec_to_text(gstack.last()))),
                ));
            }
            true
        },
        Instr::Cos => {
            let a = stack.pop().unwrap();
            let r = to_num(a).cos();
            stack.push(Val::Float(r));
            proof {
                assert(stack_view(stack@) =~= gstack.drop_last().push(
                    GVal::Float(cos_text(spec_to_text(gstack.last()))),
                ));
            }
            true
        },
        Instr::Sqrt => {
            let a = stack.pop().unwrap();
            let an = to_num(a);
            if an.is_negative() {
                false
            } else {
                let r = an.sqrt();
                stack.push(Val::Float(r));
                proof {
                    assert(stack_view(stack@) =~= gstack.drop_last().push(
                        GVal::Float(sqrt_text(spec_to_text(gstack.last()))),
                    ));
                }
                true
            }
        },
        Instr::Abs => {
            let a = stack.pop().unwrap();
            match a {
                Val::Int(i) => {
                    if i == i64::MIN {
                        false
                    } else if i < 0 {
                        stack.push(Val::Int(-i));
                        proof {
                            assert(stack_view(stack@) =~= gstack.drop_last().push(
                                GVal::Int((-i) as i64),
                            ));
                        }
                        true
                    } else {
                        stack.push(Val::Int(i));
                        proof {
                            assert(stack_view(stack@) =~= gstack.drop_last().push(GVal::Int(i)));
                        }
                        true
                    }
                },
                Val::Float(n) => {
                    stack.push(Val::Float(n.abs()));
                    proof {
                        assert(stack_view(stack@) =~= gstack.drop_last().push(
                            GVal::Float(abs_text(n@)),
                        ));
                    }
                    true
                },
            }
        },
    }
}

} // verus!
