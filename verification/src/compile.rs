use vstd::prelude::*;

use crate::error::{CompileError, ErrorKind};
use crate::lex::{lex, spec_is_ident_text, spec_tok_in, Tok, TokKind};
use crate::num::Num;
use vstd::string::StringSliceAdditionalSpecFns;
use crate::program::{depth_after, pops, validate, vars_bound, wf_from, Instr, Program};

verus! {

// The compiler front end: recursive-descent parsing straight into stack
// code, with identifiers bound against the channel-name table. Precedence,
// loosest first: addition, multiplication, unary minus, exponentiation
// (right associative), atoms. Functions are `sin`, `cos`, `sqrt`, `abs`
// (one argument) and `min`, `max` (two); `PI`, `E` and `TAU` are constants.
// Identifiers that are none of these must name a channel or `time`.

/// A copy of the source bytes `start..end`.
fn bytes_range(src: &[u8], start: usize, end: usize) -> (r: Vec<u8>)
    requires
        start <= end <= src@.len(),
    ensures
        r@ == src@.subrange(start as int, end as int),
{
    let mut r: Vec<u8> = Vec::new();
    let mut i: usize = start;
    while i < end
        invariant
            start <= i <= end <= src@.len(),
            r@ == src@.subrange(start as int, i as int),
        decreases end - i,
    {
        r.push(src[i]);
        proof {
            assert(src@.subrange(start as int, i as int).push(src@[i as int]) =~= src@.subrange(
                start as int,
                i as int + 1,
            ));
        }
        i += 1;
    }
    r
}

/// Whether two byte strings are equal.
fn bytes_eq(a: &[u8], b: &[u8]) -> (r: bool)
    ensures
        r == (a@ == b@),
{
    if a.len() != b.len() {
        return false;
    }
    let n = a.len();
    let mut i: usize = 0;
    while i < n
        invariant
            n == a@.len() == b@.len(),
            i <= n,
            forall|k: int| 0 <= k < i ==> a@[k] == b@[k],
        decreases n - i,
    {
        if a[i] != b[i] {
            return false;
        }
        i += 1;
    }
    proof {
        assert(a@ =~= b@);
    }
    true
}

/// The first entry of `names` that equals `ident`, if any. The first match
/// wins, mirroring declaration order: channels stream by stream, `time`
/// last.
fn lookup(names: &Vec<Vec<u8>>, ident: &Vec<u8>) -> (r: Option<usize>)
    ensures
        r matches Some(k) ==> k < names@.len() && names@[k as int]@ == ident@ && (forall|j: int|
            0 <= j < k ==> names@[j]@ != ident@),
        (r is None) ==> forall|j: int| 0 <= j < names@.len() ==> names@[j]@ != ident@,
{
    let n = names.len();
    let mut i: usize = 0;
    while i < n
        invariant
            n == names@.len(),
            i <= n,
            forall|j: int| 0 <= j < i ==> names@[j]@ != ident@,
        decreases n - i,
    {
        if bytes_eq(names[i].as_slice(), ident.as_slice()) {
            return Some(i);
        }
        i += 1;
    }
    None
}

/// The numeric value of a string of decimal digits.
pub open spec fn dec_val(s: Seq<u8>) -> int
    decreases s.len(),
{
    if s.len() == 0 {
        0
    } else {
        dec_val(s.drop_last()) * 10 + (s.last() - 48)
    }
}

/// Whether every byte of `s` is a decimal digit.
pub open spec fn all_digits(s: Seq<u8>) -> bool {
    forall|k: int| 0 <= k < s.len() ==> 48 <= #[trigger] s[k] <= 57
}

/// A digit string's value never shrinks as digits are appended.
proof fn lemma_dec_monotone(s: Seq<u8>, k: int)
    requires
        all_digits(s),
        0 <= k <= s.len(),
    ensures
        0 <= dec_val(s.subrange(0, k)) <= dec_val(s),
    decreases s.len() - k,
{
    if k == s.len() {
        assert(s.subrange(0, k) =~= s);
        lemma_dec_nonneg(s);
    } else {
        lemma_dec_monotone(s, k + 1);
        assert(s.subrange(0, k + 1).drop_last() =~= s.subrange(0, k));
        assert(s.subrange(0, k + 1).last() == s[k]);
        lemma_dec_nonneg(s.subrange(0, k));
    }
}

/// A digit string's value is never negative.
proof fn lemma_dec_nonneg(s: Seq<u8>)
    requires
        all_digits(s),
    ensures
        dec_val(s) >= 0,
    decreases s.len(),
{
    if s.len() > 0 {
        assert(all_digits(s.drop_last())) by {
            assert(forall|k: int| 0 <= k < s.len() - 1 ==> 48 <= #[trigger] s[k] <= 57);
        }
        lemma_dec_nonneg(s.drop_last());
    }
}

/// Whether the bytes are all digits.
fn is_all_digits(s: &Vec<u8>) -> (r: bool)
    ensures
        r == all_digits(s@),
{
    let n = s.len();
    let mut i: usize = 0;
    while i < n
        invariant
            n == s@.len(),
            i <= n,
            forall|k: int| 0 <= k < i ==> 48 <= #[trigger] s@[k] <= 57,
        decreases n - i,
    {
        if s[i] < 48 || s[i] > 57 {
            return false;
        }
        i += 1;
    }
    true
}

/// Reads a digit string as a signed 64-bit integer: `Some` of its value
/// exactly when it fits, `None` when it is too large.
fn parse_i64(s: &Vec<u8>) -> (r: Option<i64>)
    requires
        all_digits(s@),
    ensures
        r matches Some(v) ==> v == dec_val(s@),
        (r is None) ==> dec_val(s@) > i64::MAX,
{
    let n = s.len();
    let mut acc: i64 = 0;
    let mut i: usize = 0;
    while i < n
        invariant
            n == s@.len(),
            i <= n,
            all_digits(s@),
            acc == dec_val(s@.subrange(0, i as int)),
            acc >= 0,
        decreases n - i,
    {
        let d = s[i];
        proof {
            assert(s@.subrange(0, i as int + 1).drop_last() =~= s@.subrange(0, i as int));
            assert(s@.subrange(0, i as int + 1).last() == s@[i as int]);
        }
        let next = match acc.checked_mul(10) {
            Some(m) => m.checked_add((d - 48) as i64),
            None => None,
        };
        match next {
            Some(v) => {
                acc = v;
            },
            None => {
                proof {
                    lemma_dec_monotone(s@, i as int + 1);
                }
                return None;
            },
        }
        i += 1;
    }
    proof {
        assert(s@.subrange(0, n as int) =~= s@);
    }
    Some(acc)
}

/// Whether every token's span lies inside a source of length `n`.
pub open spec fn toks_in(toks: Seq<Tok>, n: int) -> bool {
    forall|k: int| 0 <= k < toks.len() ==> spec_tok_in(#[trigger] toks[k], n)
}

/// The plain-variable case on which the compiler owes success: the whole
/// source is one identifier, it is not a constant's name, and it appears
/// in the name table.
pub open spec fn spec_plain_var(src: Seq<u8>, names: Seq<Vec<u8>>) -> bool {
    &&& spec_is_ident_text(src)
    &&& src != "PI".spec_bytes()
    &&& src != "E".spec_bytes()
    &&& src != "TAU".spec_bytes()
    &&& exists|k: int| 0 <= k < names.len() && (#[trigger] names[k])@ == src
}

/// The token list of a source that is one identifier.
pub open spec fn single_ident_toks(toks: Seq<Tok>, src: Seq<u8>) -> bool {
    toks == seq![Tok { kind: TokKind::Ident, start: 0, end: src.len() as usize }]
}

/// The complementary single-identifier case: the source is one identifier
/// that names no constant and appears nowhere in the table, so the
/// compiler owes the unknown-variable diagnostic.
pub open spec fn spec_unknown_var(src: Seq<u8>, names: Seq<Vec<u8>>) -> bool {
    &&& spec_is_ident_text(src)
    &&& src != "PI".spec_bytes()
    &&& src != "E".spec_bytes()
    &&& src != "TAU".spec_bytes()
    &&& forall|k: int| 0 <= k < names.len() ==> (#[trigger] names[k])@ != src
}

/// The unknown-variable case, stated over the name table's byte
/// sequences.
pub open spec fn spec_unknown_var_named(src: Seq<u8>, names: Seq<Seq<u8>>) -> bool {
    &&& spec_is_ident_text(src)
    &&& src != "PI".spec_bytes()
    &&& src != "E".spec_bytes()
    &&& src != "TAU".spec_bytes()
    &&& forall|k: int| 0 <= k < names.len() ==> #[trigger] names[k] != src
}

/// The same plain-variable case, stated over the name table's byte
/// sequences rather than the vectors that hold them.
pub open spec fn spec_plain_var_named(src: Seq<u8>, names: Seq<Seq<u8>>) -> bool {
    &&& spec_is_ident_text(src)
    &&& src != "PI".spec_bytes()
    &&& src != "E".spec_bytes()
    &&& src != "TAU".spec_bytes()
    &&& exists|k: int| 0 <= k < names.len() && #[trigger] names[k] == src
}

/// Exactly one instruction was emitted: a reference to the first table
/// entry whose name is `src`.
pub open spec fn pushed_first_var(
    old_out: Seq<Instr>,
    new_out: Seq<Instr>,
    src: Seq<u8>,
    names: Seq<Vec<u8>>,
) -> bool {
    &&& new_out.len() == old_out.len() + 1
    &&& new_out.subrange(0, old_out.len() as int) == old_out
    &&& (new_out.last() matches Instr::PushVar(v) && v < names.len() && (#[trigger] names[
        v as int])@ == src && (forall|j: int| 0 <= j < v ==> (#[trigger] names[j])@ != src))
}

/// Additive level: `term (('+' | '-') term)*`.
fn parse_expr(
    toks: &Vec<Tok>,
    src: &[u8],
    names: &Vec<Vec<u8>>,
    i: usize,
    out: &mut Vec<Instr>,
) -> (r: Result<usize, CompileError>)
    requires
        i <= toks@.len(),
        toks_in(toks@, src@.len() as int),
    ensures
        r matches Ok(j) ==> i < j <= toks@.len(),
        (i == 0 && spec_plain_var(src@, names@) && single_ident_toks(toks@, src@)) ==> (r
            matches Ok(j) && j == 1 && pushed_first_var(old(out)@, final(out)@, src@, names@)),
        (i == 0 && spec_unknown_var(src@, names@) && single_ident_toks(toks@, src@)) ==> (r
            matches Err(e) && e.kind == ErrorKind::UnknownIdent),
    decreases toks@.len() - i, 5int,
{
    let mut j = match parse_term(toks, src, names, i, out) {
        Ok(j) => j,
        Err(e) => {
            return Err(e);
        },
    };
    while j < toks.len() && (toks[j].kind == TokKind::Plus || toks[j].kind == TokKind::Minus)
        invariant
            i < j <= toks@.len(),
            toks_in(toks@, src@.len() as int),
            (i == 0 && spec_plain_var(src@, names@) && single_ident_toks(toks@, src@)) ==> (j == 1
                && pushed_first_var(old(out)@, out@, src@, names@)),
        decreases toks@.len() - j,
    {
        let minus = toks[j].kind == TokKind::Minus;
        j = match parse_term(toks, src, names, j + 1, out) {
            Ok(j2) => j2,
            Err(e) => {
                return Err(e);
            },
        };
        if minus {
            out.push(Instr::Sub);
        } else {
            out.push(Instr::Add);
        }
    }
    Ok(j)
}

/// Multiplicative level: `unary (('*' | '/') unary)*`.
fn parse_term(
    toks: &Vec<Tok>,
    src: &[u8],
    names: &Vec<Vec<u8>>,
    i: usize,
    out: &mut Vec<Instr>,
) -> (r: Result<usize, CompileError>)
    requires
        i <= toks@.len(),
        toks_in(toks@, src@.len() as int),
    ensures
        r matches Ok(j) ==> i < j <= toks@.len(),
        (i == 0 && spec_plain_var(src@, names@) && single_ident_toks(toks@, src@)) ==> (r
            matches Ok(j) && j == 1 && pushed_first_var(old(out)@, final(out)@, src@, names@)),
        (i == 0 && spec_unknown_var(src@, names@) && single_ident_toks(toks@, src@)) ==> (r
            matches Err(e) && e.kind == ErrorKind::UnknownIdent),
    decreases toks@.len() - i, 4int,
{
    let mut j = match parse_unary(toks, src, names, i, out) {
        Ok(j) => j,
        Err(e) => {
            return Err(e);
        },
    };
    while j < toks.len() && (toks[j].kind == TokKind::Star || toks[j].kind == TokKind::Slash)
        invariant
            i < j <= toks@.len(),
            toks_in(toks@, src@.len() as int),
            (i == 0 && spec_plain_var(src@, names@) && single_ident_toks(toks@, src@)) ==> (j == 1
                && pushed_first_var(old(out)@, out@, src@, names@)),
        decreases toks@.len() - j,
    {
        let slash = toks[j].kind == TokKind::Slash;
        j = match parse_unary(toks, src, names, j + 1, out) {
            Ok(j2) => j2,
            Err(e) => {
                return Err(e);
            },
        };
        if slash {
            out.push(Instr::Div);
        } else {
            out.push(Instr::Mul);
        }
    }
    Ok(j)
}

/// Unary minus, binding looser than exponentiation: `-x^2` is `-(x^2)`.
fn parse_unary(
    toks: &Vec<Tok>,
    src: &[u8],
    names: &Vec<Vec<u8>>,
    i: usize,
    out: &mut Vec<Instr>,
) -> (r: Result<usize, CompileError>)
    requires
        i <= toks@.len(),
        toks_in(toks@, src@.len() as int),
    ensures
        r matches Ok(j) ==> i < j <= toks@.len(),
        (i == 0 && spec_plain_var(src@, names@) && single_ident_toks(toks@, src@)) ==> (r
            matches Ok(j) && j == 1 && pushed_first_var(old(out)@, final(out)@, src@, names@)),
        (i == 0 && spec_unknown_var(src@, names@) && single_ident_toks(toks@, src@)) ==> (r
            matches Err(e) && e.kind == ErrorKind::UnknownIdent),
    decreases toks@.len() - i, 3int,
{
    if i < toks.len() && toks[i].kind == TokKind::Minus {
        let j = match parse_unary(toks, src, names, i + 1, out) {
            Ok(j) => j,
            Err(e) => {
                return Err(e);
            },
        };
        out.push(Instr::Neg);
        Ok(j)
    } else {
        parse_power(toks, src, names, i, out)
    }
}

/// Exponentiation, right associative: `atom ('^' unary)?`.
fn parse_power(
    toks: &Vec<Tok>,
    src: &[u8],
    names: &Vec<Vec<u8>>,
    i: usize,
    out: &mut Vec<Instr>,
) -> (r: Result<usize, CompileError>)
    requires
        i <= toks@.len(),
        toks_in(toks@, src@.len() as int),
    ensures
        r matches Ok(j) ==> i < j <= toks@.len(),
        (i == 0 && spec_plain_var(src@, names@) && single_ident_toks(toks@, src@)) ==> (r
            matches Ok(j) && j == 1 && pushed_first_var(old(out)@, final(out)@, src@, names@)),
        (i == 0 && spec_unknown_var(src@, names@) && single_ident_toks(toks@, src@)) ==> (r
            matches Err(e) && e.kind == ErrorKind::UnknownIdent),
    decreases toks@.len() - i, 2int,
{
    let j = match parse_atom(toks, src, names, i, out) {
        Ok(j) => j,
        Err(e) => {
            return Err(e);
        },
    };
    if j < toks.len() && toks[j].kind == TokKind::Caret {
        let j2 = match parse_unary(toks, src, names, j + 1, out) {
            Ok(j2) => j2,
            Err(e) => {
                return Err(e);
            },
        };
        out.push(Instr::Pow);
        Ok(j2)
    } else {
        Ok(j)
    }
}

/// A literal, a constant, a variable, a function call, or a
/// parenthesized expression.
fn parse_atom(
    toks: &Vec<Tok>,
    src: &[u8],
    names: &Vec<Vec<u8>>,
    i: usize,
    out: &mut Vec<Instr>,
) -> (r: Result<usize, CompileError>)
    requires
        i <= toks@.len(),
        toks_in(toks@, src@.len() as int),
    ensures
        r matches Ok(j) ==> i < j <= toks@.len(),
        (i == 0 && spec_plain_var(src@, names@) && single_ident_toks(toks@, src@)) ==> (r
            matches Ok(j) && j == 1 && pushed_first_var(old(out)@, final(out)@, src@, names@)),
        (i == 0 && spec_unknown_var(src@, names@) && single_ident_toks(toks@, src@)) ==> (r
            matches Err(e) && e.kind == ErrorKind::UnknownIdent),
    decreases toks@.len() - i, 1int,
{
    let n_src = src.len();
    if i >= toks.len() {
        return Err(CompileError::new(ErrorKind::ExpectedOperand, n_src, n_src));
    }
    let t = toks[i];
    proof {
        if i == 0 && (spec_plain_var(src@, names@) || spec_unknown_var(src@, names@))
            && single_ident_toks(toks@, src@) {
            assert(src@.len() == n_src);
            assert(toks@[0] == Tok { kind: TokKind::Ident, start: 0, end: src@.len() as usize });
            assert(t.kind == TokKind::Ident && t.start == 0 && t.end == n_src);
            assert(toks@.len() == 1);
        }
    }
    match t.kind {
        TokKind::Number => {
            let text = bytes_range(src, t.start, t.end);
            // A literal of digits alone that fits the signed 64-bit range
            // is an integer; anything else is floating point.
            if is_all_digits(&text) {
                if let Some(v) = parse_i64(&text) {
                    out.push(Instr::PushInt(v));
                    return Ok(i + 1);
                }
            }
            match Num::from_text(text.as_slice()) {
                Some(n) => {
                    out.push(Instr::PushNum(n));
                    Ok(i + 1)
                },
                None => Err(CompileError::new(ErrorKind::BadNumber, t.start, t.end)),
            }
        },
        TokKind::Ident => {
            let text = bytes_range(src, t.start, t.end);
            proof {
                if i == 0 && (spec_plain_var(src@, names@) || spec_unknown_var(src@, names@))
                    && single_ident_toks(toks@, src@) {
                    assert(text@ =~= src@);
                }
            }
            if i + 1 < toks.len() && toks[i + 1].kind == TokKind::LParen {
                parse_call(toks, src, names, i, out, &text)
            } else if bytes_eq(text.as_slice(), "PI".as_bytes()) {
                match push_const(out, "3.141592653589793", t) {
                    Ok(_) => Ok(i + 1),
                    Err(e) => Err(e),
                }
            } else if bytes_eq(text.as_slice(), "E".as_bytes()) {
                match push_const(out, "2.718281828459045", t) {
                    Ok(_) => Ok(i + 1),
                    Err(e) => Err(e),
                }
            } else if bytes_eq(text.as_slice(), "TAU".as_bytes()) {
                match push_const(out, "6.283185307179586", t) {
                    Ok(_) => Ok(i + 1),
                    Err(e) => Err(e),
                }
            } else {
                match lookup(names, &text) {
                    Some(k) => {
                        let ghost old_out = out@;
                        out.push(Instr::PushVar(k));
                        proof {
                            if i == 0 && spec_plain_var(src@, names@) && single_ident_toks(
                                toks@,
                                src@,
                            ) {
                                assert(out@.subrange(0, old_out.len() as int) =~= old_out);
                                assert(pushed_first_var(old_out, out@, src@, names@));
                            }
                        }
                        Ok(i + 1)
                    },
                    None => Err(CompileError::new(ErrorKind::UnknownIdent, t.start, t.end)),
                }
            }
        },
        TokKind::LParen => {
            let j = match parse_expr(toks, src, names, i + 1, out) {
                Ok(j) => j,
                Err(e) => {
                    return Err(e);
                },
            };
            if j < toks.len() && toks[j].kind == TokKind::RParen {
                Ok(j + 1)
            } else {
                Err(CompileError::new(ErrorKind::ExpectedParen, t.start, t.end))
            }
        },
        _ => Err(CompileError::new(ErrorKind::ExpectedOperand, t.start, t.end)),
    }
}

/// Emits a constant's value; the token only carries the span to blame if
/// the constant's text were ever unreadable.
fn push_const(out: &mut Vec<Instr>, text: &str, t: Tok) -> (r: Result<(), CompileError>) {
    match Num::from_text(text.as_bytes()) {
        Some(n) => {
            out.push(Instr::PushNum(n));
            Ok(())
        },
        None => Err(CompileError::new(ErrorKind::BadNumber, t.start, t.end)),
    }
}

/// A function call: the name token at `i`, `(`, comma-separated arguments,
/// `)`. The known functions take one argument (`sin`, `cos`, `sqrt`,
/// `abs`) or two (`min`, `max`).
fn parse_call(
    toks: &Vec<Tok>,
    src: &[u8],
    names: &Vec<Vec<u8>>,
    i: usize,
    out: &mut Vec<Instr>,
    fun: &Vec<u8>,
) -> (r: Result<usize, CompileError>)
    requires
        i + 1 < toks@.len(),
        toks_in(toks@, src@.len() as int),
    ensures
        r matches Ok(j) ==> i < j <= toks@.len(),
    decreases toks@.len() - i, 0int,
{
    let t = toks[i];
    let unary: Option<Instr> = if bytes_eq(fun.as_slice(), "sin".as_bytes()) {
        Some(Instr::Sin)
    } else if bytes_eq(fun.as_slice(), "cos".as_bytes()) {
        Some(Instr::Cos)
    } else if bytes_eq(fun.as_slice(), "sqrt".as_bytes()) {
        Some(Instr::Sqrt)
    } else if bytes_eq(fun.as_slice(), "abs".as_bytes()) {
        Some(Instr::Abs)
    } else {
        None
    };
    let binary: Option<Instr> = if bytes_eq(fun.as_slice(), "min".as_bytes()) {
        Some(Instr::Min)
    } else if bytes_eq(fun.as_slice(), "max".as_bytes()) {
        Some(Instr::Max)
    } else {
        None
    };
    if unary.is_none() && binary.is_none() {
        return Err(CompileError::new(ErrorKind::UnknownFun, t.start, t.end));
    }
    // Skip the name and the opening parenthesis.
    let n_toks = toks.len();
    proof {
        assert(i + 2 <= n_toks);
    }
    let mut j = match parse_expr(toks, src, names, i + 2, out) {
        Ok(j) => j,
        Err(e) => {
            return Err(e);
        },
    };
    let mut argc: usize = 1;
    while j < toks.len() && toks[j].kind == TokKind::Comma
        invariant
            i < j <= toks@.len(),
            toks_in(toks@, src@.len() as int),
            argc >= 1,
        decreases toks@.len() - j,
    {
        j = match parse_expr(toks, src, names, j + 1, out) {
            Ok(j2) => j2,
            Err(e) => {
                return Err(e);
            },
        };
        // Saturating: anything beyond two arguments is wrong anyway.
        if argc < usize::MAX {
            argc += 1;
        }
    }
    if !(j < toks.len() && toks[j].kind == TokKind::RParen) {
        return Err(CompileError::new(ErrorKind::ExpectedParen, t.start, t.end));
    }
    j += 1;
    match (unary, binary) {
        (Some(ins), _) => {
            if argc != 1 {
                return Err(CompileError::new(ErrorKind::WrongArgCount, t.start, t.end));
            }
            out.push(ins);
            Ok(j)
        },
        (_, Some(ins)) => {
            if argc != 2 {
                return Err(CompileError::new(ErrorKind::WrongArgCount, t.start, t.end));
            }
            out.push(ins);
            Ok(j)
        },
        _ => Err(CompileError::new(ErrorKind::UnknownFun, t.start, t.end)),
    }
}

/// Compiles one expression against the name table (channel names in
/// declaration order, then `time`). On success the program is well formed
/// — it can run against any binding vector with one slot per name — and
/// its variable ids index exactly that table.
pub fn compile(src_text: &str, names: &Vec<Vec<u8>>) -> (r: Result<Program, CompileError>)
    ensures
        r matches Ok(p) ==> p.wf() && p.n_vars == names@.len(),
        spec_plain_var(src_text.spec_bytes(), names@) ==> (r matches Ok(p) && p.code@.len() == 1
            && (p.code@[0] matches Instr::PushVar(v) && v < names@.len() && (#[trigger] names@[
        v as int])@ == src_text.spec_bytes() && (forall|j: int|
            0 <= j < v ==> (#[trigger] names@[j])@ != src_text.spec_bytes()))),
        spec_unknown_var(src_text.spec_bytes(), names@) ==> (r matches Err(e) && e.kind
            == ErrorKind::UnknownIdent),
{
    let src = src_text.as_bytes();
    let toks = match lex(src) {
        Ok(toks) => toks,
        Err(e) => {
            return Err(e);
        },
    };
    if toks.len() == 0 {
        return Err(CompileError::new(ErrorKind::EmptyExpr, 0, 0));
    }
    let mut out: Vec<Instr> = Vec::new();
    let j = match parse_expr(&toks, src, names, 0, &mut out) {
        Ok(j) => j,
        Err(e) => {
            return Err(e);
        },
    };
    if j < toks.len() {
        let t = toks[j];
        return Err(CompileError::new(ErrorKind::TrailingToken, t.start, t.end));
    }
    proof {
        if spec_plain_var(src@, names@) {
            assert(spec_is_ident_text(src@));
            assert(single_ident_toks(toks@, src@));
            assert(pushed_first_var(Seq::<Instr>::empty(), out@, src@, names@));
            assert(out@.subrange(0, 0) =~= Seq::<Instr>::empty());
            assert(out@ =~= seq![out@.last()]);
            assert(out@[0] matches Instr::PushVar(v) && v < names@.len());
            assert(out@.skip(1) =~= Seq::<Instr>::empty());
            assert(pops(out@[0]) == 0);
            assert(wf_from(out@.skip(1), 1));
            assert(depth_after(out@.skip(1), 1) == 1);
            assert(wf_from(out@, 0));
            assert(depth_after(out@, 0) == 1);
            assert(vars_bound(out@, names@.len() as int));
        }
    }
    // The parser only emits balanced code; the check below makes that a
    // verified fact rather than a belief.
    if validate(&out, names.len()) {
        Ok(Program { code: out, n_vars: names.len() })
    } else {
        Err(CompileError::new(ErrorKind::Malformed, 0, src.len()))
    }
}

} // verus!
