use vstd::prelude::*;

use crate::error::{CompileError, ErrorKind};

verus! {

// The lexer: turns the expression source, a sequence of ASCII bytes, into
// tokens. Any byte outside the token alphabet stops the scan with a
// diagnostic pointing at it.

/// The shape of one token.
#[derive(Clone, Copy, Debug, PartialEq, Eq, Structural)]
pub enum TokKind {
    /// `[A-Za-z_][A-Za-z0-9_]*`
    Ident,
    /// Digits, with an optional fraction and an optional exponent.
    Number,
    Plus,
    Minus,
    Star,
    Slash,
    Caret,
    LParen,
    RParen,
    Comma,
}

/// One token: its shape and the byte range it covers in the source.
#[derive(Clone, Copy, Debug, PartialEq, Eq, Structural)]
pub struct Tok {
    pub kind: TokKind,
    pub start: usize,
    pub end: usize,
}

/// Whether a token's span lies inside a source of length `n`.
pub open spec fn spec_tok_in(t: Tok, n: int) -> bool {
    t.start < t.end <= n
}

/// Whether `c` is an ASCII digit.
pub open spec fn spec_is_digit(c: u8) -> bool {
    48 <= c <= 57
}

/// Whether `c` may start an identifier.
pub open spec fn spec_is_ident_start(c: u8) -> bool {
    (65 <= c <= 90) || (97 <= c <= 122) || c == 95
}

/// Whether `c` may continue an identifier.
pub open spec fn spec_is_ident_part(c: u8) -> bool {
    spec_is_ident_start(c) || spec_is_digit(c)
}

/// Whether the whole source is one single identifier.
pub open spec fn spec_is_ident_text(s: Seq<u8>) -> bool {
    &&& s.len() > 0
    &&& spec_is_ident_start(s[0])
    &&& forall|k: int| 0 <= k < s.len() ==> spec_is_ident_part(#[trigger] s[k])
}

fn is_digit(c: u8) -> (r: bool)
    ensures
        r == spec_is_digit(c),
{
    48 <= c && c <= 57
}

fn is_ident_start(c: u8) -> (r: bool)
    ensures
        r == spec_is_ident_start(c),
{
    (65 <= c && c <= 90) || (97 <= c && c <= 122) || c == 95
}

fn is_ident_part(c: u8) -> (r: bool)
    ensures
        r == spec_is_ident_part(c),
{
    is_ident_start(c) || is_digit(c)
}

/// Scans the whole source into tokens. On success every token's span is a
/// nonempty range inside the source; on failure the diagnostic points at
/// the offending byte.
pub fn lex(src: &[u8]) -> (r: Result<Vec<Tok>, CompileError>)
    ensures
        r matches Ok(toks) ==> forall|k: int|
            0 <= k < toks@.len() ==> spec_tok_in(#[trigger] toks@[k], src@.len() as int),
        r matches Err(e) ==> e.kind == ErrorKind::InvalidChar,
        spec_is_ident_text(src@) ==> (r matches Ok(toks) && toks@ == seq![
            Tok { kind: TokKind::Ident, start: 0, end: src@.len() as usize },
        ]),
{
    let n = src.len();
    let mut toks: Vec<Tok> = Vec::new();
    let mut i: usize = 0;
    while i < n
        invariant
            n == src@.len(),
            i <= n,
            forall|k: int| 0 <= k < toks@.len() ==> spec_tok_in(#[trigger] toks@[k], n as int),
            spec_is_ident_text(src@) ==> (i == 0 && toks@.len() == 0) || (i == n && toks@ == seq![
                Tok { kind: TokKind::Ident, start: 0, end: n },
            ]),
        decreases n - i,
    {
        let c = src[i];
        if c == 32 || c == 9 || c == 10 || c == 13 {
            i += 1;
        } else if is_digit(c) {
            let start = i;
            i += 1;
            while i < n && is_digit(src[i])
                invariant
                    n == src@.len(),
                    start < i <= n,
                decreases n - i,
            {
                i += 1;
            }
            if i < n && src[i] == 46 {
                i += 1;
                while i < n && is_digit(src[i])
                    invariant
                        n == src@.len(),
                        start < i <= n,
                    decreases n - i,
                {
                    i += 1;
                }
            }
            if i < n && (src[i] == 101 || src[i] == 69) {
                i += 1;
                if i < n && (src[i] == 43 || src[i] == 45) {
                    i += 1;
                }
                while i < n && is_digit(src[i])
                    invariant
                        n == src@.len(),
                        start < i <= n,
                    decreases n - i,
                {
                    i += 1;
                }
            }
            toks.push(Tok { kind: TokKind::Number, start, end: i });
        } else if is_ident_start(c) {
            let start = i;
            i += 1;
            while i < n && is_ident_part(src[i])
                invariant
                    n == src@.len(),
                    start < i <= n,
                decreases n - i,
            {
                i += 1;
            }
            proof {
                if spec_is_ident_text(src@) && start == 0 {
                    if i < n {
                        assert(spec_is_ident_part(src@[i as int]));
                    }
                    assert(i == n);
                }
            }
            toks.push(Tok { kind: TokKind::Ident, start, end: i });
            proof {
                if spec_is_ident_text(src@) {
                    assert(toks@ =~= seq![Tok { kind: TokKind::Ident, start: 0, end: n }]);
                }
            }
        } else {
            let kind = match c {
                43 => Some(TokKind::Plus),
                45 => Some(TokKind::Minus),
                42 => Some(TokKind::Star),
                47 => Some(TokKind::Slash),
                94 => Some(TokKind::Caret),
                40 => Some(TokKind::LParen),
                41 => Some(TokKind::RParen),
                44 => Some(TokKind::Comma),
                _ => None,
            };
            match kind {
                Some(k) => {
                    toks.push(Tok { kind: k, start: i, end: i + 1 });
                    i += 1;
                },
                None => {
                    return Err(CompileError::new(ErrorKind::InvalidChar, i, i + 1));
                },
            }
        }
    }
    Ok(toks)
}

} // verus!
