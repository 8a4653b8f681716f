use vstd::prelude::*;

verus! {

// Floating-point values cannot be reasoned about directly by the verifier,
// so the library carries every scalar as the shortest decimal text that
// denotes it (the host's canonical float formatting, e.g. `10`, `-0.5`,
// `NaN`, `inf`). The text uniquely determines the IEEE-754 double and vice
// versa, so contracts can speak of values as byte sequences, and the
// handful of primitive operations below are the only trusted code.
//
// Each operation's result is given a name (an uninterpreted spec function
// over plain byte sequences); the trusted wrappers state that they return
// exactly the named result, and all verified code builds its contracts out
// of those names.
//
// Verus gives floating point no semantics, so no float type can be named
// anywhere in this crate. The wrapper bodies therefore obtain a typed zero
// from `Duration::as_secs_f64` and let inference type the parsed values.

/// The value, if any, that a piece of text denotes: `Some` of the canonical
/// text of the double nearest the written number when the text is a valid
/// float literal, `None` otherwise.
pub uninterp spec fn float_of_text(s: Seq<u8>) -> Option<Seq<u8>>;

/// The canonical text of the double nearest the 64-bit integer `v`.
pub uninterp spec fn int_text(v: i64) -> Seq<u8>;

/// The canonical text of the double nearest the unsigned 64-bit integer `v`.
pub uninterp spec fn uint_text(v: u64) -> Seq<u8>;

/// The canonical text of the IEEE-754 sum of the values `a` and `b` denote.
pub uninterp spec fn add_text(a: Seq<u8>, b: Seq<u8>) -> Seq<u8>;

/// The canonical text of the IEEE-754 difference of `a` and `b`.
pub uninterp spec fn sub_text(a: Seq<u8>, b: Seq<u8>) -> Seq<u8>;

/// The canonical text of the IEEE-754 product of `a` and `b`.
pub uninterp spec fn mul_text(a: Seq<u8>, b: Seq<u8>) -> Seq<u8>;

/// The canonical text of the IEEE-754 quotient of `a` and `b`.
pub uninterp spec fn div_text(a: Seq<u8>, b: Seq<u8>) -> Seq<u8>;

/// The canonical text of `a` raised to the power `b`, as `libm::pow`
/// computes it (a deterministic software implementation; the platform's
/// own `powf` leaves its precision unspecified, so it names no function).
pub uninterp spec fn pow_text(a: Seq<u8>, b: Seq<u8>) -> Seq<u8>;

/// The canonical text of the negation of `a`.
pub uninterp spec fn neg_text(a: Seq<u8>) -> Seq<u8>;

/// The canonical text of the sine of `a` (radians), as `libm::sin`
/// computes it (deterministic software; the platform's `sin` leaves its
/// precision unspecified, so it names no function).
pub uninterp spec fn sin_text(a: Seq<u8>) -> Seq<u8>;

/// The canonical text of the cosine of `a` (radians), as `libm::cos`
/// computes it (deterministic software, like `sin_text`).
pub uninterp spec fn cos_text(a: Seq<u8>) -> Seq<u8>;

/// The canonical text of the square root of `a`.
pub uninterp spec fn sqrt_text(a: Seq<u8>) -> Seq<u8>;

/// The canonical text of the absolute value of `a`.
pub uninterp spec fn abs_text(a: Seq<u8>) -> Seq<u8>;

/// The canonical text of the lesser of `a` and `b`, as `libm::fmin`
/// computes it: the other argument when one is NaN, and `y` on ties, so
/// it is a function of its arguments (the platform's `f64::min` leaves
/// the zero-sign tie unspecified).
pub uninterp spec fn min_text(a: Seq<u8>, b: Seq<u8>) -> Seq<u8>;

/// The canonical text of the greater of `a` and `b`, as `libm::fmax`
/// computes it, a function of its arguments like `min_text`.
pub uninterp spec fn max_text(a: Seq<u8>, b: Seq<u8>) -> Seq<u8>;

/// The canonical text of the quiet not-a-number value.
pub open spec fn nan_text() -> Seq<u8> {
    seq![78u8, 97u8, 78u8]
}

/// The canonical text of positive infinity.
pub open spec fn inf_text() -> Seq<u8> {
    seq![105u8, 110u8, 102u8]
}

/// The canonical text of negative infinity.
pub open spec fn neg_inf_text() -> Seq<u8> {
    seq![45u8, 105u8, 110u8, 102u8]
}

/// Whether canonical text `t` denotes zero (positive or negative).
pub open spec fn spec_is_zero(t: Seq<u8>) -> bool {
    t == seq![48u8] || t == seq![45u8, 48u8]
}

/// Whether canonical text `t` denotes a strictly negative value (negative
/// zero does not count; negative infinity does).
pub open spec fn spec_is_negative(t: Seq<u8>) -> bool {
    t.len() > 0 && t[0] == 45u8 && t != seq![45u8, 48u8]
}

/// One floating-point scalar, held as its canonical decimal text. The field
/// is private: every `Num` in the program was produced by one of the trusted
/// constructors below, so its text is always canonical.
#[derive(Debug)]
pub struct Num {
    text: Vec<u8>,
}

impl View for Num {
    type V = Seq<u8>;

    closed spec fn view(&self) -> Seq<u8> {
        self.text@
    }
}

impl Clone for Num {
    fn clone(&self) -> (r: Self)
        ensures
            r@ == self@,
    {
        Num { text: self.text.clone() }
    }
}

impl Num {
    /// The carried text, exposed so that callers outside the verifier
    /// (tests, the host application) can read the value back.
    pub fn as_bytes(&self) -> (r: &Vec<u8>)
        ensures
            r@ == self@,
    {
        &self.text
    }

    /// The quiet not-a-number value, used for lookups against empty streams.
    pub fn nan() -> (r: Num)
        ensures
            r@ == nan_text(),
    {
        let text: Vec<u8> = vec![78u8, 97u8, 78u8];
        Num { text }
    }

    /// Whether this value is zero (of either sign). On canonical text this
    /// is a plain byte comparison, so no trust is needed.
    pub fn is_zero(&self) -> (r: bool)
        ensures
            r == spec_is_zero(self@),
    {
        let b = &self.text;
        let r = (b.len() == 1 && b[0] == 48u8) || (b.len() == 2 && b[0] == 45u8 && b[1] == 48u8);
        proof {
            if b@ =~= seq![48u8] || b@ =~= seq![45u8, 48u8] {
            }
            assert(r == spec_is_zero(self@));
        }
        r
    }

    /// Whether this value is strictly negative (negative zero excluded).
    pub fn is_negative(&self) -> (r: bool)
        ensures
            r == spec_is_negative(self@),
    {
        let b = &self.text;
        let r = b.len() > 0 && b[0] == 45u8 && !(b.len() == 2 && b[1] == 48u8);
        proof {
            if b@ =~= seq![45u8, 48u8] {
            }
            assert(r == spec_is_negative(self@));
        }
        r
    }

    /// Whether this value is the not-a-number value.
    pub fn is_nan(&self) -> (r: bool)
        ensures
            r == (self@ == nan_text()),
    {
        let b = &self.text;
        let r = b.len() == 3 && b[0] == 78u8 && b[1] == 97u8 && b[2] == 78u8;
        proof {
            if b@ =~= nan_text() {
            }
            assert(r == (self@ == nan_text()));
        }
        r
    }

    /// Whether this value is positive or negative infinity.
    pub fn is_infinite(&self) -> (r: bool)
        ensures
            r == (self@ == inf_text() || self@ == neg_inf_text()),
    {
        let b = &self.text;
        let pos = b.len() == 3 && b[0] == 105u8 && b[1] == 110u8 && b[2] == 102u8;
        let neg = b.len() == 4 && b[0] == 45u8 && b[1] == 105u8 && b[2] == 110u8 && b[3] == 102u8;
        proof {
            if b@ =~= inf_text() || b@ =~= neg_inf_text() {
            }
            assert(pos == (self@ == inf_text()));
            assert(neg == (self@ == neg_inf_text()));
        }
        pos || neg
    }

    /// Relies on `str::parse::<f64>` and float `Display` formatting: parsing
    /// accepts exactly Rust's float grammar and yields the nearest double;
    /// formatting prints the shortest decimal text that reads back equal.
    #[verifier::external_body]
    pub fn from_text(s: &[u8]) -> (r: Option<Num>)
        ensures
            (r is Some) ==> float_of_text(s@) == Some(r.unwrap()@),
            (r is None) ==> float_of_text(s@) is None,
    {
        let zero = std::time::Duration::ZERO.as_secs_f64();
        let t = match core::str::from_utf8(s) {
            Ok(t) => t,
            Err(_) => return None,
        };
        let p = t.parse();
        let ok = p.is_ok();
        let v = p.unwrap_or(zero);
        if ok {
            Some(Num { text: format!("{}", v).into_bytes() })
        } else {
            None
        }
    }

    /// Relies on `i64` `Display` and `str::parse::<f64>`: the conversion of
    /// a 64-bit integer to the nearest double. The text is negative exactly
    /// for negative integers and zero exactly for zero (a nonzero integer's
    /// nearest double has magnitude at least one).
    #[verifier::external_body]
    pub fn of_int(v: i64) -> (r: Num)
        ensures
            r@ == int_text(v),
            spec_is_negative(r@) <==> v < 0,
            spec_is_zero(r@) <==> v == 0,
            r@ != nan_text(),
    {
        let zero = std::time::Duration::ZERO.as_secs_f64();
        let x = format!("{}", v).parse().unwrap_or(zero);
        Num { text: format!("{}", x).into_bytes() }
    }

    /// Relies on `u64` `Display` and `str::parse::<f64>`: the conversion of
    /// an unsigned 64-bit integer to the nearest double. The text is never
    /// negative and is zero exactly for zero.
    #[verifier::external_body]
    pub fn of_uint(v: u64) -> (r: Num)
        ensures
            r@ == uint_text(v),
            !spec_is_negative(r@),
            spec_is_zero(r@) <==> v == 0,
            r@ != nan_text(),
    {
        let zero = std::time::Duration::ZERO.as_secs_f64();
        let x = format!("{}", v).parse().unwrap_or(zero);
        Num { text: format!("{}", x).into_bytes() }
    }

    /// Relies on IEEE-754 double addition.
    #[verifier::external_body]
    pub fn add(&self, other: &Num) -> (r: Num)
        ensures
            r@ == add_text(self@, other@),
    {
        let zero = std::time::Duration::ZERO.as_secs_f64();
        let x = core::str::from_utf8(&self.text).unwrap_or("").parse().unwrap_or(zero);
        let y = core::str::from_utf8(&other.text).unwrap_or("").parse().unwrap_or(zero);
        Num { text: format!("{}", x + y).into_bytes() }
    }

    /// Relies on IEEE-754 double subtraction.
    #[verifier::external_body]
    pub fn sub(&self, other: &Num) -> (r: Num)
        ensures
            r@ == sub_text(self@, other@),
    {
        let zero = std::time::Duration::ZERO.as_secs_f64();
        let x = core::str::from_utf8(&self.text).unwrap_or("").parse().unwrap_or(zero);
        let y = core::str::from_utf8(&other.text).unwrap_or("").parse().unwrap_or(zero);
        Num { text: format!("{}", x - y).into_bytes() }
    }

    /// Relies on IEEE-754 double multiplication.
    #[verifier::external_body]
    pub fn mul(&self, other: &Num) -> (r: Num)
        ensures
            r@ == mul_text(self@, other@),
    {
        let zero = std::time::Duration::ZERO.as_secs_f64();
        let x = core::str::from_utf8(&self.text).unwrap_or("").parse().unwrap_or(zero);
        let y = core::str::from_utf8(&other.text).unwrap_or("").parse().unwrap_or(zero);
        Num { text: format!("{}", x * y).into_bytes() }
    }

    /// Relies on IEEE-754 double division.
    #[verifier::external_body]
    pub fn div(&self, other: &Num) -> (r: Num)
        ensures
            r@ == div_text(self@, other@),
    {
        let zero = std::time::Duration::ZERO.as_secs_f64();
        let x = core::str::from_utf8(&self.text).unwrap_or("").parse().unwrap_or(zero);
        let y = core::str::from_utf8(&other.text).unwrap_or("").parse().unwrap_or(zero);
        Num { text: format!("{}", x / y).into_bytes() }
    }

    /// Relies on `libm::pow`: a pure-software power, a deterministic
    /// function of its arguments.
    #[verifier::external_body]
    pub fn pow(&self, other: &Num) -> (r: Num)
        ensures
            r@ == pow_text(self@, other@),
    {
        let zero = std::time::Duration::ZERO.as_secs_f64();
        let x = core::str::from_utf8(&self.text).unwrap_or("").parse().unwrap_or(zero);
        let y = core::str::from_utf8(&other.text).unwrap_or("").parse().unwrap_or(zero);
        Num { text: format!("{}", libm::pow(x, y)).into_bytes() }
    }

    /// Relies on IEEE-754 double negation.
    #[verifier::external_body]
    pub fn neg(&self) -> (r: Num)
        ensures
            r@ == neg_text(self@),
    {
        let zero = std::time::Duration::ZERO.as_secs_f64();
        let x = core::str::from_utf8(&self.text).unwrap_or("").parse().unwrap_or(zero);
        Num { text: format!("{}", -x).into_bytes() }
    }

    /// Relies on `libm::sin`: a pure-software sine, a deterministic
    /// function of its argument.
    #[verifier::external_body]
    pub fn sin(&self) -> (r: Num)
        ensures
            r@ == sin_text(self@),
    {
        let zero = std::time::Duration::ZERO.as_secs_f64();
        let x = core::str::from_utf8(&self.text).unwrap_or("").parse().unwrap_or(zero);
        Num { text: format!("{}", libm::sin(x)).into_bytes() }
    }

    /// Relies on `libm::cos`: a pure-software cosine, a deterministic
    /// function of its argument.
    #[verifier::external_body]
    pub fn cos(&self) -> (r: Num)
        ensures
            r@ == cos_text(self@),
    {
        let zero = std::time::Duration::ZERO.as_secs_f64();
        let x = core::str::from_utf8(&self.text).unwrap_or("").parse().unwrap_or(zero);
        Num { text: format!("{}", libm::cos(x)).into_bytes() }
    }

    /// Relies on `f64::sqrt`.
    #[verifier::external_body]
    pub fn sqrt(&self) -> (r: Num)
        ensures
            r@ == sqrt_text(self@),
    {
        let zero = std::time::Duration::ZERO.as_secs_f64();
        let x = core::str::from_utf8(&self.text).unwrap_or("").parse().unwrap_or(zero);
        Num { text: format!("{}", x.sqrt()).into_bytes() }
    }

    /// Relies on `f64::abs`.
    #[verifier::external_body]
    pub fn abs(&self) -> (r: Num)
        ensures
            r@ == abs_text(self@),
    {
        let zero = std::time::Duration::ZERO.as_secs_f64();
        let x = core::str::from_utf8(&self.text).unwrap_or("").parse().unwrap_or(zero);
        Num { text: format!("{}", x.abs()).into_bytes() }
    }

    /// Relies on `libm::fmin`: `x` when `y` is NaN or `x < y`, else `y`
    /// — deterministic, also on the signed-zero tie.
    #[verifier::external_body]
    pub fn min(&self, other: &Num) -> (r: Num)
        ensures
            r@ == min_text(self@, other@),
    {
        let zero = std::time::Duration::ZERO.as_secs_f64();
        let x = core::str::from_utf8(&self.text).unwrap_or("").parse().unwrap_or(zero);
        let y = core::str::from_utf8(&other.text).unwrap_or("").parse().unwrap_or(zero);
        Num { text: format!("{}", libm::fmin(x, y)).into_bytes() }
    }

    /// Relies on `libm::fmax`: `y` when `x` is NaN or `x < y`, else `x`
    /// — deterministic, also on the signed-zero tie.
    #[verifier::external_body]
    pub fn max(&self, other: &Num) -> (r: Num)
        ensures
            r@ == max_text(self@, other@),
    {
        let zero = std::time::Duration::ZERO.as_secs_f64();
        let x = core::str::from_utf8(&self.text).unwrap_or("").parse().unwrap_or(zero);
        let y = core::str::from_utf8(&other.text).unwrap_or("").parse().unwrap_or(zero);
        Num { text: format!("{}", libm::fmax(x, y)).into_bytes() }
    }
}

} // verus!
