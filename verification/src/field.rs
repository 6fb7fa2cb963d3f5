//! The configured prime field and the textual codec for its elements.
//!
//! Field elements are kept in canonical form: the stored representative is
//! always reduced modulo [`MODULUS`]. Literals may be written in decimal or
//! in `0x`-prefixed hexadecimal; both forms bind to the same element.

use vstd::prelude::*;

verus! {

/// The modulus of the configured prime field (the Mersenne prime 2^31 - 1).
pub const MODULUS: u64 = 2147483647;

/// The ASCII byte `0`; the digit bytes the codec reads and writes.
pub const B_ZERO: u8 = 48;

/// The ASCII byte `9`.
pub const B_NINE: u8 = 57;

/// The ASCII byte `a`.
pub const B_LO_A: u8 = 97;

/// The ASCII byte `f`.
pub const B_LO_F: u8 = 102;

/// The ASCII byte `A`.
pub const B_UP_A: u8 = 65;

/// The ASCII byte `F`.
pub const B_UP_F: u8 = 70;

/// The ASCII byte `x`, as in the `0x` prefix of a hexadecimal literal.
pub const B_LO_X: u8 = 120;

/// The radix a numeral is written in.
#[derive(Clone, Copy, PartialEq, Eq, Structural, Debug)]
pub enum Base {
    Dec,
    Hex,
}

pub open spec fn radix(base: Base) -> nat {
    match base {
        Base::Dec => 10,
        Base::Hex => 16,
    }
}

pub open spec fn is_dec_digit(b: u8) -> bool {
    B_ZERO <= b && b <= B_NINE
}

pub open spec fn is_hex_digit(b: u8) -> bool {
    is_dec_digit(b) || (B_LO_A <= b && b <= B_LO_F) || (B_UP_A <= b && b <= B_UP_F)
}

pub open spec fn is_digit(base: Base, b: u8) -> bool {
    match base {
        Base::Dec => is_dec_digit(b),
        Base::Hex => is_hex_digit(b),
    }
}

pub open spec fn digit_value(b: u8) -> nat {
    if B_ZERO <= b && b <= B_NINE {
        (b - B_ZERO) as nat
    } else if B_LO_A <= b && b <= B_LO_F {
        (b - B_LO_A + 10) as nat
    } else if B_UP_A <= b && b <= B_UP_F {
        (b - B_UP_A + 10) as nat
    } else {
        0
    }
}

/// The digits of `s` between `from` and `to` form a numeral of `base`:
/// at least one digit, and every byte a digit of the base.
pub open spec fn valid_numeral(base: Base, s: Seq<u8>) -> bool {
    s.len() > 0 && forall|i: int| 0 <= i < s.len() ==> is_digit(base, #[trigger] s[i])
}

/// The value of a digit string, most significant digit first.
pub open spec fn numeral_value(base: Base, s: Seq<u8>) -> nat
    decreases s.len(),
{
    if s.len() == 0 {
        0
    } else {
        numeral_value(base, s.drop_last()) * radix(base) + digit_value(s.last())
    }
}

/// The canonical digit for a value below the radix: `0`-`9`, then `a`-`f`.
pub open spec fn digit_char(d: nat) -> u8 {
    if d < 10 {
        (d + B_ZERO) as u8
    } else {
        (d - 10 + B_LO_A) as u8
    }
}

/// The canonical digit string of `n`: no leading zero, lowercase hex digits.
pub open spec fn canonical_digits(base: Base, n: nat) -> Seq<u8>
    decreases n,
{
    if n < radix(base) {
        seq![digit_char(n)]
    } else {
        canonical_digits(base, n / radix(base)).push(digit_char(n % radix(base)))
    }
}

/// The canonical literal of `n` in `base`: bare digits in decimal,
/// `0x`-prefixed digits in hexadecimal.
pub open spec fn canonical_literal(base: Base, n: nat) -> Seq<u8> {
    match base {
        Base::Dec => canonical_digits(Base::Dec, n),
        Base::Hex => seq![B_ZERO, B_LO_X] + canonical_digits(Base::Hex, n),
    }
}

/// Splits a literal into its base and its digits: a `0x` prefix selects
/// hexadecimal, anything else must be a bare decimal numeral.
pub open spec fn spec_classify_literal(s: Seq<u8>) -> Option<(Base, Seq<u8>)> {
    if s.len() >= 2 && s[0] == B_ZERO && s[1] == B_LO_X {
        if valid_numeral(Base::Hex, s.subrange(2, s.len() as int)) {
            Some((Base::Hex, s.subrange(2, s.len() as int)))
        } else {
            None
        }
    } else if valid_numeral(Base::Dec, s) {
        Some((Base::Dec, s))
    } else {
        None
    }
}

/// The value of a literal, when it is well formed.
pub open spec fn spec_literal_value(s: Seq<u8>) -> Option<nat> {
    match spec_classify_literal(s) {
        Some((base, digits)) => Some(numeral_value(base, digits)),
        None => None,
    }
}

/// Why a literal failed to bind to the field.
#[derive(Clone, Copy, PartialEq, Eq, Structural, Debug)]
pub enum LiteralError {
    /// The text is not a decimal or hexadecimal numeral.
    Malformed,
    /// The numeral's value is not a canonical residue: it equals or
    /// exceeds the field's modulus.
    Overflow,
}

/// An element of the configured prime field, kept in canonical form.
#[derive(Clone, Copy, PartialEq, Eq, Structural, Debug)]
pub struct FieldElement {
    value: u64,
}

impl View for FieldElement {
    type V = nat;

    closed spec fn view(&self) -> nat {
        self.value as nat
    }
}

impl FieldElement {
    /// Canonical form: the representative is reduced modulo the field's prime.
    pub open spec fn wf(self) -> bool {
        self@ < MODULUS as nat
    }

    /// The canonical element for a reduced representative.
    pub fn try_new(value: u64) -> (r: Option<FieldElement>)
        ensures
            match r {
                Some(f) => value < MODULUS && f@ == value as nat && f.wf(),
                None => value >= MODULUS,
            },
    {
        if value < MODULUS {
            Some(FieldElement { value })
        } else {
            None
        }
    }

    /// The reduced representative.
    pub fn as_u64(&self) -> (r: u64)
        ensures
            r as nat == self@,
    {
        self.value
    }

    /// Two elements with the same residue are the same element: the canonical
    /// representation admits no second bit-pattern for a residue.
    pub proof fn lemma_view_injective(a: FieldElement, b: FieldElement)
        ensures
            a@ == b@ ==> a == b,
    {
    }

    /// Binds the numeral in `s[from..to]` to the field: its value when that
    /// value is a canonical residue, `None` when it equals or exceeds the
    /// modulus.
    pub fn from_numeral(base: Base, s: &[u8], from: usize, to: usize) -> (r: Option<
        FieldElement,
    >)
        requires
            from <= to <= s@.len(),
        ensures
            match r {
                Some(f) => f.wf() && f@ == numeral_value(base, s@.subrange(from as int, to as int)),
                None => numeral_value(base, s@.subrange(from as int, to as int)) >= MODULUS as nat,
            },
    {
        let ghost digits = s@.subrange(from as int, to as int);
        let mut acc: u64 = 0;
        let mut over: bool = false;
        let mut i: usize = from;
        while i < to
            invariant
                from <= i <= to <= s@.len(),
                digits =~= s@.subrange(from as int, to as int),
                over <==> numeral_value(base, digits.take(i - from)) >= MODULUS as nat,
                !over ==> acc as nat == numeral_value(base, digits.take(i - from)),
                !over ==> acc < MODULUS,
            decreases to - i,
        {
            let ghost prefix = digits.take(i - from);
            let ghost next = digits.take(i + 1 - from);
            proof {
                assert(next.drop_last() =~= prefix);
                assert(next.last() == digits[i - from]);
                assert(digits[i - from] == s@[i as int]);
                let v0 = numeral_value(base, prefix);
                let v1 = numeral_value(base, next);
                match base {
                    Base::Dec => assert(v1 == v0 * 10 + digit_value(digits[i - from])),
                    Base::Hex => assert(v1 == v0 * 16 + digit_value(digits[i - from])),
                }
            }
            let d = digit_value_exec(s[i]);
            if !over {
                let nv: u64 = match base {
                    Base::Dec => acc * 10 + d as u64,
                    Base::Hex => acc * 16 + d as u64,
                };
                if nv >= MODULUS {
                    over = true;
                } else {
                    acc = nv;
                }
            }
            i = i + 1;
        }
        proof {
            assert(digits.take(to - from) =~= digits);
        }
        if over {
            None
        } else {
            Some(FieldElement { value: acc })
        }
    }

    /// Binds a whole literal (decimal, or `0x`-prefixed hexadecimal) to the
    /// field.
    pub fn from_literal(s: &[u8]) -> (r: Result<FieldElement, LiteralError>)
        ensures
            match spec_classify_literal(s@) {
                Some(bd) => {
                    if numeral_value(bd.0, bd.1) < MODULUS as nat {
                        r matches Ok(f) && f.wf() && f@ == numeral_value(bd.0, bd.1)
                    } else {
                        r == Result::<FieldElement, LiteralError>::Err(LiteralError::Overflow)
                    }
                },
                None => r == Result::<FieldElement, LiteralError>::Err(LiteralError::Malformed),
            },
    {
        let n = s.len();
        let hex = n >= 2 && s[0] == B_ZERO && s[1] == B_LO_X;
        let base = if hex {
            Base::Hex
        } else {
            Base::Dec
        };
        let from: usize = if hex {
            2
        } else {
            0
        };
        proof {
            assert(s@.subrange(0, s@.len() as int) =~= s@);
        }
        if !check_digits(base, s, from, n) {
            return Err(LiteralError::Malformed);
        }
        match Self::from_numeral(base, s, from, n) {
            Some(f) => Ok(f),
            None => Err(LiteralError::Overflow),
        }
    }

    /// The canonical decimal form of the element.
    pub fn to_decimal(&self) -> (r: Vec<u8>)
        ensures
            r@ == canonical_literal(Base::Dec, self@),
    {
        digits_exec(Base::Dec, self.value)
    }

    /// The canonical `0x`-prefixed hexadecimal form of the element.
    pub fn to_hex(&self) -> (r: Vec<u8>)
        ensures
            r@ == canonical_literal(Base::Hex, self@),
    {
        let mut r: Vec<u8> = Vec::new();
        r.push(B_ZERO);
        r.push(B_LO_X);
        let mut ds = digits_exec(Base::Hex, self.value);
        let mut i: usize = 0;
        let ghost pre = r@;
        while i < ds.len()
            invariant
                i <= ds@.len(),
                ds@ == canonical_digits(Base::Hex, self@),
                r@ =~= pre + ds@.take(i as int),
                pre =~= seq![B_ZERO, B_LO_X],
            decreases ds@.len() - i,
        {
            r.push(ds[i]);
            proof {
                assert(pre + ds@.take(i + 1) =~= (pre + ds@.take(i as int)).push(ds@[i as int]));
            }
            i = i + 1;
        }
        proof {
            assert(ds@.take(ds@.len() as int) =~= ds@);
            assert(r@ =~= canonical_literal(Base::Hex, self@));
        }
        r
    }
}

/// The value of one digit byte; bytes that are no digit count zero, as in
/// the specification.
fn digit_value_exec(b: u8) -> (r: u8)
    ensures
        r as nat == digit_value(b),
        r < 16,
{
    if B_ZERO <= b && b <= B_NINE {
        b - B_ZERO
    } else if B_LO_A <= b && b <= B_LO_F {
        b - B_LO_A + 10
    } else if B_UP_A <= b && b <= B_UP_F {
        b - B_UP_A + 10
    } else {
        0
    }
}

/// Decides whether `s[from..to]` is a numeral of `base`.
pub fn check_digits(base: Base, s: &[u8], from: usize, to: usize) -> (r: bool)
    requires
        from <= to <= s@.len(),
    ensures
        r == valid_numeral(base, s@.subrange(from as int, to as int)),
{
    let ghost digits = s@.subrange(from as int, to as int);
    if to == from {
        return false;
    }
    let mut i: usize = from;
    while i < to
        invariant
            from <= i <= to <= s@.len(),
            digits =~= s@.subrange(from as int, to as int),
            forall|j: int| 0 <= j < i - from ==> is_digit(base, #[trigger] digits[j]),
        decreases to - i,
    {
        let b = s[i];
        let ok = match base {
            Base::Dec => B_ZERO <= b && b <= B_NINE,
            Base::Hex => (B_ZERO <= b && b <= B_NINE) || (B_LO_A <= b && b <= B_LO_F) || (B_UP_A
                <= b && b <= B_UP_F),
        };
        if !ok {
            proof {
                assert(digits[i - from] == s@[i as int]);
            }
            return false;
        }
        proof {
            assert(digits[i - from] == s@[i as int]);
        }
        i = i + 1;
    }
    true
}

/// The canonical digit string of `n`, executable form.
fn digits_exec(base: Base, n: u64) -> (r: Vec<u8>)
    ensures
        r@ == canonical_digits(base, n as nat),
{
    let rad: u64 = match base {
        Base::Dec => 10,
        Base::Hex => 16,
    };
    proof {
        assert(rad as nat == radix(base));
    }
    let mut low: Vec<u8> = Vec::new();
    let mut cur: u64 = n;
    // Collect digits least significant first; `low` reversed extends the
    // canonical digits of what remains in `cur`.
    while cur > 0
        invariant
            rad as nat == radix(base),
            cur > 0 ==> canonical_digits(base, n as nat) =~= canonical_digits(base, cur as nat)
                + low@.reverse(),
            cur == 0 && n > 0 ==> canonical_digits(base, n as nat) =~= low@.reverse(),
        decreases cur,
    {
        let d = cur % rad;
        let next = cur / rad;
        let c = digit_char_exec(d);
        proof {
            assert((low@.push(c)).reverse() =~= seq![c] + low@.reverse());
        }
        if next == 0 {
            proof {
                assert((cur as nat) < radix(base));
                assert(canonical_digits(base, cur as nat) =~= seq![digit_char(cur as nat)]);
                assert(d == cur);
            }
        } else {
            proof {
                assert((cur as nat) >= radix(base));
                assert(canonical_digits(base, cur as nat) =~= canonical_digits(
                    base,
                    next as nat,
                ).push(digit_char((cur as nat) % radix(base))));
                assert(canonical_digits(base, next as nat).push(
                    digit_char((cur as nat) % radix(base)),
                ) + low@.reverse() =~= canonical_digits(base, next as nat) + (seq![c]
                    + low@.reverse()));
            }
        }
        low.push(c);
        cur = next;
    }
    if n == 0 {
        proof {
            assert(canonical_digits(base, 0 as nat) =~= seq![digit_char(0)]);
        }
        let mut r: Vec<u8> = Vec::new();
        r.push(B_ZERO);
        proof {
            assert(r@ =~= canonical_digits(base, 0 as nat));
        }
        return r;
    }
    // Reverse into most-significant-first order.
    let mut r: Vec<u8> = Vec::new();
    let mut i: usize = low.len();
    while i > 0
        invariant
            i <= low@.len(),
            r@ =~= low@.subrange(i as int, low@.len() as int).reverse(),
        decreases i,
    {
        i = i - 1;
        r.push(low[i]);
        proof {
            assert(low@.subrange(i as int, low@.len() as int).reverse() =~= low@.subrange(
                i + 1,
                low@.len() as int,
            ).reverse().push(low@[i as int]));
        }
    }
    proof {
        assert(low@.subrange(0, low@.len() as int) =~= low@);
        assert(r@ =~= canonical_digits(base, n as nat));
    }
    r
}

proof fn lemma_digit_char(d: nat)
    requires
        d < 16,
    ensures
        is_hex_digit(digit_char(d)),
        digit_value(digit_char(d)) == d,
        d < 10 ==> is_dec_digit(digit_char(d)),
{
}

/// The canonical digit string of `n` is a numeral of its base whose value
/// is `n` again.
pub proof fn lemma_numeral_of_canonical(base: Base, n: nat)
    ensures
        valid_numeral(base, canonical_digits(base, n)),
        numeral_value(base, canonical_digits(base, n)) == n,
    decreases n,
{
    if n < radix(base) {
        let s = canonical_digits(base, n);
        assert(s =~= seq![digit_char(n)]);
        assert(s.drop_last() =~= Seq::<u8>::empty());
        lemma_digit_char(n);
        assert(numeral_value(base, Seq::<u8>::empty()) == 0);
        assert(s.last() == digit_char(n));
        assert(numeral_value(base, s) == numeral_value(base, s.drop_last()) * radix(base)
            + digit_value(s.last()));
    } else {
        assert(n / radix(base) < n);
        lemma_numeral_of_canonical(base, n / radix(base));
        let s0 = canonical_digits(base, n / radix(base));
        let s = s0.push(digit_char(n % radix(base)));
        assert(canonical_digits(base, n) =~= s);
        assert(s.drop_last() =~= s0);
        lemma_digit_char(n % radix(base));
        assert(s.last() == digit_char(n % radix(base)));
        assert(numeral_value(base, s) == numeral_value(base, s0) * radix(base) + digit_value(
            digit_char(n % radix(base)),
        ));
        assert(numeral_value(base, s) == (n / radix(base)) * radix(base) + n % radix(base));
        vstd::arithmetic::div_mod::lemma_fundamental_div_mod(n as int, radix(base) as int);
        assert(numeral_value(base, s) == n);
        assert(forall|i: int| 0 <= i < s.len() ==> is_digit(base, #[trigger] s[i]));
    }
}

/// Law: the canonical decimal form of a field element decodes back to the
/// element's own residue, so decoding it yields an element equal to the
/// original.
pub proof fn lemma_decimal_roundtrip(v: FieldElement)
    requires
        v.wf(),
    ensures
        spec_literal_value(canonical_literal(Base::Dec, v@)) == Some(v@),
{
    lemma_numeral_of_canonical(Base::Dec, v@);
    let s = canonical_literal(Base::Dec, v@);
    assert(valid_numeral(Base::Dec, s));
    if s.len() >= 2 && s[0] == B_ZERO && s[1] == B_LO_X {
        assert(is_dec_digit(s[1]));
        assert(false);
    }
}

/// Law: the canonical hexadecimal form of a field element decodes back to
/// the element's own residue.
pub proof fn lemma_hex_roundtrip(v: FieldElement)
    requires
        v.wf(),
    ensures
        spec_literal_value(canonical_literal(Base::Hex, v@)) == Some(v@),
{
    lemma_numeral_of_canonical(Base::Hex, v@);
    let ds = canonical_digits(Base::Hex, v@);
    let s = canonical_literal(Base::Hex, v@);
    assert(s =~= seq![B_ZERO, B_LO_X] + ds);
    assert(s[0] == B_ZERO && s[1] == B_LO_X);
    assert(s.subrange(2, s.len() as int) =~= ds);
}

/// The canonical digit byte for a value below sixteen.
fn digit_char_exec(d: u64) -> (r: u8)
    requires
        d < 16,
    ensures
        r == digit_char(d as nat),
{
    if d < 10 {
        (d as u8) + B_ZERO
    } else {
        (d as u8) - 10 + B_LO_A
    }
}

} // verus!
