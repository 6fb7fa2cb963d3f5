//! The decode stage: from raw bytes to a validated `ProgramArtifact`.
//!
//! The document grammar is a small JSON subset with a fixed key order:
//!
//! ```text
//! artifact := '{' "version" ':' string [',' "field" ':' string]
//!                 ',' "circuits" ':' '[' circuit,* ']' '}'
//! circuit  := '{' "ops" ':' '[' op,* ']' '}'
//! op       := '{' gate ':' '[' operand ',' operand ']' ',' "out" ':' witness '}'
//! ```
//!
//! where `gate` is `"add"` or `"mul"`, every scalar is a double-quoted string
//! without escapes, an `operand` string is a witness reference `w<index>` or
//! a field literal (decimal, or `0x`-prefixed hexadecimal), the `version`
//! string must be `1`, and the optional `field` string is the declared
//! field's modulus as a decimal numeral. Whitespace may stand between any
//! two tokens. The executable parser is proved to return exactly what the
//! specification-level parser `spec_decode` returns.

use vstd::prelude::*;

use crate::field::Base;
use crate::field::digit_value;
use crate::field::is_digit;
use crate::field::numeral_value;
use crate::field::spec_classify_literal;
use crate::field::valid_numeral;
use crate::field::B_ZERO;
use crate::field::B_LO_X;
use crate::model::ArtifactCircuit;
use crate::model::ArtifactCircuitV;
use crate::model::ArtifactOp;
use crate::model::ArtifactOpV;
use crate::model::ArtifactOperand;
use crate::model::ArtifactOperandV;
use crate::model::DecodeError;
use crate::model::DecodeErrorKind;
use crate::model::OpKind;
use crate::model::ProgramArtifact;
use crate::model::ProgramArtifactV;
use crate::model::SchemaField;
use crate::model::view_circuits;
use crate::model::view_ops;
use crate::model::view_opt_bytes;
use crate::field::check_digits;

verus! {

pub const B_QUOTE: u8 = 34;

pub const B_COMMA: u8 = 44;

pub const B_COLON: u8 = 58;

pub const B_LBRACE: u8 = 123;

pub const B_RBRACE: u8 = 125;

pub const B_LBRACKET: u8 = 91;

pub const B_RBRACKET: u8 = 93;

pub const B_SPACE: u8 = 32;

pub const B_TAB: u8 = 9;

pub const B_LF: u8 = 10;

pub const B_CR: u8 = 13;

pub const B_BACKSLASH: u8 = 92;

pub const B_LO_W: u8 = 119;

pub const B_ONE: u8 = 49;

/// The largest witness index the model can reference.
pub const MAX_WITNESS: u64 = 4294967295;

/// The keywords of the schema.
#[derive(Clone, Copy, PartialEq, Eq, Structural, Debug)]
pub enum Kw {
    Version,
    Field,
    Circuits,
    Ops,
    Add,
    Mul,
    Out,
}

/// The bytes of a keyword.
pub open spec fn kw_bytes(kw: Kw) -> Seq<u8> {
    match kw {
        Kw::Version => seq![118u8, 101u8, 114u8, 115u8, 105u8, 111u8, 110u8],
        Kw::Field => seq![102u8, 105u8, 101u8, 108u8, 100u8],
        Kw::Circuits => seq![99u8, 105u8, 114u8, 99u8, 117u8, 105u8, 116u8, 115u8],
        Kw::Ops => seq![111u8, 112u8, 115u8],
        Kw::Add => seq![97u8, 100u8, 100u8],
        Kw::Mul => seq![109u8, 117u8, 108u8],
        Kw::Out => seq![111u8, 117u8, 116u8],
    }
}

pub open spec fn is_ws(b: u8) -> bool {
    b == B_SPACE || b == B_TAB || b == B_LF || b == B_CR
}

/// A byte a string token may contain: printable ASCII, no quote, no escape.
pub open spec fn is_str_byte(b: u8) -> bool {
    32 <= b && b <= 126 && b != B_QUOTE && b != B_BACKSLASH
}

pub open spec fn syntax_err(i: int) -> DecodeError {
    DecodeError { pos: i as usize, kind: DecodeErrorKind::Syntax }
}

pub open spec fn decode_err(i: int, kind: DecodeErrorKind) -> DecodeError {
    DecodeError { pos: i as usize, kind }
}

/// The first position at or after `i` that holds no whitespace.
pub open spec fn spec_skip_ws(s: Seq<u8>, i: int) -> int
    decreases s.len() - i,
{
    if 0 <= i < s.len() && is_ws(s[i]) {
        spec_skip_ws(s, i + 1)
    } else {
        i
    }
}

/// The position of the closing quote of string content starting at `i`.
pub open spec fn spec_scan_content(s: Seq<u8>, i: int) -> Option<int>
    decreases s.len() - i,
{
    if 0 <= i < s.len() {
        if s[i] == B_QUOTE {
            Some(i)
        } else if is_str_byte(s[i]) {
            spec_scan_content(s, i + 1)
        } else {
            None
        }
    } else {
        None
    }
}

/// A string token at `i`: content bounds and the position after the
/// closing quote.
pub open spec fn spec_scan_string(s: Seq<u8>, i: int) -> Option<(int, int, int)> {
    if 0 <= i < s.len() && s[i] == B_QUOTE {
        match spec_scan_content(s, i + 1) {
            Some(j) => Some((i + 1, j, j + 1)),
            None => None,
        }
    } else {
        None
    }
}

/// After a key's closing quote: whitespace, a colon, whitespace.
pub open spec fn spec_after_key(s: Seq<u8>, after: int) -> Result<int, DecodeError> {
    let j = spec_skip_ws(s, after);
    if 0 <= j < s.len() && s[j] == B_COLON {
        Ok(spec_skip_ws(s, j + 1))
    } else {
        Err(syntax_err(j))
    }
}

/// An operand string token at `i`: a witness reference or a field literal.
pub open spec fn spec_parse_operand(s: Seq<u8>, i: int) -> Result<
    (ArtifactOperandV, int),
    DecodeError,
> {
    match spec_scan_string(s, i) {
        None => Err(syntax_err(i)),
        Some((cs, ce, after)) => {
            let content = s.subrange(cs, ce);
            if content.len() > 0 && content[0] == B_LO_W {
                let digits = content.subrange(1, content.len() as int);
                if valid_numeral(Base::Dec, digits) {
                    if numeral_value(Base::Dec, digits) <= MAX_WITNESS as nat {
                        Ok(
                            (
                                ArtifactOperandV::Witness {
                                    index: numeral_value(Base::Dec, digits) as u32,
                                },
                                after,
                            ),
                        )
                    } else {
                        Err(decode_err(cs, DecodeErrorKind::WitnessIndexTooLarge))
                    }
                } else {
                    Err(decode_err(cs, DecodeErrorKind::BadOperand))
                }
            } else {
                match spec_classify_literal(content) {
                    Some(bd) => Ok(
                        (ArtifactOperandV::Constant { base: bd.0, digits: bd.1 }, after),
                    ),
                    None => Err(decode_err(cs, DecodeErrorKind::BadOperand)),
                }
            }
        },
    }
}

/// The `out` value: a string token that must be a witness reference.
pub open spec fn spec_parse_out(s: Seq<u8>, i: int) -> Result<(u32, int), DecodeError> {
    match spec_parse_operand(s, i) {
        Err(e) => Err(e),
        Ok((ArtifactOperandV::Witness { index }, after)) => Ok((index, after)),
        Ok((ArtifactOperandV::Constant { .. }, after)) => Err(
            decode_err(i, DecodeErrorKind::MissingField { field: SchemaField::Out }),
        ),
    }
}

/// One operation object at `i`.
pub open spec fn spec_parse_op(s: Seq<u8>, i: int) -> Result<(ArtifactOpV, int), DecodeError> {
    if !(0 <= i < s.len() && s[i] == B_LBRACE) {
        Err(syntax_err(i))
    } else {
        let k = spec_skip_ws(s, i + 1);
        match spec_scan_string(s, k) {
            None => Err(decode_err(k, DecodeErrorKind::UnknownGate)),
            Some((cs, ce, after)) => {
                let key = s.subrange(cs, ce);
                if key != kw_bytes(Kw::Add) && key != kw_bytes(Kw::Mul) {
                    Err(decode_err(k, DecodeErrorKind::UnknownGate))
                } else {
                    let kind = if key == kw_bytes(Kw::Add) {
                        OpKind::Add
                    } else {
                        OpKind::Mul
                    };
                    match spec_after_key(s, after) {
                        Err(e) => Err(e),
                        Ok(p) => {
                            if !(0 <= p < s.len() && s[p] == B_LBRACKET) {
                                Err(syntax_err(p))
                            } else {
                                let p1 = spec_skip_ws(s, p + 1);
                                match spec_parse_operand(s, p1) {
                                    Err(e) => Err(e),
                                    Ok((lhs, p2)) => {
                                        let p3 = spec_skip_ws(s, p2);
                                        if !(0 <= p3 < s.len() && s[p3] == B_COMMA) {
                                            Err(syntax_err(p3))
                                        } else {
                                            let p4 = spec_skip_ws(s, p3 + 1);
                                            match spec_parse_operand(s, p4) {
                                                Err(e) => Err(e),
                                                Ok((rhs, p5)) => spec_parse_op_tail(
                                                    s,
                                                    kind,
                                                    lhs,
                                                    rhs,
                                                    p5,
                                                ),
                                            }
                                        }
                                    },
                                }
                            }
                        },
                    }
                }
            },
        }
    }
}

/// The rest of an operation object after its operand pair: `] , "out" :
/// witness }`.
pub open spec fn spec_parse_op_tail(
    s: Seq<u8>,
    kind: OpKind,
    lhs: ArtifactOperandV,
    rhs: ArtifactOperandV,
    p5: int,
) -> Result<(ArtifactOpV, int), DecodeError> {
    let p6 = spec_skip_ws(s, p5);
    if !(0 <= p6 < s.len() && s[p6] == B_RBRACKET) {
        Err(syntax_err(p6))
    } else {
        let p7 = spec_skip_ws(s, p6 + 1);
        if !(0 <= p7 < s.len() && s[p7] == B_COMMA) {
            Err(decode_err(p7, DecodeErrorKind::MissingField { field: SchemaField::Out }))
        } else {
            let p8 = spec_skip_ws(s, p7 + 1);
            match spec_scan_string(s, p8) {
                None => Err(
                    decode_err(p8, DecodeErrorKind::MissingField { field: SchemaField::Out }),
                ),
                Some((cs, ce, after)) => {
                    if s.subrange(cs, ce) != kw_bytes(Kw::Out) {
                        Err(
                            decode_err(
                                p8,
                                DecodeErrorKind::MissingField { field: SchemaField::Out },
                            ),
                        )
                    } else {
                        match spec_after_key(s, after) {
                            Err(e) => Err(e),
                            Ok(p9) => match spec_parse_out(s, p9) {
                                Err(e) => Err(e),
                                Ok((out, p10)) => {
                                    let p11 = spec_skip_ws(s, p10);
                                    if !(0 <= p11 < s.len() && s[p11] == B_RBRACE) {
                                        Err(syntax_err(p11))
                                    } else {
                                        Ok((ArtifactOpV { kind, lhs, rhs, out }, p11 + 1))
                                    }
                                },
                            },
                        }
                    }
                },
            }
        }
    }
}

/// A non-empty, comma-separated list of operation objects starting at `i`.
pub open spec fn spec_parse_ops_list(s: Seq<u8>, i: int) -> Result<
    (Seq<ArtifactOpV>, int),
    DecodeError,
>
    decreases s.len() - i,
{
    match spec_parse_op(s, i) {
        Err(e) => Err(e),
        Ok((op, j)) => {
            let j1 = spec_skip_ws(s, j);
            if 0 <= j1 < s.len() && s[j1] == B_COMMA {
                let j2 = spec_skip_ws(s, j1 + 1);
                // The parser always advances; the bound keeps the recursion
                // well founded.
                if i < j2 <= s.len() {
                    match spec_parse_ops_list(s, j2) {
                        Err(e) => Err(e),
                        Ok((rest, e)) => Ok((seq![op] + rest, e)),
                    }
                } else {
                    Err(syntax_err(j1))
                }
            } else {
                Ok((seq![op], j1))
            }
        },
    }
}

/// One circuit object at `i`: `{ "ops" : [ op,* ] }`.
pub open spec fn spec_parse_circuit(s: Seq<u8>, i: int) -> Result<
    (ArtifactCircuitV, int),
    DecodeError,
> {
    if !(0 <= i < s.len() && s[i] == B_LBRACE) {
        Err(syntax_err(i))
    } else {
        let k = spec_skip_ws(s, i + 1);
        match spec_scan_string(s, k) {
            None => Err(decode_err(k, DecodeErrorKind::MissingField { field: SchemaField::Ops })),
            Some((cs, ce, after)) => {
                if s.subrange(cs, ce) != kw_bytes(Kw::Ops) {
                    Err(decode_err(k, DecodeErrorKind::MissingField { field: SchemaField::Ops }))
                } else {
                    match spec_after_key(s, after) {
                        Err(e) => Err(e),
                        Ok(p) => {
                            if !(0 <= p < s.len() && s[p] == B_LBRACKET) {
                                Err(syntax_err(p))
                            } else {
                                let p1 = spec_skip_ws(s, p + 1);
                                if 0 <= p1 < s.len() && s[p1] == B_RBRACKET {
                                    spec_parse_circuit_tail(s, Seq::empty(), p1 + 1)
                                } else {
                                    match spec_parse_ops_list(s, p1) {
                                        Err(e) => Err(e),
                                        Ok((ops, p2)) => {
                                            let p3 = spec_skip_ws(s, p2);
                                            if !(0 <= p3 < s.len() && s[p3] == B_RBRACKET) {
                                                Err(syntax_err(p3))
                                            } else {
                                                spec_parse_circuit_tail(s, ops, p3 + 1)
                                            }
                                        },
                                    }
                                }
                            }
                        },
                    }
                }
            },
        }
    }
}

/// The closing brace of a circuit object.
pub open spec fn spec_parse_circuit_tail(s: Seq<u8>, ops: Seq<ArtifactOpV>, p: int) -> Result<
    (ArtifactCircuitV, int),
    DecodeError,
> {
    let q = spec_skip_ws(s, p);
    if !(0 <= q < s.len() && s[q] == B_RBRACE) {
        Err(syntax_err(q))
    } else {
        Ok((ArtifactCircuitV { ops }, q + 1))
    }
}

/// A non-empty, comma-separated list of circuit objects starting at `i`.
pub open spec fn spec_parse_circuits_list(s: Seq<u8>, i: int) -> Result<
    (Seq<ArtifactCircuitV>, int),
    DecodeError,
>
    decreases s.len() - i,
{
    match spec_parse_circuit(s, i) {
        Err(e) => Err(e),
        Ok((c, j)) => {
            let j1 = spec_skip_ws(s, j);
            if 0 <= j1 < s.len() && s[j1] == B_COMMA {
                let j2 = spec_skip_ws(s, j1 + 1);
                // The parser always advances; the bound keeps the recursion
                // well founded.
                if i < j2 <= s.len() {
                    match spec_parse_circuits_list(s, j2) {
                        Err(e) => Err(e),
                        Ok((rest, e)) => Ok((seq![c] + rest, e)),
                    }
                } else {
                    Err(syntax_err(j1))
                }
            } else {
                Ok((seq![c], j1))
            }
        },
    }
}

/// The `circuits` value and the document's tail: `[ circuit,* ] }` and
/// nothing but whitespace after.
pub open spec fn spec_parse_circuits_value(
    s: Seq<u8>,
    version: Seq<u8>,
    declared_field: Option<Seq<u8>>,
    p: int,
) -> Result<ProgramArtifactV, DecodeError> {
    if !(0 <= p < s.len() && s[p] == B_LBRACKET) {
        Err(syntax_err(p))
    } else {
        let p1 = spec_skip_ws(s, p + 1);
        if 0 <= p1 < s.len() && s[p1] == B_RBRACKET {
            spec_parse_doc_tail(s, version, declared_field, Seq::empty(), p1 + 1)
        } else {
            match spec_parse_circuits_list(s, p1) {
                Err(e) => Err(e),
                Ok((cs, p2)) => {
                    let p3 = spec_skip_ws(s, p2);
                    if !(0 <= p3 < s.len() && s[p3] == B_RBRACKET) {
                        Err(syntax_err(p3))
                    } else {
                        spec_parse_doc_tail(s, version, declared_field, cs, p3 + 1)
                    }
                },
            }
        }
    }
}

/// The document's closing brace; only whitespace may follow it.
pub open spec fn spec_parse_doc_tail(
    s: Seq<u8>,
    version: Seq<u8>,
    declared_field: Option<Seq<u8>>,
    circuits: Seq<ArtifactCircuitV>,
    p: int,
) -> Result<ProgramArtifactV, DecodeError> {
    let q = spec_skip_ws(s, p);
    if !(0 <= q < s.len() && s[q] == B_RBRACE) {
        Err(syntax_err(q))
    } else {
        let t = spec_skip_ws(s, q + 1);
        if t == s.len() {
            Ok(ProgramArtifactV { version, declared_field, circuits })
        } else {
            Err(decode_err(t, DecodeErrorKind::TrailingBytes))
        }
    }
}

/// The whole document.
pub open spec fn spec_decode(s: Seq<u8>) -> Result<ProgramArtifactV, DecodeError> {
    let i0 = spec_skip_ws(s, 0);
    if !(0 <= i0 < s.len() && s[i0] == B_LBRACE) {
        Err(syntax_err(i0))
    } else {
        let i1 = spec_skip_ws(s, i0 + 1);
        match spec_scan_string(s, i1) {
            None => Err(
                decode_err(i1, DecodeErrorKind::MissingField { field: SchemaField::Version }),
            ),
            Some((cs, ce, after)) => {
                if s.subrange(cs, ce) != kw_bytes(Kw::Version) {
                    Err(
                        decode_err(
                            i1,
                            DecodeErrorKind::MissingField { field: SchemaField::Version },
                        ),
                    )
                } else {
                    match spec_after_key(s, after) {
                        Err(e) => Err(e),
                        Ok(p) => match spec_scan_string(s, p) {
                            None => Err(syntax_err(p)),
                            Some((vs, ve, vafter)) => {
                                if s.subrange(vs, ve) != seq![B_ONE] {
                                    Err(decode_err(p, DecodeErrorKind::UnsupportedVersion))
                                } else {
                                    spec_parse_after_version(s, s.subrange(vs, ve), vafter)
                                }
                            },
                        },
                    }
                }
            },
        }
    }
}

/// After the version value: an optional `field` entry, then `circuits`.
pub open spec fn spec_parse_after_version(s: Seq<u8>, version: Seq<u8>, p: int) -> Result<
    ProgramArtifactV,
    DecodeError,
> {
    let p1 = spec_skip_ws(s, p);
    if !(0 <= p1 < s.len() && s[p1] == B_COMMA) {
        Err(decode_err(p1, DecodeErrorKind::MissingField { field: SchemaField::Circuits }))
    } else {
        let p2 = spec_skip_ws(s, p1 + 1);
        match spec_scan_string(s, p2) {
            None => Err(
                decode_err(p2, DecodeErrorKind::MissingField { field: SchemaField::Circuits }),
            ),
            Some((cs, ce, after)) => {
                if s.subrange(cs, ce) == kw_bytes(Kw::Field) {
                    match spec_after_key(s, after) {
                        Err(e) => Err(e),
                        Ok(q) => match spec_scan_string(s, q) {
                            None => Err(syntax_err(q)),
                            Some((fs, fe, fafter)) => {
                                if !valid_numeral(Base::Dec, s.subrange(fs, fe)) {
                                    Err(decode_err(q, DecodeErrorKind::BadFieldDeclaration))
                                } else {
                                    spec_parse_circuits_key(
                                        s,
                                        version,
                                        Some(s.subrange(fs, fe)),
                                        fafter,
                                    )
                                }
                            },
                        },
                    }
                } else if s.subrange(cs, ce) == kw_bytes(Kw::Circuits) {
                    match spec_after_key(s, after) {
                        Err(e) => Err(e),
                        Ok(q) => spec_parse_circuits_value(s, version, None, q),
                    }
                } else {
                    Err(
                        decode_err(
                            p2,
                            DecodeErrorKind::MissingField { field: SchemaField::Circuits },
                        ),
                    )
                }
            },
        }
    }
}

/// The mandatory `circuits` entry after a `field` entry.
pub open spec fn spec_parse_circuits_key(
    s: Seq<u8>,
    version: Seq<u8>,
    declared_field: Option<Seq<u8>>,
    p: int,
) -> Result<ProgramArtifactV, DecodeError> {
    let p1 = spec_skip_ws(s, p);
    if !(0 <= p1 < s.len() && s[p1] == B_COMMA) {
        Err(decode_err(p1, DecodeErrorKind::MissingField { field: SchemaField::Circuits }))
    } else {
        let p2 = spec_skip_ws(s, p1 + 1);
        match spec_scan_string(s, p2) {
            None => Err(
                decode_err(p2, DecodeErrorKind::MissingField { field: SchemaField::Circuits }),
            ),
            Some((cs, ce, after)) => {
                if s.subrange(cs, ce) != kw_bytes(Kw::Circuits) {
                    Err(
                        decode_err(
                            p2,
                            DecodeErrorKind::MissingField { field: SchemaField::Circuits },
                        ),
                    )
                } else {
                    match spec_after_key(s, after) {
                        Err(e) => Err(e),
                        Ok(q) => spec_parse_circuits_value(s, version, declared_field, q),
                    }
                }
            },
        }
    }
}

/// Executable whitespace skip, equal to its specification.
fn skip_ws(s: &[u8], i: usize) -> (r: usize)
    requires
        i <= s@.len(),
    ensures
        r as int == spec_skip_ws(s@, i as int),
        i <= r <= s@.len(),
{
    let mut r = i;
    while r < s.len() && (s[r] == B_SPACE || s[r] == B_TAB || s[r] == B_LF || s[r] == B_CR)
        invariant
            i <= r <= s@.len(),
            spec_skip_ws(s@, i as int) == spec_skip_ws(s@, r as int),
        decreases s@.len() - r,
    {
        r = r + 1;
    }
    r
}

/// Executable string-token scan, equal to its specification.
fn scan_string(s: &[u8], i: usize) -> (r: Option<(usize, usize, usize)>)
    requires
        i <= s@.len(),
    ensures
        match (r, spec_scan_string(s@, i as int)) {
            (Some(t), Some(u)) => t.0 as int == u.0 && t.1 as int == u.1 && t.2 as int == u.2 && i
                < t.0 <= t.1 < s@.len() && t.2 <= s@.len(),
            (None, None) => true,
            _ => false,
        },
{
    if !(i < s.len() && s[i] == B_QUOTE) {
        return None;
    }
    let mut j = i + 1;
    while j < s.len() && s[j] != B_QUOTE && 32 <= s[j] && s[j] <= 126 && s[j] != B_BACKSLASH
        invariant
            i + 1 <= j <= s@.len(),
            spec_scan_content(s@, (i + 1) as int) == spec_scan_content(s@, j as int),
        decreases s@.len() - j,
    {
        j = j + 1;
    }
    if j < s.len() && s[j] == B_QUOTE {
        Some((i + 1, j, j + 1))
    } else {
        None
    }
}

/// The bytes of a keyword, executable form.
fn kw_vec(kw: Kw) -> (v: Vec<u8>)
    ensures
        v@ == kw_bytes(kw),
{
    let mut v: Vec<u8> = Vec::new();
    match kw {
        Kw::Version => {
            v.push(118);
            v.push(101);
            v.push(114);
            v.push(115);
            v.push(105);
            v.push(111);
            v.push(110);
        },
        Kw::Field => {
            v.push(102);
            v.push(105);
            v.push(101);
            v.push(108);
            v.push(100);
        },
        Kw::Circuits => {
            v.push(99);
            v.push(105);
            v.push(114);
            v.push(99);
            v.push(117);
            v.push(105);
            v.push(116);
            v.push(115);
        },
        Kw::Ops => {
            v.push(111);
            v.push(112);
            v.push(115);
        },
        Kw::Add => {
            v.push(97);
            v.push(100);
            v.push(100);
        },
        Kw::Mul => {
            v.push(109);
            v.push(117);
            v.push(108);
        },
        Kw::Out => {
            v.push(111);
            v.push(117);
            v.push(116);
        },
    }
    proof {
        assert(v@ =~= kw_bytes(kw));
    }
    v
}

/// Decides whether `s[cs..ce]` is the given keyword.
fn kw_eq(s: &[u8], cs: usize, ce: usize, kw: Kw) -> (r: bool)
    requires
        cs <= ce <= s@.len(),
    ensures
        r == (s@.subrange(cs as int, ce as int) == kw_bytes(kw)),
{
    let v = kw_vec(kw);
    let ghost sub = s@.subrange(cs as int, ce as int);
    if ce - cs != v.len() {
        proof {
            assert(sub.len() != kw_bytes(kw).len());
        }
        return false;
    }
    let mut t: usize = 0;
    while t < v.len()
        invariant
            t <= v@.len(),
            v@ == kw_bytes(kw),
            cs <= ce <= s@.len(),
            ce - cs == v@.len(),
            sub =~= s@.subrange(cs as int, ce as int),
            forall|q: int| 0 <= q < t ==> sub[q] == kw_bytes(kw)[q],
        decreases v@.len() - t,
    {
        if s[cs + t] != v[t] {
            proof {
                assert(sub[t as int] == s@[cs + t]);
                assert(sub[t as int] != kw_bytes(kw)[t as int]);
            }
            return false;
        }
        proof {
            assert(sub[t as int] == s@[cs + t]);
        }
        t = t + 1;
    }
    proof {
        assert(sub =~= kw_bytes(kw));
    }
    true
}

/// Decides whether `s[vs..ve]` is the version tag this loader accepts.
fn is_version_one(s: &[u8], vs: usize, ve: usize) -> (r: bool)
    requires
        vs <= ve <= s@.len(),
    ensures
        r == (s@.subrange(vs as int, ve as int) == seq![B_ONE]),
{
    let ghost sub = s@.subrange(vs as int, ve as int);
    if ve - vs != 1 {
        proof {
            assert(sub.len() != seq![B_ONE].len());
        }
        return false;
    }
    let r = s[vs] == B_ONE;
    proof {
        assert(sub[0] == s@[vs as int]);
        if r {
            assert(sub =~= seq![B_ONE]);
        } else {
            assert(sub[0] != seq![B_ONE][0]);
        }
    }
    r
}

/// Copies `s[a..b]` out of the buffer.
fn copy_range(s: &[u8], a: usize, b: usize) -> (v: Vec<u8>)
    requires
        a <= b <= s@.len(),
    ensures
        v@ == s@.subrange(a as int, b as int),
{
    let mut v: Vec<u8> = Vec::new();
    let mut t: usize = a;
    while t < b
        invariant
            a <= t <= b <= s@.len(),
            v@ =~= s@.subrange(a as int, t as int),
        decreases b - t,
    {
        let ghost pre = v@;
        v.push(s[t]);
        proof {
            assert(v@ =~= s@.subrange(a as int, (t + 1) as int));
        }
        t = t + 1;
    }
    proof {
        assert(v@ =~= s@.subrange(a as int, b as int));
    }
    v
}

/// Binds the decimal numeral in `s[from..to]` to a witness index, when it
/// fits the index type.
fn parse_dec_u32(s: &[u8], from: usize, to: usize) -> (r: Option<u32>)
    requires
        from <= to <= s@.len(),
        valid_numeral(Base::Dec, s@.subrange(from as int, to as int)),
    ensures
        match r {
            Some(v) => v as nat == numeral_value(Base::Dec, s@.subrange(from as int, to as int)),
            None => numeral_value(Base::Dec, s@.subrange(from as int, to as int)) > MAX_WITNESS
                as nat,
        },
{
    let ghost digits = s@.subrange(from as int, to as int);
    let mut acc: u64 = 0;
    let mut over: bool = false;
    let mut i: usize = from;
    while i < to
        invariant
            from <= i <= to <= s@.len(),
            valid_numeral(Base::Dec, digits),
            digits =~= s@.subrange(from as int, to as int),
            over <==> numeral_value(Base::Dec, digits.take(i - from)) > MAX_WITNESS as nat,
            !over ==> acc as nat == numeral_value(Base::Dec, digits.take(i - from)),
            !over ==> acc <= MAX_WITNESS,
        decreases to - i,
    {
        let ghost prefix = digits.take(i - from);
        let ghost next = digits.take(i + 1 - from);
        proof {
            assert(next.drop_last() =~= prefix);
            assert(next.last() == digits[i - from]);
            assert(digits[i - from] == s@[i as int]);
            assert(is_digit(Base::Dec, s@[i as int]));
            assert(numeral_value(Base::Dec, next) == numeral_value(Base::Dec, prefix) * 10
                + digit_value(digits[i - from]));
        }
        let b = s[i];
        let d: u64 = (b - B_ZERO) as u64;
        if !over {
            let nv: u64 = acc * 10 + d;
            if nv > MAX_WITNESS {
                over = true;
            } else {
                acc = nv;
            }
        }
        i = i + 1;
    }
    proof {
        assert(digits.take(to - from) =~= digits);
    }
    if over {
        None
    } else {
        Some(acc as u32)
    }
}

/// Executable operand parse, equal to its specification.
fn parse_operand(s: &[u8], i: usize) -> (r: Result<(ArtifactOperand, usize), DecodeError>)
    requires
        i <= s@.len(),
    ensures
        match (r, spec_parse_operand(s@, i as int)) {
            (Ok(p), Ok(q)) => p.0@ == q.0 && p.1 as int == q.1 && p.1 <= s@.len(),
            (Err(e), Err(f)) => e == f,
            _ => false,
        },
{
    match scan_string(s, i) {
        None => Err(DecodeError { pos: i, kind: DecodeErrorKind::Syntax }),
        Some((cs, ce, after)) => {
            let ghost content = s@.subrange(cs as int, ce as int);
            proof {
                assert(content.len() == ce - cs);
                if ce > cs {
                    assert(content[0] == s@[cs as int]);
                }
                if ce - cs >= 2 {
                    assert(content[1] == s@[cs as int + 1]);
                }
            }
            if ce > cs && s[cs] == B_LO_W {
                proof {
                    assert(content.subrange(1, content.len() as int) =~= s@.subrange(
                        cs as int + 1,
                        ce as int,
                    ));
                }
                if check_digits(Base::Dec, s, cs + 1, ce) {
                    match parse_dec_u32(s, cs + 1, ce) {
                        Some(v) => Ok((ArtifactOperand::Witness { index: v }, after)),
                        None => Err(
                            DecodeError { pos: cs, kind: DecodeErrorKind::WitnessIndexTooLarge },
                        ),
                    }
                } else {
                    Err(DecodeError { pos: cs, kind: DecodeErrorKind::BadOperand })
                }
            } else {
                let hex = ce - cs >= 2 && s[cs] == B_ZERO && s[cs + 1] == B_LO_X;
                if hex {
                    proof {
                        assert(content.subrange(2, content.len() as int) =~= s@.subrange(
                            cs as int + 2,
                            ce as int,
                        ));
                    }
                    if check_digits(Base::Hex, s, cs + 2, ce) {
                        let digits = copy_range(s, cs + 2, ce);
                        Ok((ArtifactOperand::Constant { base: Base::Hex, digits }, after))
                    } else {
                        Err(DecodeError { pos: cs, kind: DecodeErrorKind::BadOperand })
                    }
                } else {
                    if check_digits(Base::Dec, s, cs, ce) {
                        let digits = copy_range(s, cs, ce);
                        Ok((ArtifactOperand::Constant { base: Base::Dec, digits }, after))
                    } else {
                        Err(DecodeError { pos: cs, kind: DecodeErrorKind::BadOperand })
                    }
                }
            }
        },
    }
}

/// Executable `out` parse, equal to its specification.
fn parse_out(s: &[u8], i: usize) -> (r: Result<(u32, usize), DecodeError>)
    requires
        i <= s@.len(),
    ensures
        match (r, spec_parse_out(s@, i as int)) {
            (Ok(p), Ok(q)) => p.0 == q.0 && p.1 as int == q.1 && p.1 <= s@.len(),
            (Err(e), Err(f)) => e == f,
            _ => false,
        },
{
    match parse_operand(s, i) {
        Err(e) => Err(e),
        Ok((ArtifactOperand::Witness { index }, after)) => Ok((index, after)),
        Ok((ArtifactOperand::Constant { .. }, _)) => Err(
            DecodeError { pos: i, kind: DecodeErrorKind::MissingField { field: SchemaField::Out } },
        ),
    }
}

/// Executable operation parse, equal to its specification.
fn parse_op(s: &[u8], i: usize) -> (r: Result<(ArtifactOp, usize), DecodeError>)
    requires
        i <= s@.len(),
    ensures
        match (r, spec_parse_op(s@, i as int)) {
            (Ok(p), Ok(q)) => p.0@ == q.0 && p.1 as int == q.1 && p.1 <= s@.len(),
            (Err(e), Err(f)) => e == f,
            _ => false,
        },
{
    if !(i < s.len() && s[i] == B_LBRACE) {
        return Err(DecodeError { pos: i, kind: DecodeErrorKind::Syntax });
    }
    let k = skip_ws(s, i + 1);
    let sc = scan_string(s, k);
    match sc {
        None => Err(DecodeError { pos: k, kind: DecodeErrorKind::UnknownGate }),
        Some((cs, ce, after)) => {
            let is_add = kw_eq(s, cs, ce, Kw::Add);
            let is_mul = kw_eq(s, cs, ce, Kw::Mul);
            if !is_add && !is_mul {
                return Err(DecodeError { pos: k, kind: DecodeErrorKind::UnknownGate });
            }
            let kind = if is_add {
                OpKind::Add
            } else {
                OpKind::Mul
            };
            let p = match after_key(s, after) {
                Err(e) => {
                    return Err(e);
                },
                Ok(p) => p,
            };
            if !(p < s.len() && s[p] == B_LBRACKET) {
                return Err(DecodeError { pos: p, kind: DecodeErrorKind::Syntax });
            }
            let p1 = skip_ws(s, p + 1);
            let (lhs, p2) = match parse_operand(s, p1) {
                Err(e) => {
                    return Err(e);
                },
                Ok(t) => t,
            };
            let p3 = skip_ws(s, p2);
            if !(p3 < s.len() && s[p3] == B_COMMA) {
                return Err(DecodeError { pos: p3, kind: DecodeErrorKind::Syntax });
            }
            let p4 = skip_ws(s, p3 + 1);
            let (rhs, p5) = match parse_operand(s, p4) {
                Err(e) => {
                    return Err(e);
                },
                Ok(t) => t,
            };
            parse_op_tail(s, kind, lhs, rhs, p5)
        },
    }
}

/// Executable operation tail parse, equal to its specification.
fn parse_op_tail(s: &[u8], kind: OpKind, lhs: ArtifactOperand, rhs: ArtifactOperand, p5: usize) -> (r:
    Result<(ArtifactOp, usize), DecodeError>)
    requires
        p5 <= s@.len(),
    ensures
        match (r, spec_parse_op_tail(s@, kind, lhs@, rhs@, p5 as int)) {
            (Ok(p), Ok(q)) => p.0@ == q.0 && p.1 as int == q.1 && p.1 <= s@.len(),
            (Err(e), Err(f)) => e == f,
            _ => false,
        },
{
    let p6 = skip_ws(s, p5);
    if !(p6 < s.len() && s[p6] == B_RBRACKET) {
        return Err(DecodeError { pos: p6, kind: DecodeErrorKind::Syntax });
    }
    let p7 = skip_ws(s, p6 + 1);
    if !(p7 < s.len() && s[p7] == B_COMMA) {
        return Err(
            DecodeError { pos: p7, kind: DecodeErrorKind::MissingField { field: SchemaField::Out } },
        );
    }
    let p8 = skip_ws(s, p7 + 1);
    let sc = scan_string(s, p8);
    match sc {
        None => Err(
            DecodeError { pos: p8, kind: DecodeErrorKind::MissingField { field: SchemaField::Out } },
        ),
        Some((cs, ce, after)) => {
            if !kw_eq(s, cs, ce, Kw::Out) {
                return Err(
                    DecodeError {
                        pos: p8,
                        kind: DecodeErrorKind::MissingField { field: SchemaField::Out },
                    },
                );
            }
            let p9 = match after_key(s, after) {
                Err(e) => {
                    return Err(e);
                },
                Ok(p) => p,
            };
            let (out, p10) = match parse_out(s, p9) {
                Err(e) => {
                    return Err(e);
                },
                Ok(t) => t,
            };
            let p11 = skip_ws(s, p10);
            if !(p11 < s.len() && s[p11] == B_RBRACE) {
                return Err(DecodeError { pos: p11, kind: DecodeErrorKind::Syntax });
            }
            Ok((ArtifactOp { kind, lhs, rhs, out }, p11 + 1))
        },
    }
}

/// Executable operation-list parse, equal to its specification.
fn parse_ops_list(s: &[u8], i: usize) -> (r: Result<(Vec<ArtifactOp>, usize), DecodeError>)
    requires
        i <= s@.len(),
    ensures
        match (r, spec_parse_ops_list(s@, i as int)) {
            (Ok(p), Ok(q)) => view_ops(p.0@) == q.0 && p.1 as int == q.1 && p.1 <= s@.len(),
            (Err(e), Err(f)) => e == f,
            _ => false,
        },
    decreases s@.len() - i,
{
    match parse_op(s, i) {
        Err(e) => Err(e),
        Ok((op, j)) => {
            let j1 = skip_ws(s, j);
            if j1 < s.len() && s[j1] == B_COMMA {
                let j2 = skip_ws(s, j1 + 1);
                // The parser always advances; the bound keeps the recursion
                // well founded.
                if i < j2 && j2 <= s.len() {
                    match parse_ops_list(s, j2) {
                        Err(e) => Err(e),
                        Ok((rest, e)) => {
                            let mut ops = rest;
                            let ghost restseq = ops@;
                            ops.insert(0, op);
                            proof {
                                assert(ops@ =~= seq![op] + restseq);
                                assert(view_ops(ops@) =~= seq![op@] + view_ops(restseq));
                            }
                            Ok((ops, e))
                        },
                    }
                } else {
                    Err(DecodeError { pos: j1, kind: DecodeErrorKind::Syntax })
                }
            } else {
                let mut ops: Vec<ArtifactOp> = Vec::new();
                ops.push(op);
                proof {
                    assert(view_ops(ops@) =~= seq![op@]);
                }
                Ok((ops, j1))
            }
        },
    }
}

/// Executable circuit parse, equal to its specification.
fn parse_circuit(s: &[u8], i: usize) -> (r: Result<(ArtifactCircuit, usize), DecodeError>)
    requires
        i <= s@.len(),
    ensures
        match (r, spec_parse_circuit(s@, i as int)) {
            (Ok(p), Ok(q)) => p.0@ == q.0 && p.1 as int == q.1 && p.1 <= s@.len(),
            (Err(e), Err(f)) => e == f,
            _ => false,
        },
{
    if !(i < s.len() && s[i] == B_LBRACE) {
        return Err(DecodeError { pos: i, kind: DecodeErrorKind::Syntax });
    }
    let k = skip_ws(s, i + 1);
    let sc = scan_string(s, k);
    match sc {
        None => Err(
            DecodeError { pos: k, kind: DecodeErrorKind::MissingField { field: SchemaField::Ops } },
        ),
        Some((cs, ce, after)) => {
            if !kw_eq(s, cs, ce, Kw::Ops) {
                return Err(
                    DecodeError {
                        pos: k,
                        kind: DecodeErrorKind::MissingField { field: SchemaField::Ops },
                    },
                );
            }
            let p = match after_key(s, after) {
                Err(e) => {
                    return Err(e);
                },
                Ok(p) => p,
            };
            if !(p < s.len() && s[p] == B_LBRACKET) {
                return Err(DecodeError { pos: p, kind: DecodeErrorKind::Syntax });
            }
            let p1 = skip_ws(s, p + 1);
            if p1 < s.len() && s[p1] == B_RBRACKET {
                let ops: Vec<ArtifactOp> = Vec::new();
                proof {
                    assert(view_ops(ops@) =~= Seq::<ArtifactOpV>::empty());
                }
                parse_circuit_tail(s, ops, p1 + 1)
            } else {
                let (ops, p2) = match parse_ops_list(s, p1) {
                    Err(e) => {
                        return Err(e);
                    },
                    Ok(t) => t,
                };
                let p3 = skip_ws(s, p2);
                if !(p3 < s.len() && s[p3] == B_RBRACKET) {
                    return Err(DecodeError { pos: p3, kind: DecodeErrorKind::Syntax });
                }
                parse_circuit_tail(s, ops, p3 + 1)
            }
        },
    }
}

/// Executable circuit tail parse, equal to its specification.
fn parse_circuit_tail(s: &[u8], ops: Vec<ArtifactOp>, p: usize) -> (r: Result<
    (ArtifactCircuit, usize),
    DecodeError,
>)
    requires
        p <= s@.len(),
    ensures
        match (r, spec_parse_circuit_tail(s@, view_ops(ops@), p as int)) {
            (Ok(c), Ok(q)) => c.0@ == q.0 && c.1 as int == q.1 && c.1 <= s@.len(),
            (Err(e), Err(f)) => e == f,
            _ => false,
        },
{
    let q = skip_ws(s, p);
    if !(q < s.len() && s[q] == B_RBRACE) {
        return Err(DecodeError { pos: q, kind: DecodeErrorKind::Syntax });
    }
    Ok((ArtifactCircuit { ops }, q + 1))
}

/// Executable circuit-list parse, equal to its specification.
fn parse_circuits_list(s: &[u8], i: usize) -> (r: Result<
    (Vec<ArtifactCircuit>, usize),
    DecodeError,
>)
    requires
        i <= s@.len(),
    ensures
        match (r, spec_parse_circuits_list(s@, i as int)) {
            (Ok(p), Ok(q)) => view_circuits(p.0@) == q.0 && p.1 as int == q.1 && p.1 <= s@.len(),
            (Err(e), Err(f)) => e == f,
            _ => false,
        },
    decreases s@.len() - i,
{
    match parse_circuit(s, i) {
        Err(e) => Err(e),
        Ok((c, j)) => {
            let j1 = skip_ws(s, j);
            if j1 < s.len() && s[j1] == B_COMMA {
                let j2 = skip_ws(s, j1 + 1);
                // The parser always advances; the bound keeps the recursion
                // well founded.
                if i < j2 && j2 <= s.len() {
                    match parse_circuits_list(s, j2) {
                        Err(e) => Err(e),
                        Ok((rest, e)) => {
                            let mut cs = rest;
                            let ghost restseq = cs@;
                            cs.insert(0, c);
                            proof {
                                assert(cs@ =~= seq![c] + restseq);
                                assert(view_circuits(cs@) =~= seq![c@] + view_circuits(restseq));
                            }
                            Ok((cs, e))
                        },
                    }
                } else {
                    Err(DecodeError { pos: j1, kind: DecodeErrorKind::Syntax })
                }
            } else {
                let mut cs: Vec<ArtifactCircuit> = Vec::new();
                cs.push(c);
                proof {
                    assert(view_circuits(cs@) =~= seq![c@]);
                }
                Ok((cs, j1))
            }
        },
    }
}

/// Executable `circuits` value parse, equal to its specification.
fn parse_circuits_value(
    s: &[u8],
    version: Vec<u8>,
    declared_field: Option<Vec<u8>>,
    p: usize,
) -> (r: Result<ProgramArtifact, DecodeError>)
    requires
        p <= s@.len(),
    ensures
        match (r, spec_parse_circuits_value(s@, version@, view_opt_bytes(declared_field), p as int)) {
            (Ok(a), Ok(v)) => a@ == v,
            (Err(e), Err(f)) => e == f,
            _ => false,
        },
{
    if !(p < s.len() && s[p] == B_LBRACKET) {
        return Err(DecodeError { pos: p, kind: DecodeErrorKind::Syntax });
    }
    let p1 = skip_ws(s, p + 1);
    if p1 < s.len() && s[p1] == B_RBRACKET {
        let cs: Vec<ArtifactCircuit> = Vec::new();
        proof {
            assert(view_circuits(cs@) =~= Seq::<ArtifactCircuitV>::empty());
        }
        parse_doc_tail(s, version, declared_field, cs, p1 + 1)
    } else {
        let (cs, p2) = match parse_circuits_list(s, p1) {
            Err(e) => {
                return Err(e);
            },
            Ok(t) => t,
        };
        let p3 = skip_ws(s, p2);
        if !(p3 < s.len() && s[p3] == B_RBRACKET) {
            return Err(DecodeError { pos: p3, kind: DecodeErrorKind::Syntax });
        }
        parse_doc_tail(s, version, declared_field, cs, p3 + 1)
    }
}

/// Executable document tail parse, equal to its specification.
fn parse_doc_tail(
    s: &[u8],
    version: Vec<u8>,
    declared_field: Option<Vec<u8>>,
    circuits: Vec<ArtifactCircuit>,
    p: usize,
) -> (r: Result<ProgramArtifact, DecodeError>)
    requires
        p <= s@.len(),
    ensures
        match (r, spec_parse_doc_tail(
            s@,
            version@,
            view_opt_bytes(declared_field),
            view_circuits(circuits@),
            p as int,
        )) {
            (Ok(a), Ok(v)) => a@ == v,
            (Err(e), Err(f)) => e == f,
            _ => false,
        },
{
    let q = skip_ws(s, p);
    if !(q < s.len() && s[q] == B_RBRACE) {
        return Err(DecodeError { pos: q, kind: DecodeErrorKind::Syntax });
    }
    let t = skip_ws(s, q + 1);
    if t == s.len() {
        Ok(ProgramArtifact { version, declared_field, circuits })
    } else {
        Err(DecodeError { pos: t, kind: DecodeErrorKind::TrailingBytes })
    }
}

/// Decodes an artifact document: parses the structured text into the
/// artifact schema, rejecting malformed syntax, missing or misplaced
/// required fields, malformed operands, and unsupported versions. Returns
/// exactly what the specification-level parser returns.
pub fn decode(s: &[u8]) -> (r: Result<ProgramArtifact, DecodeError>)
    ensures
        match (r, spec_decode(s@)) {
            (Ok(a), Ok(v)) => a@ == v,
            (Err(e), Err(f)) => e == f,
            _ => false,
        },
{
    let i0 = skip_ws(s, 0);
    if !(i0 < s.len() && s[i0] == B_LBRACE) {
        return Err(DecodeError { pos: i0, kind: DecodeErrorKind::Syntax });
    }
    let i1 = skip_ws(s, i0 + 1);
    let sc = scan_string(s, i1);
    match sc {
        None => Err(
            DecodeError {
                pos: i1,
                kind: DecodeErrorKind::MissingField { field: SchemaField::Version },
            },
        ),
        Some((cs, ce, after)) => {
            if !kw_eq(s, cs, ce, Kw::Version) {
                return Err(
                    DecodeError {
                        pos: i1,
                        kind: DecodeErrorKind::MissingField { field: SchemaField::Version },
                    },
                );
            }
            let p = match after_key(s, after) {
                Err(e) => {
                    return Err(e);
                },
                Ok(p) => p,
            };
            let (vs, ve, vafter) = match scan_string(s, p) {
                None => {
                    return Err(DecodeError { pos: p, kind: DecodeErrorKind::Syntax });
                },
                Some(t) => t,
            };
            if !is_version_one(s, vs, ve) {
                return Err(DecodeError { pos: p, kind: DecodeErrorKind::UnsupportedVersion });
            }
            let version = copy_range(s, vs, ve);
            parse_after_version(s, version, vafter)
        },
    }
}

/// Executable parse of what follows the version value, equal to its
/// specification.
fn parse_after_version(s: &[u8], version: Vec<u8>, p: usize) -> (r: Result<
    ProgramArtifact,
    DecodeError,
>)
    requires
        p <= s@.len(),
    ensures
        match (r, spec_parse_after_version(s@, version@, p as int)) {
            (Ok(a), Ok(v)) => a@ == v,
            (Err(e), Err(f)) => e == f,
            _ => false,
        },
{
    let p1 = skip_ws(s, p);
    if !(p1 < s.len() && s[p1] == B_COMMA) {
        return Err(
            DecodeError {
                pos: p1,
                kind: DecodeErrorKind::MissingField { field: SchemaField::Circuits },
            },
        );
    }
    let p2 = skip_ws(s, p1 + 1);
    let sc = scan_string(s, p2);
    match sc {
        None => Err(
            DecodeError {
                pos: p2,
                kind: DecodeErrorKind::MissingField { field: SchemaField::Circuits },
            },
        ),
        Some((cs, ce, after)) => {
            if kw_eq(s, cs, ce, Kw::Field) {
                let q = match after_key(s, after) {
                    Err(e) => {
                        return Err(e);
                    },
                    Ok(q) => q,
                };
                let (fs, fe, fafter) = match scan_string(s, q) {
                    None => {
                        return Err(DecodeError { pos: q, kind: DecodeErrorKind::Syntax });
                    },
                    Some(t) => t,
                };
                if !check_digits(Base::Dec, s, fs, fe) {
                    return Err(DecodeError { pos: q, kind: DecodeErrorKind::BadFieldDeclaration });
                }
                let declared = copy_range(s, fs, fe);
                parse_circuits_key(s, version, Some(declared), fafter)
            } else if kw_eq(s, cs, ce, Kw::Circuits) {
                let q = match after_key(s, after) {
                    Err(e) => {
                        return Err(e);
                    },
                    Ok(q) => q,
                };
                parse_circuits_value(s, version, None, q)
            } else {
                Err(
                    DecodeError {
                        pos: p2,
                        kind: DecodeErrorKind::MissingField { field: SchemaField::Circuits },
                    },
                )
            }
        },
    }
}

/// Executable parse of the mandatory `circuits` entry after a `field`
/// entry, equal to its specification.
fn parse_circuits_key(
    s: &[u8],
    version: Vec<u8>,
    declared_field: Option<Vec<u8>>,
    p: usize,
) -> (r: Result<ProgramArtifact, DecodeError>)
    requires
        p <= s@.len(),
    ensures
        match (r, spec_parse_circuits_key(s@, version@, view_opt_bytes(declared_field), p as int)) {
            (Ok(a), Ok(v)) => a@ == v,
            (Err(e), Err(f)) => e == f,
            _ => false,
        },
{
    let p1 = skip_ws(s, p);
    if !(p1 < s.len() && s[p1] == B_COMMA) {
        return Err(
            DecodeError {
                pos: p1,
                kind: DecodeErrorKind::MissingField { field: SchemaField::Circuits },
            },
        );
    }
    let p2 = skip_ws(s, p1 + 1);
    let sc = scan_string(s, p2);
    match sc {
        None => Err(
            DecodeError {
                pos: p2,
                kind: DecodeErrorKind::MissingField { field: SchemaField::Circuits },
            },
        ),
        Some((cs, ce, after)) => {
            if !kw_eq(s, cs, ce, Kw::Circuits) {
                return Err(
                    DecodeError {
                        pos: p2,
                        kind: DecodeErrorKind::MissingField { field: SchemaField::Circuits },
                    },
                );
            }
            let q = match after_key(s, after) {
                Err(e) => {
                    return Err(e);
                },
                Ok(q) => q,
            };
            parse_circuits_value(s, version, declared_field, q)
        },
    }
}

/// Executable key tail (`ws ':' ws`), equal to its specification.
fn after_key(s: &[u8], after: usize) -> (r: Result<usize, DecodeError>)
    requires
        after <= s@.len(),
    ensures
        match (r, spec_after_key(s@, after as int)) {
            (Ok(p), Ok(q)) => p as int == q && p <= s@.len(),
            (Err(e), Err(f)) => e == f,
            _ => false,
        },
{
    let j = skip_ws(s, after);
    if j < s.len() && s[j] == B_COLON {
        Ok(skip_ws(s, j + 1))
    } else {
        Err(DecodeError { pos: j, kind: DecodeErrorKind::Syntax })
    }
}

} // verus!
