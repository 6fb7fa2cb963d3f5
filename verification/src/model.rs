//! The artifact schema and the circuit model, with their views and errors.
//!
//! A `ProgramArtifact` is the decoded form of the untrusted document: its
//! field-dependent values are still unbound numerals. A `Program` is the
//! constraint-level form handed to downstream consumers: every constant is a
//! canonical `FieldElement` of the configured field.

use vstd::prelude::*;

use crate::field::Base;
use crate::field::FieldElement;

verus! {

/// An operand of an artifact operation: a field constant still in textual
/// (numeral) form, or a witness reference.
#[derive(Clone, PartialEq, Eq, Debug)]
pub enum ArtifactOperand {
    Constant { base: Base, digits: Vec<u8> },
    Witness { index: u32 },
}

/// The operation kinds of the circuit model.
#[derive(Clone, Copy, PartialEq, Eq, Structural, Debug)]
pub enum OpKind {
    Add,
    Mul,
}

/// One operation of an artifact circuit: a gate over two operands whose
/// result defines the witness `out`.
#[derive(Clone, PartialEq, Eq, Debug)]
pub struct ArtifactOp {
    pub kind: OpKind,
    pub lhs: ArtifactOperand,
    pub rhs: ArtifactOperand,
    pub out: u32,
}

/// One circuit of an artifact: its operations in document order.
#[derive(Clone, PartialEq, Eq, Debug)]
pub struct ArtifactCircuit {
    pub ops: Vec<ArtifactOp>,
}

/// The validated shape of the untrusted document: version tag, optional
/// declared field (its modulus as a decimal numeral), and the circuits.
#[derive(Clone, PartialEq, Eq, Debug)]
pub struct ProgramArtifact {
    pub version: Vec<u8>,
    pub declared_field: Option<Vec<u8>>,
    pub circuits: Vec<ArtifactCircuit>,
}

/// View of an artifact operand.
#[verifier::ext_equal]
pub enum ArtifactOperandV {
    Constant { base: Base, digits: Seq<u8> },
    Witness { index: u32 },
}

/// View of an artifact operation.
#[verifier::ext_equal]
pub struct ArtifactOpV {
    pub kind: OpKind,
    pub lhs: ArtifactOperandV,
    pub rhs: ArtifactOperandV,
    pub out: u32,
}

/// View of an artifact circuit.
#[verifier::ext_equal]
pub struct ArtifactCircuitV {
    pub ops: Seq<ArtifactOpV>,
}

/// View of a program artifact.
#[verifier::ext_equal]
pub struct ProgramArtifactV {
    pub version: Seq<u8>,
    pub declared_field: Option<Seq<u8>>,
    pub circuits: Seq<ArtifactCircuitV>,
}

impl View for ArtifactOperand {
    type V = ArtifactOperandV;

    open spec fn view(&self) -> ArtifactOperandV {
        match self {
            ArtifactOperand::Constant { base, digits } => ArtifactOperandV::Constant {
                base: *base,
                digits: digits@,
            },
            ArtifactOperand::Witness { index } => ArtifactOperandV::Witness { index: *index },
        }
    }
}

impl View for ArtifactOp {
    type V = ArtifactOpV;

    open spec fn view(&self) -> ArtifactOpV {
        ArtifactOpV { kind: self.kind, lhs: self.lhs@, rhs: self.rhs@, out: self.out }
    }
}

/// The view of an optional byte vector.
pub open spec fn view_opt_bytes(o: Option<Vec<u8>>) -> Option<Seq<u8>> {
    match o {
        Some(d) => Some(d@),
        None => None,
    }
}

/// The views of a sequence of artifact operations.
pub open spec fn view_ops(ops: Seq<ArtifactOp>) -> Seq<ArtifactOpV> {
    Seq::new(ops.len(), |i: int| ops[i]@)
}

/// The views of a sequence of artifact circuits.
pub open spec fn view_circuits(cs: Seq<ArtifactCircuit>) -> Seq<ArtifactCircuitV> {
    Seq::new(cs.len(), |i: int| cs[i]@)
}

impl View for ArtifactCircuit {
    type V = ArtifactCircuitV;

    open spec fn view(&self) -> ArtifactCircuitV {
        ArtifactCircuitV { ops: view_ops(self.ops@) }
    }
}

impl View for ProgramArtifact {
    type V = ProgramArtifactV;

    open spec fn view(&self) -> ProgramArtifactV {
        ProgramArtifactV {
            version: self.version@,
            declared_field: match self.declared_field {
                Some(ref d) => Some(d@),
                None => None,
            },
            circuits: view_circuits(self.circuits@),
        }
    }
}

/// An operand of a projected operation: a canonical field element, or a
/// witness reference.
#[derive(Clone, Copy, PartialEq, Eq, Structural, Debug)]
pub enum Operand {
    Constant { value: FieldElement },
    Witness { index: u32 },
}

/// View of a projected operand: constants appear as their residues.
#[verifier::ext_equal]
pub enum OperandV {
    Constant { value: nat },
    Witness { index: u32 },
}

impl View for Operand {
    type V = OperandV;

    open spec fn view(&self) -> OperandV {
        match self {
            Operand::Constant { value } => OperandV::Constant { value: value@ },
            Operand::Witness { index } => OperandV::Witness { index: *index },
        }
    }
}

/// One operation of a projected circuit.
#[derive(Clone, Copy, PartialEq, Eq, Structural, Debug)]
pub struct Op {
    pub kind: OpKind,
    pub lhs: Operand,
    pub rhs: Operand,
    pub out: u32,
}

/// View of a projected operation.
#[verifier::ext_equal]
pub struct OpV {
    pub kind: OpKind,
    pub lhs: OperandV,
    pub rhs: OperandV,
    pub out: u32,
}

impl View for Op {
    type V = OpV;

    open spec fn view(&self) -> OpV {
        OpV { kind: self.kind, lhs: self.lhs@, rhs: self.rhs@, out: self.out }
    }
}

/// One circuit of a program: its operations in document order.
#[derive(Clone, PartialEq, Eq, Debug)]
pub struct Circuit {
    pub ops: Vec<Op>,
}

impl View for Circuit {
    type V = Seq<OpV>;

    open spec fn view(&self) -> Seq<OpV> {
        Seq::new(self.ops@.len(), |i: int| self.ops@[i]@)
    }
}

/// The constraint-level representation handed to downstream consumers.
#[derive(Clone, PartialEq, Eq, Debug)]
pub struct Program {
    pub circuits: Vec<Circuit>,
}

impl View for Program {
    type V = Seq<Seq<OpV>>;

    open spec fn view(&self) -> Seq<Seq<OpV>> {
        Seq::new(self.circuits@.len(), |i: int| self.circuits@[i]@)
    }
}

/// A decoded and field-bound artifact: the program plus the layout the
/// binding fixed (here, the modulus the constants were reduced into).
#[derive(Clone, PartialEq, Eq, Debug)]
pub struct CompiledProgram {
    pub program: Program,
}

impl View for CompiledProgram {
    type V = Seq<Seq<OpV>>;

    open spec fn view(&self) -> Seq<Seq<OpV>> {
        self.program@
    }
}

/// Where a named schema field was expected.
#[derive(Clone, Copy, PartialEq, Eq, Structural, Debug)]
pub enum SchemaField {
    Version,
    Circuits,
    Ops,
    Out,
}

/// Why a document was rejected at the decode stage.
#[derive(Clone, Copy, PartialEq, Eq, Structural, Debug)]
pub enum DecodeErrorKind {
    /// A token of the document's grammar is malformed or missing.
    Syntax,
    /// A required field is missing or misplaced.
    MissingField { field: SchemaField },
    /// The version tag is not one this loader understands.
    UnsupportedVersion,
    /// An operand string is neither a witness reference nor a numeral.
    BadOperand,
    /// An operation's gate key names no gate of the circuit model.
    UnknownGate,
    /// A witness reference does not fit the witness index type.
    WitnessIndexTooLarge,
    /// The declared field is not a decimal numeral.
    BadFieldDeclaration,
    /// Content follows the closing brace of the document.
    TrailingBytes,
}

impl DecodeErrorKind {
    /// A short human-readable diagnostic for the rejection.
    pub fn describe(&self) -> &'static str {
        match self {
            DecodeErrorKind::Syntax => "malformed document syntax",
            DecodeErrorKind::MissingField { field: SchemaField::Version } => (
                "missing required field: version"
            ),
            DecodeErrorKind::MissingField { field: SchemaField::Circuits } => (
                "missing required field: circuits"
            ),
            DecodeErrorKind::MissingField { field: SchemaField::Ops } => (
                "missing required field: ops"
            ),
            DecodeErrorKind::MissingField { field: SchemaField::Out } => (
                "missing required field: out"
            ),
            DecodeErrorKind::UnsupportedVersion => "unsupported artifact version",
            DecodeErrorKind::BadOperand => (
                "operand is neither a witness reference nor a numeral"
            ),
            DecodeErrorKind::UnknownGate => "unknown operation kind",
            DecodeErrorKind::WitnessIndexTooLarge => (
                "witness reference does not fit the index type"
            ),
            DecodeErrorKind::BadFieldDeclaration => (
                "declared field is not a decimal numeral"
            ),
            DecodeErrorKind::TrailingBytes => "content after the closing brace",
        }
    }
}

/// A rejected document, with the byte offset the decoder stopped at.
#[derive(Clone, Copy, PartialEq, Eq, Structural, Debug)]
pub struct DecodeError {
    pub pos: usize,
    pub kind: DecodeErrorKind,
}

/// Why projection rejected a literal or the declared field.
#[derive(Clone, Copy, PartialEq, Eq, Structural, Debug)]
pub enum FieldMismatchError {
    /// The artifact declares a field other than the configured one.
    DeclaredField,
    /// A constant equals or exceeds the field's modulus: it is no canonical
    /// residue and is never silently wrapped.
    LiteralOverflow { circuit: usize, op: usize },
}

/// The structural fault a projected operation shows.
#[derive(Clone, Copy, PartialEq, Eq, Structural, Debug)]
pub enum StructuralErrorKind {
    /// The operation's output witness is already defined by an earlier
    /// operation of the same circuit.
    DuplicateOut,
    /// An input references a witness the circuit has not defined yet: its
    /// index is not below the operation's output index.
    InputOutOfRange,
}

/// A structurally invalid witness reference, located by circuit and
/// operation index.
#[derive(Clone, Copy, PartialEq, Eq, Structural, Debug)]
pub struct StructuralError {
    pub circuit: usize,
    pub op: usize,
    pub kind: StructuralErrorKind,
}

/// Why projection failed.
#[derive(Clone, Copy, PartialEq, Eq, Structural, Debug)]
pub enum ProjectError {
    FieldMismatch { error: FieldMismatchError },
    Structure { error: StructuralError },
}

/// Why a load failed, by stage.
#[derive(Clone, Copy, PartialEq, Eq, Structural, Debug)]
pub enum LoadError {
    Decode { error: DecodeError },
    FieldMismatch { error: FieldMismatchError },
    Structure { error: StructuralError },
}

} // verus!
