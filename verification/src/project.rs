//! The projection stage: from a validated artifact to a field-bound program.
//!
//! Projection binds every constant of the artifact to the configured field,
//! failing with a field mismatch when a literal is no canonical residue or
//! when the artifact declares a different field, and checks the witness
//! references of every operation, failing with a structural error when an
//! output witness is defined twice or an input references a witness not yet
//! defined. Faults are reported for the first offending operation in
//! document order: output duplication first, then the left operand, then the
//! right, each checked for range before overflow. Extraction of the program
//! from the compiled form is structural and total.

use vstd::prelude::*;

use crate::field::Base;
use crate::field::numeral_value;
use crate::field::digit_value;
use crate::field::FieldElement;
use crate::field::MODULUS;
use crate::model::ArtifactCircuit;
use crate::model::ArtifactCircuitV;
use crate::model::ArtifactOpV;
use crate::model::ArtifactOperand;
use crate::model::ArtifactOperandV;
use crate::model::Circuit;
use crate::model::CompiledProgram;
use crate::model::FieldMismatchError;
use crate::model::Op;
use crate::model::OpV;
use crate::model::Operand;
use crate::model::OperandV;
use crate::model::Program;
use crate::model::ProgramArtifact;
use crate::model::ProgramArtifactV;
use crate::model::ProjectError;
use crate::model::StructuralError;
use crate::model::StructuralErrorKind;

verus! {

/// The operation's output witness is already defined among the earlier
/// operations of its circuit.
pub open spec fn dup_out(op: ArtifactOpV, prefix: Seq<ArtifactOpV>) -> bool {
    exists|j: int| 0 <= j < prefix.len() && prefix[j].out == op.out
}

/// A witness input must reference a witness defined before the operation's
/// own output; constants are always in range.
pub open spec fn operand_in_range(o: ArtifactOperandV, out: u32) -> bool {
    match o {
        ArtifactOperandV::Witness { index } => index < out,
        ArtifactOperandV::Constant { .. } => true,
    }
}

/// A constant operand whose value is no canonical residue of the field.
pub open spec fn operand_overflows(o: ArtifactOperandV) -> bool {
    match o {
        ArtifactOperandV::Constant { base, digits } => numeral_value(base, digits) >= MODULUS
            as nat,
        ArtifactOperandV::Witness { .. } => false,
    }
}

/// The error of one operation against the operations before it, if any.
pub open spec fn spec_op_error(ci: int, oi: int, op: ArtifactOpV, prefix: Seq<ArtifactOpV>) -> Option<
    ProjectError,
> {
    if dup_out(op, prefix) {
        Some(
            ProjectError::Structure {
                error: StructuralError {
                    circuit: ci as usize,
                    op: oi as usize,
                    kind: StructuralErrorKind::DuplicateOut,
                },
            },
        )
    } else if !operand_in_range(op.lhs, op.out) {
        Some(
            ProjectError::Structure {
                error: StructuralError {
                    circuit: ci as usize,
                    op: oi as usize,
                    kind: StructuralErrorKind::InputOutOfRange,
                },
            },
        )
    } else if operand_overflows(op.lhs) {
        Some(
            ProjectError::FieldMismatch {
                error: FieldMismatchError::LiteralOverflow {
                    circuit: ci as usize,
                    op: oi as usize,
                },
            },
        )
    } else if !operand_in_range(op.rhs, op.out) {
        Some(
            ProjectError::Structure {
                error: StructuralError {
                    circuit: ci as usize,
                    op: oi as usize,
                    kind: StructuralErrorKind::InputOutOfRange,
                },
            },
        )
    } else if operand_overflows(op.rhs) {
        Some(
            ProjectError::FieldMismatch {
                error: FieldMismatchError::LiteralOverflow {
                    circuit: ci as usize,
                    op: oi as usize,
                },
            },
        )
    } else {
        None
    }
}

/// The first error of a circuit's operations from index `k` on, if any.
pub open spec fn spec_circuit_error(ci: int, ops: Seq<ArtifactOpV>, k: int) -> Option<ProjectError>
    decreases ops.len() - k,
{
    if !(0 <= k < ops.len()) {
        None
    } else {
        match spec_op_error(ci, k, ops[k], ops.take(k)) {
            Some(e) => Some(e),
            None => spec_circuit_error(ci, ops, k + 1),
        }
    }
}

/// The first error of the circuits from index `i` on, if any.
pub open spec fn spec_circuits_error(cs: Seq<ArtifactCircuitV>, i: int) -> Option<ProjectError>
    decreases cs.len() - i,
{
    if !(0 <= i < cs.len()) {
        None
    } else {
        match spec_circuit_error(i, cs[i].ops, 0) {
            Some(e) => Some(e),
            None => spec_circuits_error(cs, i + 1),
        }
    }
}

/// The artifact's declared field, when present, must be the configured
/// modulus.
pub open spec fn spec_field_ok(declared: Option<Seq<u8>>) -> bool {
    match declared {
        None => true,
        Some(d) => numeral_value(Base::Dec, d) == MODULUS as nat,
    }
}

/// An operand with its constant bound to the field.
pub open spec fn resolve_operand(o: ArtifactOperandV) -> OperandV {
    match o {
        ArtifactOperandV::Witness { index } => OperandV::Witness { index },
        ArtifactOperandV::Constant { base, digits } => OperandV::Constant {
            value: numeral_value(base, digits),
        },
    }
}

/// An operation with its operands bound to the field.
pub open spec fn resolve_op(op: ArtifactOpV) -> OpV {
    OpV { kind: op.kind, lhs: resolve_operand(op.lhs), rhs: resolve_operand(op.rhs), out: op.out }
}

/// A circuit with its operations bound to the field.
pub open spec fn resolve_circuit(c: ArtifactCircuitV) -> Seq<OpV> {
    Seq::new(c.ops.len(), |i: int| resolve_op(c.ops[i]))
}

/// What projection returns: the resolved circuits, or the artifact's first
/// fault in scan order.
pub open spec fn spec_project(a: ProgramArtifactV) -> Result<Seq<Seq<OpV>>, ProjectError> {
    if !spec_field_ok(a.declared_field) {
        Err(ProjectError::FieldMismatch { error: FieldMismatchError::DeclaredField })
    } else {
        match spec_circuits_error(a.circuits, 0) {
            Some(e) => Err(e),
            None => Ok(Seq::new(a.circuits.len(), |i: int| resolve_circuit(a.circuits[i]))),
        }
    }
}

/// Decides whether a decimal digit string denotes exactly the configured
/// modulus.
fn dec_equals_modulus(d: &Vec<u8>) -> (r: bool)
    ensures
        r == (numeral_value(Base::Dec, d@) == MODULUS as nat),
{
    let mut acc: u64 = 0;
    let mut over: bool = false;
    let mut i: usize = 0;
    while i < d.len()
        invariant
            i <= d@.len(),
            over <==> numeral_value(Base::Dec, d@.take(i as int)) > MODULUS as nat,
            !over ==> acc as nat == numeral_value(Base::Dec, d@.take(i as int)),
            !over ==> acc <= MODULUS,
        decreases d@.len() - i,
    {
        let ghost prefix = d@.take(i as int);
        let ghost next = d@.take(i + 1);
        proof {
            assert(next.drop_last() =~= prefix);
            assert(next.last() == d@[i as int]);
            assert(numeral_value(Base::Dec, next) == numeral_value(Base::Dec, prefix) * 10
                + digit_value(d@[i as int]));
        }
        let b = d[i];
        let dv: u64 = if 48 <= b && b <= 57 {
            (b - 48) as u64
        } else if 97 <= b && b <= 102 {
            (b - 97 + 10) as u64
        } else if 65 <= b && b <= 70 {
            (b - 65 + 10) as u64
        } else {
            0
        };
        if !over {
            let nv: u64 = acc * 10 + dv;
            if nv > MODULUS {
                over = true;
            } else {
                acc = nv;
            }
        }
        i = i + 1;
    }
    proof {
        assert(d@.take(d@.len() as int) =~= d@);
    }
    !over && acc == MODULUS
}

/// The fault an operand shows against its operation's output, if any.
enum OperandFault {
    OutOfRange,
    Overflow,
}

/// Binds one operand, checking range before overflow.
fn project_operand(o: &ArtifactOperand, out: u32) -> (r: Result<Operand, OperandFault>)
    ensures
        match r {
            Ok(p) => operand_in_range(o@, out) && !operand_overflows(o@) && p@ == resolve_operand(
                o@,
            ),
            Err(OperandFault::OutOfRange) => !operand_in_range(o@, out),
            Err(OperandFault::Overflow) => operand_in_range(o@, out) && operand_overflows(o@),
        },
{
    match o {
        ArtifactOperand::Witness { index } => {
            if *index < out {
                Ok(Operand::Witness { index: *index })
            } else {
                Err(OperandFault::OutOfRange)
            }
        },
        ArtifactOperand::Constant { base, digits } => {
            proof {
                assert(digits@.subrange(0, digits@.len() as int) =~= digits@);
            }
            match FieldElement::from_numeral(*base, digits.as_slice(), 0, digits.len()) {
                Some(f) => Ok(Operand::Constant { value: f }),
                None => Err(OperandFault::Overflow),
            }
        },
    }
}

/// Binds one circuit, reporting its first faulty operation.
fn project_circuit(ci: usize, c: &ArtifactCircuit) -> (r: Result<Circuit, ProjectError>)
    ensures
        match (r, spec_circuit_error(ci as int, c@.ops, 0)) {
            (Ok(cc), None) => cc@ == resolve_circuit(c@),
            (Err(e), Some(f)) => e == f,
            _ => false,
        },
{
    let ghost opsv = c@.ops;
    let mut ops: Vec<Op> = Vec::new();
    let mut k: usize = 0;
    while k < c.ops.len()
        invariant
            k <= c.ops@.len(),
            opsv == c@.ops,
            opsv.len() == c.ops@.len(),
            forall|t: int| 0 <= t < opsv.len() ==> opsv[t] == c.ops@[t]@,
            spec_circuit_error(ci as int, opsv, 0) == spec_circuit_error(ci as int, opsv, k as int),
            ops@.len() == k,
            forall|t: int| 0 <= t < k ==> ops@[t]@ == resolve_op(opsv[t]),
        decreases c.ops@.len() - k,
    {
        let aop = &c.ops[k];
        let ghost prefix = opsv.take(k as int);
        // Duplicate-output check against the earlier operations.
        let mut dup = false;
        let mut j: usize = 0;
        while j < k
            invariant
                j <= k <= c.ops@.len(),
                opsv.len() == c.ops@.len(),
                forall|t: int| 0 <= t < opsv.len() ==> opsv[t] == c.ops@[t]@,
                prefix =~= opsv.take(k as int),
                aop == c.ops@[k as int],
                k < c.ops@.len(),
                dup ==> dup_out(opsv[k as int], prefix),
                !dup ==> forall|t: int| 0 <= t < j ==> prefix[t].out != opsv[k as int].out,
            decreases k - j,
        {
            if c.ops[j].out == aop.out {
                proof {
                    assert(prefix[j as int].out == opsv[k as int].out);
                }
                dup = true;
            }
            j = j + 1;
        }
        if dup {
            return Err(
                ProjectError::Structure {
                    error: StructuralError {
                        circuit: ci,
                        op: k,
                        kind: StructuralErrorKind::DuplicateOut,
                    },
                },
            );
        }
        proof {
            assert(!dup_out(opsv[k as int], prefix));
        }
        let lhs = match project_operand(&aop.lhs, aop.out) {
            Ok(p) => p,
            Err(OperandFault::OutOfRange) => {
                return Err(
                    ProjectError::Structure {
                        error: StructuralError {
                            circuit: ci,
                            op: k,
                            kind: StructuralErrorKind::InputOutOfRange,
                        },
                    },
                );
            },
            Err(OperandFault::Overflow) => {
                return Err(
                    ProjectError::FieldMismatch {
                        error: FieldMismatchError::LiteralOverflow { circuit: ci, op: k },
                    },
                );
            },
        };
        let rhs = match project_operand(&aop.rhs, aop.out) {
            Ok(p) => p,
            Err(OperandFault::OutOfRange) => {
                return Err(
                    ProjectError::Structure {
                        error: StructuralError {
                            circuit: ci,
                            op: k,
                            kind: StructuralErrorKind::InputOutOfRange,
                        },
                    },
                );
            },
            Err(OperandFault::Overflow) => {
                return Err(
                    ProjectError::FieldMismatch {
                        error: FieldMismatchError::LiteralOverflow { circuit: ci, op: k },
                    },
                );
            },
        };
        let op = Op { kind: aop.kind, lhs, rhs, out: aop.out };
        proof {
            assert(spec_op_error(ci as int, k as int, opsv[k as int], prefix) is None);
            assert(op@ == resolve_op(opsv[k as int]));
        }
        ops.push(op);
        k = k + 1;
    }
    let circuit = Circuit { ops };
    proof {
        assert(circuit@ =~= resolve_circuit(c@));
    }
    Ok(circuit)
}

impl CompiledProgram {
    /// Converts the validated artifact's field-generic values into concrete
    /// elements of the configured field: fails with a field mismatch when
    /// the declared field disagrees or a literal is no canonical residue,
    /// and with a structural error on a duplicated output witness or an
    /// input witness the circuit has not defined.
    pub fn project(artifact: ProgramArtifact) -> (r: Result<CompiledProgram, ProjectError>)
        ensures
            match (r, spec_project(artifact@)) {
                (Ok(c), Ok(pv)) => c@ == pv,
                (Err(e), Err(f)) => e == f,
                _ => false,
            },
    {
        match &artifact.declared_field {
            Some(d) => {
                if !dec_equals_modulus(d) {
                    return Err(
                        ProjectError::FieldMismatch { error: FieldMismatchError::DeclaredField },
                    );
                }
            },
            None => {},
        }
        let ghost csv = artifact@.circuits;
        let mut circuits: Vec<Circuit> = Vec::new();
        let mut ci: usize = 0;
        while ci < artifact.circuits.len()
            invariant
                ci <= artifact.circuits@.len(),
                spec_field_ok(artifact@.declared_field),
                csv == artifact@.circuits,
                csv.len() == artifact.circuits@.len(),
                forall|t: int| 0 <= t < csv.len() ==> csv[t] == artifact.circuits@[t]@,
                spec_circuits_error(csv, 0) == spec_circuits_error(csv, ci as int),
                circuits@.len() == ci,
                forall|t: int| 0 <= t < ci ==> circuits@[t]@ == resolve_circuit(csv[t]),
            decreases artifact.circuits@.len() - ci,
        {
            match project_circuit(ci, &artifact.circuits[ci]) {
                Ok(cc) => {
                    circuits.push(cc);
                },
                Err(e) => {
                    proof {
                        assert(csv[ci as int] == artifact.circuits@[ci as int]@);
                        assert(spec_circuits_error(csv, ci as int) == Some(e));
                    }
                    return Err(e);
                },
            }
            ci = ci + 1;
        }
        let program = Program { circuits };
        proof {
            assert(program@ =~= Seq::new(csv.len(), |i: int| resolve_circuit(csv[i])));
        }
        Ok(CompiledProgram { program })
    }

    /// Pulls the ordered circuits out of a compiled program for downstream
    /// use. Purely structural: total, and the program is returned unchanged.
    pub fn extract_program(self) -> (p: Program)
        ensures
            p@ == self@,
    {
        self.program
    }
}

} // verus!
