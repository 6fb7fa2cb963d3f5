//! Loader for serialized arithmetic-circuit artifacts.
//!
//! An artifact is an untrusted textual document describing a program of
//! arithmetic circuits over a fixed prime field. Loading proceeds in three
//! stages, each with its own failure class: `decode` (syntax and schema),
//! `project` (binding literals to the configured field, structural checks on
//! witness references), and `extract_program` (structural, total). `load`
//! composes the three.

use vstd::prelude::*;

pub mod field;
pub mod model;
pub mod decode;
pub mod project;

use crate::decode::spec_decode;
use crate::model::LoadError;
use crate::model::OpV;
use crate::model::Program;
use crate::model::ProgramArtifactV;
use crate::model::ProjectError;
use crate::model::CompiledProgram;
use crate::project::operand_overflows;
use crate::project::spec_circuit_error;
use crate::project::spec_circuits_error;
use crate::project::spec_op_error;
use crate::project::spec_project;

verus! {

/// What a load returns: the program of the document, or the first fault of
/// the failing stage.
pub open spec fn spec_load(s: Seq<u8>) -> Result<Seq<Seq<OpV>>, LoadError> {
    match spec_decode(s) {
        Err(e) => Err(LoadError::Decode { error: e }),
        Ok(a) => match spec_project(a) {
            Err(ProjectError::FieldMismatch { error }) => Err(LoadError::FieldMismatch { error }),
            Err(ProjectError::Structure { error }) => Err(LoadError::Structure { error }),
            Ok(p) => Ok(p),
        },
    }
}

/// Loads an artifact document: decodes the bytes, projects the artifact
/// onto the configured field, and extracts the program. All-or-nothing: on
/// any fault the error of the failing stage is returned and no program.
pub fn load(bytes: &[u8]) -> (r: Result<Program, LoadError>)
    ensures
        match (r, spec_load(bytes@)) {
            (Ok(p), Ok(pv)) => p@ == pv,
            (Err(e), Err(f)) => e == f,
            _ => false,
        },
{
    let artifact = match crate::decode::decode(bytes) {
        Err(e) => {
            return Err(LoadError::Decode { error: e });
        },
        Ok(a) => a,
    };
    let compiled = match CompiledProgram::project(artifact) {
        Err(ProjectError::FieldMismatch { error }) => {
            return Err(LoadError::FieldMismatch { error });
        },
        Err(ProjectError::Structure { error }) => {
            return Err(LoadError::Structure { error });
        },
        Ok(c) => c,
    };
    Ok(compiled.extract_program())
}

/// Law: loading is a function of the document text alone. Two loads of the
/// same text yield the same outcome, so decoding the same valid artifact
/// twice yields structurally equal programs.
pub proof fn lemma_load_deterministic(
    s: Seq<u8>,
    r1: Result<Seq<Seq<OpV>>, LoadError>,
    r2: Result<Seq<Seq<OpV>>, LoadError>,
)
    requires
        r1 == spec_load(s),
        r2 == spec_load(s),
    ensures
        r1 == r2,
{
}

/// Law: an artifact with no circuits and an agreeing field projects to a
/// program with an empty circuit list, never to an error.
pub proof fn lemma_project_empty(a: ProgramArtifactV)
    requires
        a.circuits.len() == 0,
        crate::project::spec_field_ok(a.declared_field),
    ensures
        spec_project(a) == Ok::<_, ProjectError>(Seq::<Seq<OpV>>::empty()),
{
    assert(spec_circuits_error(a.circuits, 0) is None);
    assert(Seq::new(a.circuits.len(), |i: int| crate::project::resolve_circuit(a.circuits[i]))
        =~= Seq::<Seq<OpV>>::empty());
}

proof fn lemma_circuit_error_none(ci: int, ops: Seq<crate::model::ArtifactOpV>, k: int)
    requires
        0 <= k <= ops.len(),
        spec_circuit_error(ci, ops, k) is None,
    ensures
        forall|t: int|
            k <= t < ops.len() ==> spec_op_error(ci, t, #[trigger] ops[t], ops.take(t)) is None,
    decreases ops.len() - k,
{
    if k < ops.len() {
        lemma_circuit_error_none(ci, ops, k + 1);
    }
}

/// Law: projection never wraps a constant into the field. When it succeeds,
/// every literal of the artifact is already a canonical residue: one equal
/// to the modulus or above fails with a field mismatch instead.
pub proof fn lemma_no_silent_wrap(a: ProgramArtifactV)
    requires
        spec_project(a) is Ok,
    ensures
        forall|ci: int, oi: int|
            0 <= ci < a.circuits.len() && 0 <= oi < (#[trigger] a.circuits[ci]).ops.len() ==> {
                &&& !operand_overflows(#[trigger] a.circuits[ci].ops[oi].lhs)
                &&& !operand_overflows(a.circuits[ci].ops[oi].rhs)
            },
{
    assert forall|ci: int|
        0 <= ci < a.circuits.len() implies spec_circuit_error(
        ci,
        #[trigger] a.circuits[ci].ops,
        0,
    ) is None by {
        lemma_circuits_error_none(a.circuits, 0, ci);
    }
    assert forall|ci: int, oi: int|
        0 <= ci < a.circuits.len() && 0 <= oi < (#[trigger] a.circuits[ci]).ops.len() implies {
        &&& !operand_overflows(#[trigger] a.circuits[ci].ops[oi].lhs)
        &&& !operand_overflows(a.circuits[ci].ops[oi].rhs)
    } by {
        lemma_circuit_error_none(ci, a.circuits[ci].ops, 0);
        assert(spec_op_error(
            ci,
            oi,
            a.circuits[ci].ops[oi],
            a.circuits[ci].ops.take(oi),
        ) is None);
    }
}

proof fn lemma_circuits_error_none(cs: Seq<crate::model::ArtifactCircuitV>, k: int, ci: int)
    requires
        0 <= k <= ci < cs.len(),
        spec_circuits_error(cs, k) is None,
    ensures
        spec_circuit_error(ci, cs[ci].ops, 0) is None,
    decreases ci - k,
{
    if k < ci {
        lemma_circuits_error_none(cs, k + 1, ci);
    }
}

proof fn lemma_circuits_value_version(
    s: Seq<u8>,
    version: Seq<u8>,
    df: Option<Seq<u8>>,
    p: int,
    a: ProgramArtifactV,
)
    requires
        crate::decode::spec_parse_circuits_value(s, version, df, p) == Ok::<_, crate::model::DecodeError>(a),
    ensures
        a.version == version,
{
}

proof fn lemma_circuits_key_version(
    s: Seq<u8>,
    version: Seq<u8>,
    df: Option<Seq<u8>>,
    p: int,
    a: ProgramArtifactV,
)
    requires
        crate::decode::spec_parse_circuits_key(s, version, df, p) == Ok::<_, crate::model::DecodeError>(a),
    ensures
        a.version == version,
{
    let p1 = crate::decode::spec_skip_ws(s, p);
    let p2 = crate::decode::spec_skip_ws(s, p1 + 1);
    match crate::decode::spec_scan_string(s, p2) {
        None => {},
        Some((cs, ce, after)) => {
            match crate::decode::spec_after_key(s, after) {
                Err(_) => {},
                Ok(q) => {
                    if crate::decode::spec_parse_circuits_value(s, version, df, q) == Ok::<
                        _,
                        crate::model::DecodeError,
                    >(a) {
                        lemma_circuits_value_version(s, version, df, q, a);
                    }
                },
            }
        },
    }
}

proof fn lemma_after_version_version(s: Seq<u8>, version: Seq<u8>, p: int, a: ProgramArtifactV)
    requires
        crate::decode::spec_parse_after_version(s, version, p) == Ok::<_, crate::model::DecodeError>(a),
    ensures
        a.version == version,
{
    let p1 = crate::decode::spec_skip_ws(s, p);
    let p2 = crate::decode::spec_skip_ws(s, p1 + 1);
    match crate::decode::spec_scan_string(s, p2) {
        None => {},
        Some((cs, ce, after)) => {
            match crate::decode::spec_after_key(s, after) {
                Err(_) => {},
                Ok(q) => {
                    match crate::decode::spec_scan_string(s, q) {
                        None => {},
                        Some((fs, fe, fafter)) => {
                            if crate::decode::spec_parse_circuits_key(
                                s,
                                version,
                                Some(s.subrange(fs, fe)),
                                fafter,
                            ) == Ok::<_, crate::model::DecodeError>(a) {
                                lemma_circuits_key_version(
                                    s,
                                    version,
                                    Some(s.subrange(fs, fe)),
                                    fafter,
                                    a,
                                );
                            }
                        },
                    }
                    if crate::decode::spec_parse_circuits_value(s, version, None, q) == Ok::<
                        _,
                        crate::model::DecodeError,
                    >(a) {
                        lemma_circuits_value_version(s, version, None, q, a);
                    }
                },
            }
        },
    }
}

/// Law: only a document carrying the supported version tag produces an
/// artifact; any other version is rejected before a program exists.
pub proof fn lemma_decode_version(s: Seq<u8>, a: ProgramArtifactV)
    requires
        spec_decode(s) == Ok::<_, crate::model::DecodeError>(a),
    ensures
        a.version == seq![crate::decode::B_ONE],
{
    let i0 = crate::decode::spec_skip_ws(s, 0);
    let i1 = crate::decode::spec_skip_ws(s, i0 + 1);
    match crate::decode::spec_scan_string(s, i1) {
        None => {},
        Some((cs, ce, after)) => {
            match crate::decode::spec_after_key(s, after) {
                Err(_) => {},
                Ok(p) => {
                    match crate::decode::spec_scan_string(s, p) {
                        None => {},
                        Some((vs, ve, vafter)) => {
                            if s.subrange(vs, ve) == seq![crate::decode::B_ONE] {
                                lemma_after_version_version(s, s.subrange(vs, ve), vafter, a);
                            }
                        },
                    }
                },
            }
        },
    }
}

/// Law: a projected program never references an undefined witness. When
/// projection succeeds, every input witness of an operation lies below the
/// operation's own output index, and no two operations of a circuit define
/// the same output; a document violating either is rejected with a
/// structural error instead.
pub proof fn lemma_witness_references_sound(a: ProgramArtifactV)
    requires
        spec_project(a) is Ok,
    ensures
        forall|ci: int, oi: int|
            0 <= ci < a.circuits.len() && 0 <= oi < (#[trigger] a.circuits[ci]).ops.len() ==> {
                &&& crate::project::operand_in_range(
                    (#[trigger] a.circuits[ci].ops[oi]).lhs,
                    a.circuits[ci].ops[oi].out,
                )
                &&& crate::project::operand_in_range(
                    a.circuits[ci].ops[oi].rhs,
                    a.circuits[ci].ops[oi].out,
                )
                &&& !crate::project::dup_out(
                    a.circuits[ci].ops[oi],
                    a.circuits[ci].ops.take(oi),
                )
            },
{
    assert forall|ci: int|
        0 <= ci < a.circuits.len() implies spec_circuit_error(
        ci,
        #[trigger] a.circuits[ci].ops,
        0,
    ) is None by {
        lemma_circuits_error_none(a.circuits, 0, ci);
    }
    assert forall|ci: int, oi: int|
        0 <= ci < a.circuits.len() && 0 <= oi < (#[trigger] a.circuits[ci]).ops.len() implies {
        &&& crate::project::operand_in_range(
            (#[trigger] a.circuits[ci].ops[oi]).lhs,
            a.circuits[ci].ops[oi].out,
        )
        &&& crate::project::operand_in_range(
            a.circuits[ci].ops[oi].rhs,
            a.circuits[ci].ops[oi].out,
        )
        &&& !crate::project::dup_out(a.circuits[ci].ops[oi], a.circuits[ci].ops.take(oi))
    } by {
        lemma_circuit_error_none(ci, a.circuits[ci].ops, 0);
        assert(spec_op_error(
            ci,
            oi,
            a.circuits[ci].ops[oi],
            a.circuits[ci].ops.take(oi),
        ) is None);
    }
}

} // verus!
