use noir_r1cs::field::Base;
use noir_r1cs::field::FieldElement;
use noir_r1cs::field::LiteralError;
use noir_r1cs::field::MODULUS;
use noir_r1cs::load;
use noir_r1cs::model::Circuit;
use noir_r1cs::model::DecodeErrorKind;
use noir_r1cs::model::FieldMismatchError;
use noir_r1cs::model::LoadError;
use noir_r1cs::model::Op;
use noir_r1cs::model::OpKind;
use noir_r1cs::model::Operand;
use noir_r1cs::model::Program;
use noir_r1cs::model::SchemaField;
use noir_r1cs::model::StructuralErrorKind;

fn fe(v: u64) -> FieldElement {
    FieldElement::try_new(v).unwrap()
}

fn decode_kind(r: Result<Program, LoadError>) -> DecodeErrorKind {
    match r {
        Err(LoadError::Decode { error }) => error.kind,
        other => panic!("expected a decode error, got {:?}", other),
    }
}

#[test]
fn roundtrip_decimal() {
    for v in [0u64, 1, 9, 10, 12345, MODULUS - 1] {
        let x = fe(v);
        let text = x.to_decimal();
        let back = FieldElement::from_literal(&text).unwrap();
        assert_eq!(back, x);
    }
}

#[test]
fn roundtrip_hex() {
    for v in [0u64, 1, 15, 16, 255, 4096, MODULUS - 1] {
        let x = fe(v);
        let text = x.to_hex();
        let back = FieldElement::from_literal(&text).unwrap();
        assert_eq!(back, x);
    }
}

#[test]
fn decimal_and_hex_bind_to_the_same_element() {
    let d = FieldElement::from_literal(b"255").unwrap();
    let h = FieldElement::from_literal(b"0xff").unwrap();
    let hu = FieldElement::from_literal(b"0xFF").unwrap();
    assert_eq!(d, h);
    assert_eq!(d, hu);
    assert_eq!(d.as_u64(), 255);
}

#[test]
fn canonical_forms() {
    assert_eq!(fe(0).to_decimal(), b"0".to_vec());
    assert_eq!(fe(1234).to_decimal(), b"1234".to_vec());
    assert_eq!(fe(0).to_hex(), b"0x0".to_vec());
    assert_eq!(fe(255).to_hex(), b"0xff".to_vec());
    assert_eq!(fe(4096).to_hex(), b"0x1000".to_vec());
}

#[test]
fn literal_at_or_above_the_modulus_overflows() {
    assert_eq!(
        FieldElement::from_literal(b"2147483647"),
        Err(LiteralError::Overflow)
    );
    assert_eq!(
        FieldElement::from_literal(b"2147483648"),
        Err(LiteralError::Overflow)
    );
    assert_eq!(
        FieldElement::from_literal(b"99999999999999999999999999"),
        Err(LiteralError::Overflow)
    );
    assert_eq!(FieldElement::from_literal(b""), Err(LiteralError::Malformed));
    assert_eq!(FieldElement::from_literal(b"0x"), Err(LiteralError::Malformed));
    assert_eq!(FieldElement::from_literal(b"12a"), Err(LiteralError::Malformed));
    assert_eq!(FieldElement::from_literal(b"2147483646").unwrap().as_u64(), MODULUS - 1);
}

#[test]
fn from_numeral_binds_ranges() {
    let bytes = b"0012";
    let f = FieldElement::from_numeral(Base::Dec, bytes, 0, 4).unwrap();
    assert_eq!(f.as_u64(), 12);
    let g = FieldElement::from_numeral(Base::Hex, b"ff", 0, 2).unwrap();
    assert_eq!(g.as_u64(), 255);
}

#[test]
fn minimal_artifact_loads_end_to_end() {
    let text = br#"{"version":"1", "circuits":[{"ops":[{"add":["w0","w1"],"out":"w2"}]}]}"#;
    let program = load(text).unwrap();
    let expected = Program {
        circuits: vec![Circuit {
            ops: vec![Op {
                kind: OpKind::Add,
                lhs: Operand::Witness { index: 0 },
                rhs: Operand::Witness { index: 1 },
                out: 2,
            }],
        }],
    };
    assert_eq!(program, expected);
}

#[test]
fn loading_twice_yields_equal_programs() {
    let text =
        br#"{"version":"1", "circuits":[{"ops":[{"mul":["w0","17"],"out":"w1"},{"add":["w1","0x10"],"out":"w2"}]}]}"#;
    let first = load(text).unwrap();
    let second = load(text).unwrap();
    assert_eq!(first, second);
    assert_eq!(first.circuits.len(), 1);
    assert_eq!(first.circuits[0].ops.len(), 2);
    assert_eq!(first.circuits[0].ops[0].rhs, Operand::Constant { value: fe(17) });
    assert_eq!(first.circuits[0].ops[1].rhs, Operand::Constant { value: fe(16) });
}

#[test]
fn empty_circuit_list_is_a_valid_program() {
    let program = load(br#"{"version":"1","circuits":[]}"#).unwrap();
    assert_eq!(program.circuits.len(), 0);
}

#[test]
fn empty_ops_list_is_a_valid_circuit() {
    let program = load(br#"{"version":"1","circuits":[{"ops":[]}]}"#).unwrap();
    assert_eq!(program.circuits.len(), 1);
    assert_eq!(program.circuits[0].ops.len(), 0);
}

#[test]
fn whitespace_between_tokens_is_accepted() {
    let text = b" {\n\t\"version\" : \"1\" ,\r\n \"circuits\" : [ { \"ops\" : [ ] } ] } ";
    let program = load(text).unwrap();
    assert_eq!(program.circuits.len(), 1);
}

#[test]
fn missing_version_is_rejected() {
    let kind = decode_kind(load(br#"{"circuits":[]}"#));
    assert_eq!(kind, DecodeErrorKind::MissingField { field: SchemaField::Version });
    let kind = decode_kind(load(br#"{}"#));
    assert_eq!(kind, DecodeErrorKind::MissingField { field: SchemaField::Version });
}

#[test]
fn missing_circuits_is_rejected() {
    let kind = decode_kind(load(br#"{"version":"1"}"#));
    assert_eq!(kind, DecodeErrorKind::MissingField { field: SchemaField::Circuits });
}

#[test]
fn missing_out_is_rejected() {
    let kind = decode_kind(load(
        br#"{"version":"1","circuits":[{"ops":[{"add":["w0","w1"]}]}]}"#,
    ));
    assert_eq!(kind, DecodeErrorKind::MissingField { field: SchemaField::Out });
}

#[test]
fn unsupported_version_is_rejected() {
    let kind = decode_kind(load(br#"{"version":"2","circuits":[]}"#));
    assert_eq!(kind, DecodeErrorKind::UnsupportedVersion);
    assert_eq!(kind.describe(), "unsupported artifact version");
    let kind = decode_kind(load(br#"{"version":"","circuits":[]}"#));
    assert_eq!(kind, DecodeErrorKind::UnsupportedVersion);
}

#[test]
fn unknown_gate_is_rejected() {
    let kind = decode_kind(load(
        br#"{"version":"1","circuits":[{"ops":[{"sub":["w0","w1"],"out":"w2"}]}]}"#,
    ));
    assert_eq!(kind, DecodeErrorKind::UnknownGate);
}

#[test]
fn bad_operand_is_rejected() {
    let kind = decode_kind(load(
        br#"{"version":"1","circuits":[{"ops":[{"add":["bogus","w1"],"out":"w2"}]}]}"#,
    ));
    assert_eq!(kind, DecodeErrorKind::BadOperand);
}

#[test]
fn oversized_witness_reference_is_rejected() {
    let kind = decode_kind(load(
        br#"{"version":"1","circuits":[{"ops":[{"add":["w4294967296","w1"],"out":"w2"}]}]}"#,
    ));
    assert_eq!(kind, DecodeErrorKind::WitnessIndexTooLarge);
}

#[test]
fn trailing_content_is_rejected() {
    let kind = decode_kind(load(br#"{"version":"1","circuits":[]} x"#));
    assert_eq!(kind, DecodeErrorKind::TrailingBytes);
}

#[test]
fn syntax_error_reports_an_offset() {
    match load(b"nonsense") {
        Err(LoadError::Decode { error }) => {
            assert_eq!(error.kind, DecodeErrorKind::Syntax);
            assert_eq!(error.pos, 0);
        }
        other => panic!("expected a decode error, got {:?}", other),
    }
}

#[test]
fn undefined_input_witness_is_rejected() {
    let r = load(br#"{"version":"1","circuits":[{"ops":[{"add":["w5","w1"],"out":"w2"}]}]}"#);
    match r {
        Err(LoadError::Structure { error }) => {
            assert_eq!(error.kind, StructuralErrorKind::InputOutOfRange);
            assert_eq!(error.circuit, 0);
            assert_eq!(error.op, 0);
        }
        other => panic!("expected a structural error, got {:?}", other),
    }
}

#[test]
fn duplicate_output_witness_is_rejected() {
    let r = load(
        br#"{"version":"1","circuits":[{"ops":[{"add":["w0","w1"],"out":"w2"},{"mul":["w0","w1"],"out":"w2"}]}]}"#,
    );
    match r {
        Err(LoadError::Structure { error }) => {
            assert_eq!(error.kind, StructuralErrorKind::DuplicateOut);
            assert_eq!(error.op, 1);
        }
        other => panic!("expected a structural error, got {:?}", other),
    }
}

#[test]
fn literal_at_the_modulus_fails_the_field_binding() {
    let r = load(
        br#"{"version":"1","circuits":[{"ops":[{"add":["2147483647","w1"],"out":"w2"}]}]}"#,
    );
    match r {
        Err(LoadError::FieldMismatch { error }) => {
            assert_eq!(error, FieldMismatchError::LiteralOverflow { circuit: 0, op: 0 });
        }
        other => panic!("expected a field mismatch, got {:?}", other),
    }
    let r = load(
        br#"{"version":"1","circuits":[{"ops":[{"add":["0x80000000","w1"],"out":"w2"}]}]}"#,
    );
    assert!(matches!(r, Err(LoadError::FieldMismatch { .. })));
}

#[test]
fn agreeing_field_declaration_is_accepted() {
    let program = load(br#"{"version":"1","field":"2147483647","circuits":[]}"#).unwrap();
    assert_eq!(program.circuits.len(), 0);
}

#[test]
fn disagreeing_field_declaration_is_rejected() {
    let r = load(br#"{"version":"1","field":"7","circuits":[]}"#);
    match r {
        Err(LoadError::FieldMismatch { error }) => {
            assert_eq!(error, FieldMismatchError::DeclaredField);
        }
        other => panic!("expected a field mismatch, got {:?}", other),
    }
    let r = load(br#"{"version":"1","field":"18446744073709551629","circuits":[]}"#);
    assert!(matches!(
        r,
        Err(LoadError::FieldMismatch { error: FieldMismatchError::DeclaredField })
    ));
}

#[test]
fn malformed_field_declaration_is_rejected_at_decode() {
    let kind = decode_kind(load(br#"{"version":"1","field":"p25519","circuits":[]}"#));
    assert_eq!(kind, DecodeErrorKind::BadFieldDeclaration);
}

#[test]
fn several_circuits_keep_their_order() {
    let text = br#"{"version":"1","circuits":[{"ops":[{"add":["w0","1"],"out":"w1"}]},{"ops":[{"mul":["w0","2"],"out":"w1"}]}]}"#;
    let program = load(text).unwrap();
    assert_eq!(program.circuits.len(), 2);
    assert_eq!(program.circuits[0].ops[0].kind, OpKind::Add);
    assert_eq!(program.circuits[1].ops[0].kind, OpKind::Mul);
    assert_eq!(program.circuits[0].ops[0].rhs, Operand::Constant { value: fe(1) });
    assert_eq!(program.circuits[1].ops[0].rhs, Operand::Constant { value: fe(2) });
}
