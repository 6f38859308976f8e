use spacesuit::program::{Instruction, Program, ProgramItem};
use spacesuit::types::{Commitment, Predicate, ScalarWitness, String, VMError};

fn point_bytes() -> Vec<u8> {
    (1u8..=32).collect()
}

#[test]
fn empty_program_has_no_bytecode() {
    let p = Program::new();
    assert!(p.to_bytes().is_empty());
    assert!(Program::new().to_vec().is_empty());
}

#[test]
fn program_bytecode() {
    let mut p = Program::new();
    p.push(String::Opaque(vec![7, 8, 9]));
    p.cloak(2, 3);
    p.drop();
    p.call();
    assert_eq!(
        p.to_bytes(),
        vec![0x00, 3, 0, 0, 0, 7, 8, 9, 0x18, 2, 0, 0, 0, 3, 0, 0, 0, 0x02, 0x1d]
    );
    assert_eq!(p.to_vec().len(), 4);
}

#[test]
fn nested_program_bytecode() {
    let mut inner = Program::new();
    inner.drop();
    inner.call();
    let mut outer = Program::new();
    outer.program(ProgramItem::Program(inner));
    outer.program(ProgramItem::Bytecode(vec![0xaa]));
    assert_eq!(outer.to_bytes(), vec![0x01, 2, 0, 0, 0, 0x02, 0x1d, 0x01, 1, 0, 0, 0, 0xaa]);
}

#[test]
fn program_item_views() {
    let mut inner = Program::new();
    inner.drop();
    let item = ProgramItem::Program(inner);
    assert_eq!(item.to_bytes(), vec![0x02]);
    let prog = item.to_program().unwrap();
    assert!(matches!(prog.to_vec()[0], Instruction::Drop));
    assert_eq!(ProgramItem::Bytecode(vec![5, 6]).to_bytes(), vec![5, 6]);
    assert_eq!(ProgramItem::Bytecode(vec![5, 6]).to_bytecode(), Ok(vec![5, 6]));
    assert!(matches!(ProgramItem::Bytecode(vec![5]).to_program(), Err(VMError::TypeNotProgram)));
    assert!(matches!(
        ProgramItem::Program(Program::new()).to_bytecode(),
        Err(VMError::TypeNotProgram)
    ));
}

#[test]
fn opaque_string_to_predicate_and_back() {
    let pred = String::Opaque(point_bytes()).to_predicate().unwrap();
    assert_eq!(String::Predicate(Box::new(pred)).to_bytes(), point_bytes());
    assert!(matches!(String::Opaque(vec![1, 2, 3]).to_predicate(), Err(VMError::FormatError)));
    assert!(matches!(
        String::Opaque(vec![]).to_bytes().len(),
        0
    ));
}

#[test]
fn opaque_string_to_commitment() {
    let com = String::Opaque(point_bytes()).to_commitment().unwrap();
    assert_eq!(String::Commitment(Box::new(com)).to_bytes(), point_bytes());
    assert!(matches!(String::Opaque(vec![0; 33]).to_commitment(), Err(VMError::FormatError)));
    let pred = String::Opaque(point_bytes()).to_predicate().unwrap();
    assert!(matches!(
        String::Predicate(Box::new(pred)).to_commitment(),
        Err(VMError::TypeNotCommitment)
    ));
}

#[test]
fn opaque_string_to_scalar() {
    let mut bytes = vec![0u8; 32];
    bytes[0] = 5;
    let w = String::Opaque(bytes.clone()).to_scalar().unwrap();
    let ScalarWitness::Scalar(s) = w;
    assert_eq!(s, curve25519_dalek::scalar::Scalar::from(5u64));
    assert_eq!(String::Scalar(Box::new(w)).to_bytes(), bytes);
    assert!(matches!(String::Opaque(vec![0xff; 32]).to_scalar(), Err(VMError::FormatError)));
    assert!(matches!(String::Opaque(vec![0; 31]).to_scalar(), Err(VMError::FormatError)));
    assert!(matches!(
        String::Opaque(vec![0; 32]).to_predicate().map(|p| String::Predicate(Box::new(p)).to_scalar()),
        Ok(Err(VMError::TypeNotScalar))
    ));
    let c: Commitment = String::Opaque(point_bytes()).to_commitment().unwrap();
    assert!(matches!(String::Commitment(Box::new(c)).to_predicate(), Err(VMError::TypeNotPredicate)));
    let _ = Predicate::Opaque;
}

#[test]
fn build_collects_instructions() {
    let p = Program::build(|mut p| {
        p.cloak(2, 2);
        p.call();
        p
    });
    assert_eq!(p.to_bytes(), vec![0x18, 2, 0, 0, 0, 2, 0, 0, 0, 0x1d]);
}

#[test]
fn program_converts_into_item() {
    let mut p = Program::new();
    p.drop();
    let item: ProgramItem = p.into();
    assert_eq!(item.to_bytes(), vec![0x02]);
}

#[test]
fn default_string_is_empty_opaque() {
    let s = String::default();
    assert!(matches!(&s, String::Opaque(d) if d.is_empty()));
    assert!(s.to_bytes().is_empty());
}
