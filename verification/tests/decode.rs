use minijvm::bytecode::ByteCode;
use minijvm::error::{DecodeError, VmError};

#[test]
fn decode_advances_by_one_plus_immediates() {
    // A single-byte push-constant advances by 1.
    let code = [0x04u8];
    let (next, bc) = ByteCode::parse(0, &code).unwrap();
    assert_eq!(next, 1);
    assert!(matches!(bc, ByteCode::IConst(1)));
    // A 2-byte-index field access advances by 3.
    let code = [0xb4u8, 0x00, 0x09, 0xb1];
    let (next, bc) = ByteCode::parse(0, &code).unwrap();
    assert_eq!(next, 3);
    assert!(matches!(bc, ByteCode::GetField(9)));
    // A byte push carries one immediate byte and advances by 2.
    let code = [0x10u8, 0xfb];
    let (next, bc) = ByteCode::parse(0, &code).unwrap();
    assert_eq!(next, 2);
    assert!(matches!(bc, ByteCode::Bipush(-5)));
    // Decoding continues from the next program counter.
    let code = [0x04u8, 0xb2, 0x00, 0x07, 0x60];
    let (next, _) = ByteCode::parse(1, &code).unwrap();
    assert_eq!(next, 4);
    let (next, bc) = ByteCode::parse(4, &code).unwrap();
    assert_eq!(next, 5);
    assert!(matches!(bc, ByteCode::IAdd));
}

#[test]
fn decode_is_pure() {
    let code = [0xb2u8, 0x01, 0x02, 0x04, 0xff];
    assert_eq!(ByteCode::parse(0, &code), ByteCode::parse(0, &code));
    assert_eq!(ByteCode::parse(3, &code), ByteCode::parse(3, &code));
    assert_eq!(ByteCode::parse(4, &code), ByteCode::parse(4, &code));
    assert_eq!(ByteCode::parse(9, &code), ByteCode::parse(9, &code));
}

#[test]
fn compact_push_constants_normalize() {
    let cases = [
        (0x02u8, -1i32),
        (0x03, 0),
        (0x04, 1),
        (0x05, 2),
        (0x06, 3),
        (0x07, 4),
        (0x08, 5),
    ];
    for (op, value) in cases {
        let code = [op];
        let (next, bc) = ByteCode::parse(0, &code).unwrap();
        assert_eq!(next, 1);
        match bc {
            ByteCode::IConst(v) => assert_eq!(v, value),
            other => panic!("expected a push constant, got {:?}", other),
        }
    }
}

#[test]
fn compact_load_store_ranges_normalize() {
    for offset in 0u8..4 {
        let (_, bc) = ByteCode::parse(0, &[0x2a + offset]).unwrap();
        assert!(matches!(bc, ByteCode::ALoad(v) if v == offset));
        let (_, bc) = ByteCode::parse(0, &[0x4b + offset]).unwrap();
        assert!(matches!(bc, ByteCode::AStore(v) if v == offset));
        let (_, bc) = ByteCode::parse(0, &[0x1a + offset]).unwrap();
        assert!(matches!(bc, ByteCode::ILoad(v) if v == offset));
        let (_, bc) = ByteCode::parse(0, &[0x3b + offset]).unwrap();
        assert!(matches!(bc, ByteCode::IStore(v) if v == offset));
    }
}

#[test]
fn wide_forms_read_their_immediates() {
    let (next, bc) = ByteCode::parse(0, &[0x36, 0x07]).unwrap();
    assert_eq!(next, 2);
    assert!(matches!(bc, ByteCode::IStore(7)));
    let (next, bc) = ByteCode::parse(0, &[0x15, 0x09]).unwrap();
    assert_eq!(next, 2);
    assert!(matches!(bc, ByteCode::ILoad(9)));
    let (next, bc) = ByteCode::parse(0, &[0x12, 0x05]).unwrap();
    assert_eq!(next, 2);
    assert!(matches!(bc, ByteCode::Ldc(5)));
    let (next, bc) = ByteCode::parse(0, &[0xbb, 0x01, 0x02]).unwrap();
    assert_eq!(next, 3);
    assert!(matches!(bc, ByteCode::New(0x0102)));
    let (next, bc) = ByteCode::parse(0, &[0xb6, 0x00, 0x21]).unwrap();
    assert_eq!(next, 3);
    assert!(matches!(bc, ByteCode::InvokeVirtual(0x21)));
    let (next, bc) = ByteCode::parse(0, &[0xb7, 0x00, 0x01]).unwrap();
    assert_eq!(next, 3);
    assert!(matches!(bc, ByteCode::InvokeSpecial(1)));
    let (next, bc) = ByteCode::parse(0, &[0xb8, 0x00, 0x02]).unwrap();
    assert_eq!(next, 3);
    assert!(matches!(bc, ByteCode::InvokeStatic(2)));
    let (next, bc) = ByteCode::parse(0, &[0xb5, 0x00, 0x03]).unwrap();
    assert_eq!(next, 3);
    assert!(matches!(bc, ByteCode::PutField(3)));
    let (next, bc) = ByteCode::parse(0, &[0xb2, 0x12, 0x34]).unwrap();
    assert_eq!(next, 3);
    assert!(matches!(bc, ByteCode::GetStatic(0x1234)));
}

#[test]
fn unknown_opcode_is_fatal() {
    let r = ByteCode::parse(0, &[0xff]);
    assert_eq!(r, Err(VmError::Decode(DecodeError::UnknownOpcode(0xff))));
    let r = ByteCode::parse(0, &[0x00]);
    assert_eq!(r, Err(VmError::Decode(DecodeError::UnknownOpcode(0x00))));
}

#[test]
fn truncated_code_is_fatal() {
    // The opcode needs two immediate bytes that are not there.
    let r = ByteCode::parse(0, &[0xb2, 0x00]);
    assert_eq!(r, Err(VmError::Decode(DecodeError::TruncatedCode(0))));
    // The opcode needs one immediate byte that is not there.
    let r = ByteCode::parse(0, &[0x10]);
    assert_eq!(r, Err(VmError::Decode(DecodeError::TruncatedCode(0))));
    // The program counter sits past the end of the code.
    let r = ByteCode::parse(3, &[0x04, 0xb1]);
    assert_eq!(r, Err(VmError::Decode(DecodeError::TruncatedCode(3))));
}
