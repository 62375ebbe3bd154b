use minijvm::class_file::{ClassFile, CodeAttribute, ConstantInfo};
use minijvm::error::{FormatError, UnsupportedFeature, VmError};

fn minimal_class() -> Vec<u8> {
    let mut b: Vec<u8> = vec![0xCA, 0xFE, 0xBA, 0xBE];
    b.extend(3u16.to_be_bytes()); // minor version
    b.extend(45u16.to_be_bytes()); // major version
    b.extend(3u16.to_be_bytes()); // constant pool count: two entries
    b.push(7); // Class
    b.extend(2u16.to_be_bytes());
    b.push(1); // Utf8
    b.extend(4u16.to_be_bytes());
    b.extend(*b"Main");
    b.extend(0x21u16.to_be_bytes()); // access flags
    b.extend(1u16.to_be_bytes()); // this class
    b.extend(0u16.to_be_bytes()); // super class
    b.extend(0u16.to_be_bytes()); // interfaces
    b.extend(0u16.to_be_bytes()); // fields
    b.extend(0u16.to_be_bytes()); // methods
    b.extend(0u16.to_be_bytes()); // attributes
    b
}

#[test]
fn parse_minimal_class() {
    let c = ClassFile::parse(&minimal_class()).unwrap();
    assert_eq!(c.magic, 0xCAFEBABE);
    assert_eq!(c.minor_version, 3);
    assert_eq!(c.major_version, 45);
    assert_eq!(c.constant_pool_count, 3);
    // The pool is 1-indexed; slot 0 is an unused empty entry.
    assert_eq!(c.constant_pool.len(), 3);
    assert_eq!(c.constant_pool[0].as_utf8(), Some(""));
    assert_eq!(c.constant_pool[1].as_class(), Some(2));
    assert_eq!(c.constant_pool[2].as_utf8(), Some("Main"));
    assert_eq!(c.this_class, 1);
    assert_eq!(c.name().as_deref(), Some("Main"));
    assert_eq!(c.methods.len(), 0);
}

#[test]
fn bad_magic_is_reported() {
    let mut b = minimal_class();
    b[0] = 0x00;
    assert!(matches!(
        ClassFile::parse(&b),
        Err(VmError::Format(FormatError::BadMagic))
    ));
}

#[test]
fn truncation_anywhere_is_reported_never_parsed() {
    // Cutting the buffer anywhere, in particular mid constant-pool
    // entry, yields a structured failure, never a silent wrong parse.
    let full = minimal_class();
    for cut in 0..full.len() {
        let r = ClassFile::parse(&full[..cut]);
        assert!(
            matches!(r, Err(VmError::Format(_))),
            "prefix of {} bytes did not fail as a format error",
            cut
        );
    }
}

#[test]
fn unknown_tag_is_reported() {
    let mut b: Vec<u8> = vec![0xCA, 0xFE, 0xBA, 0xBE, 0, 0, 0, 45];
    b.extend(2u16.to_be_bytes()); // one pool entry
    b.push(2); // no such tag
    assert!(matches!(
        ClassFile::parse(&b),
        Err(VmError::Format(FormatError::UnknownTag(2)))
    ));
}

#[test]
fn unsupported_numeric_tag_fails_loudly() {
    let mut b: Vec<u8> = vec![0xCA, 0xFE, 0xBA, 0xBE, 0, 0, 0, 45];
    b.extend(2u16.to_be_bytes());
    b.push(3); // integer literal: an extension point
    b.extend(7u32.to_be_bytes());
    assert!(matches!(
        ClassFile::parse(&b),
        Err(VmError::Unsupported(UnsupportedFeature::PoolTag(3)))
    ));
}

#[test]
fn trailing_bytes_are_reported() {
    let mut b = minimal_class();
    let end = b.len();
    b.push(0);
    assert!(matches!(
        ClassFile::parse(&b),
        Err(VmError::Format(FormatError::TrailingBytes(at))) if at == end
    ));
}

#[test]
fn malformed_text_is_substituted_never_fatal() {
    let mut b: Vec<u8> = vec![0xCA, 0xFE, 0xBA, 0xBE, 0, 0, 0, 45];
    b.extend(2u16.to_be_bytes());
    b.push(1); // Utf8 of two bytes, the second invalid
    b.extend(2u16.to_be_bytes());
    b.push(0x41);
    b.push(0xff);
    b.extend(0u16.to_be_bytes()); // access flags
    b.extend(0u16.to_be_bytes()); // this class
    b.extend(0u16.to_be_bytes()); // super class
    b.extend(0u16.to_be_bytes()); // interfaces
    b.extend(0u16.to_be_bytes()); // fields
    b.extend(0u16.to_be_bytes()); // methods
    b.extend(0u16.to_be_bytes()); // attributes
    let c = ClassFile::parse(&b).unwrap();
    assert_eq!(c.constant_pool[1].as_utf8(), Some("A\u{FFFD}"));
}

#[test]
fn code_attribute_layout_is_decoded() {
    let mut info: Vec<u8> = Vec::new();
    info.extend(2u16.to_be_bytes()); // max stack
    info.extend(3u16.to_be_bytes()); // max locals
    info.extend(2u32.to_be_bytes()); // code length
    info.extend([0x04, 0xb1]);
    info.extend(1u16.to_be_bytes()); // declared exception-table count
    info.extend(0u16.to_be_bytes()); // nested attributes
    let code = CodeAttribute::parse(&info).unwrap();
    assert_eq!(code.max_stack, 2);
    assert_eq!(code.max_locals, 3);
    assert_eq!(code.code_length, 2);
    assert_eq!(code.code, vec![0x04, 0xb1]);
    // The declared count is recorded, the handler data ignored.
    assert_eq!(code.exception_table_length, 1);
    assert_eq!(code.exception_table.len(), 0);
    assert_eq!(code.attributes_count, 0);
}

#[test]
fn truncated_code_attribute_is_reported() {
    let mut info: Vec<u8> = Vec::new();
    info.extend(2u16.to_be_bytes());
    info.extend(3u16.to_be_bytes());
    info.extend(9u32.to_be_bytes()); // declares more code than there is
    info.push(0x04);
    assert!(matches!(
        CodeAttribute::parse(&info),
        Err(VmError::Format(FormatError::Truncated(_)))
    ));
}

#[test]
fn pool_accessors_reject_other_kinds() {
    let e = ConstantInfo::Class { name_index: 4 };
    assert_eq!(e.as_class(), Some(4));
    assert_eq!(e.as_utf8(), None);
    assert_eq!(e.as_method_ref(), None);
    assert_eq!(e.as_field_ref(), None);
    assert_eq!(e.as_name_and_type(), None);
    let e = ConstantInfo::MethodRef { class_index: 2, name_and_type_index: 3 };
    assert_eq!(e.as_method_ref(), Some((2, 3)));
    assert_eq!(e.as_class(), None);
    let e = ConstantInfo::FieldRef { class_index: 5, name_and_type_index: 6 };
    assert_eq!(e.as_field_ref(), Some((5, 6)));
    let e = ConstantInfo::NameAndType { name_index: 7, descriptor_index: 8 };
    assert_eq!(e.as_name_and_type(), Some((7, 8)));
}

#[test]
fn pool_entries_render_by_kind() {
    assert_eq!(
        ConstantInfo::MethodRef { class_index: 2, name_and_type_index: 13 }.render(),
        "Methodref #2.#13"
    );
    assert_eq!(ConstantInfo::Class { name_index: 4 }.render(), "Class #4");
    assert_eq!(
        ConstantInfo::NameAndType { name_index: 7, descriptor_index: 8 }.render(),
        "NameAndType #7:#8"
    );
    assert_eq!(ConstantInfo::String(9).render(), "String #9");
    assert_eq!(
        ConstantInfo::Utf8("out".to_string()).render(),
        "Utf8 \"out\""
    );
    assert_eq!(
        ConstantInfo::FieldRef { class_index: 1, name_and_type_index: 2 }.render(),
        "Fieldref #1.#2"
    );
}
