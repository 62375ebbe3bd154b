use minijvm::error::{ResolutionError, UnsupportedFeature, VmError};
use minijvm::runtime::{Frame, Heap, Instantce, Reference, Value};

#[test]
fn value_display_forms() {
    assert_eq!(Value::Boolean(true).render(), "true");
    assert_eq!(Value::Boolean(false).render(), "false");
    assert_eq!(Value::Int(3).render(), "3");
    assert_eq!(Value::Int(-17).render(), "-17");
    assert_eq!(Value::Int(0).render(), "0");
    assert_eq!(Value::Byte(-8).render(), "-8");
    assert_eq!(Value::Short(1000).render(), "1000");
    assert_eq!(Value::Char('x').render(), "x");
    assert_eq!(Value::String("hello".to_string()).render(), "hello");
    assert_eq!(Value::Reference(Reference::Object(2)).render(), "Object(2)");
    assert_eq!(Value::Reference(Reference::Class(1)).render(), "Class(1)");
    assert_eq!(Value::Reference(Reference::Array(0)).render(), "Array(0)");
    assert_eq!(Value::ReturnAddress(9).render(), "9");
}

#[test]
fn field_table_grows_on_first_write() {
    let mut inst = Instantce::new(1, 0);
    assert!(inst.get_field("x").is_none());
    inst.put_field("x", Value::Int(7));
    assert!(matches!(inst.get_field("x"), Some(Value::Int(7))));
    assert!(inst.get_field("y").is_none());
    inst.put_field("x", Value::Int(9));
    assert!(matches!(inst.get_field("x"), Some(Value::Int(9))));
    inst.put_field("y", Value::Boolean(true));
    assert!(matches!(inst.get_field("x"), Some(Value::Int(9))));
    assert!(matches!(inst.get_field("y"), Some(Value::Boolean(true))));
}

#[test]
fn allocation_appends_fresh_indices() {
    let mut heap = Heap::new();
    let a = heap.malloc_instance(3);
    let b = heap.malloc_instance(4);
    assert!(matches!(a, Reference::Object(0)));
    assert!(matches!(b, Reference::Object(1)));
    assert_eq!(heap.get(&a).unwrap().class, 3);
    assert_eq!(heap.get(&b).unwrap().class, 4);
}

#[test]
fn dangling_and_foreign_handles_are_fatal() {
    let mut heap = Heap::new();
    let _ = heap.malloc_instance(1);
    assert!(matches!(
        heap.get(&Reference::Object(5)),
        Err(VmError::Resolution(ResolutionError::DanglingReference))
    ));
    assert!(matches!(
        heap.get(&Reference::Class(0)),
        Err(VmError::Unsupported(UnsupportedFeature::ReferenceKind))
    ));
    assert!(matches!(
        heap.get(&Reference::Array(0)),
        Err(VmError::Unsupported(UnsupportedFeature::ReferenceKind))
    ));
}

fn frame_with_locals(n: u16) -> Frame {
    Frame::new("main", &[], n, 4)
}

#[test]
fn reclamation_spares_the_referenced_and_their_fields() {
    // Instance A holds a field referencing instance B; a surviving
    // local still holds A, so neither is reclaimed.
    let mut heap = Heap::new();
    let a = heap.malloc_instance(1);
    let b = heap.malloc_instance(1);
    heap.put_field(&a, "next", Value::Reference(b)).unwrap();
    let mut frame = frame_with_locals(1);
    frame.locals[0] = Value::Reference(a);
    let stack = vec![frame];
    let log = heap.gc(&stack, "main");
    assert!(log.is_none());
    assert!(heap.get(&a).is_ok());
    assert!(heap.get(&b).is_ok());
}

#[test]
fn reclamation_removes_the_unreachable_pair() {
    // Drop A's only reference: on the next pass both A and B go.
    let mut heap = Heap::new();
    let a = heap.malloc_instance(1);
    let b = heap.malloc_instance(1);
    heap.put_field(&a, "next", Value::Reference(b)).unwrap();
    let stack = vec![frame_with_locals(1)];
    let log = heap.gc(&stack, "main");
    assert_eq!(log.as_deref(), Some("GC: Remove Objects: [0, 1] after main"));
    assert!(matches!(
        heap.get(&a),
        Err(VmError::Resolution(ResolutionError::DanglingReference))
    ));
    assert!(matches!(
        heap.get(&b),
        Err(VmError::Resolution(ResolutionError::DanglingReference))
    ));
}

#[test]
fn reclamation_follows_cycles_without_looping() {
    let mut heap = Heap::new();
    let a = heap.malloc_instance(1);
    let b = heap.malloc_instance(1);
    heap.put_field(&a, "next", Value::Reference(b)).unwrap();
    heap.put_field(&b, "back", Value::Reference(a)).unwrap();
    let mut frame = frame_with_locals(1);
    frame.operand_stack[0] = Value::Reference(b);
    let stack = vec![frame];
    let log = heap.gc(&stack, "loop");
    assert!(log.is_none());
    assert!(heap.get(&a).is_ok());
    assert!(heap.get(&b).is_ok());
}

#[test]
fn reclamation_scans_every_surviving_frame() {
    let mut heap = Heap::new();
    let a = heap.malloc_instance(1);
    let b = heap.malloc_instance(2);
    let mut f1 = frame_with_locals(1);
    f1.locals[0] = Value::Reference(a);
    let f2 = frame_with_locals(1);
    let stack = vec![f1, f2];
    let log = heap.gc(&stack, "callee");
    // Only the instance no frame reaches goes; the pass names it.
    assert_eq!(log.as_deref(), Some("GC: Remove Objects: [1] after callee"));
    assert!(heap.get(&a).is_ok());
    assert!(heap.get(&b).is_err());
}

#[test]
fn frames_default_every_slot_to_zero() {
    let f = Frame::new("m", &[0x04, 0xb1], 2, 3);
    assert_eq!(f.pc, 0);
    assert_eq!(f.name, "m");
    assert_eq!(f.codes, vec![0x04, 0xb1]);
    assert_eq!(f.operand_stack.len(), 3);
    assert_eq!(f.locals.len(), 2);
    for v in &f.operand_stack {
        assert!(matches!(v, Value::Int(0)));
    }
    for v in &f.locals {
        assert!(matches!(v, Value::Int(0)));
    }
}

#[test]
fn fetch_decodes_and_advances() {
    let mut f = Frame::new("m", &[0x04, 0xb1], 0, 0);
    let bc = f.fetch().unwrap();
    assert!(matches!(bc, minijvm::bytecode::ByteCode::IConst(1)));
    assert_eq!(f.pc, 1);
    let bc = f.fetch().unwrap();
    assert!(matches!(bc, minijvm::bytecode::ByteCode::Return));
    assert_eq!(f.pc, 2);
    assert!(f.fetch().is_err());
    assert_eq!(f.pc, 2);
}
