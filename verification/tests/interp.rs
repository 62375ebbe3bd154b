use minijvm::class_file::{AttributeInfo, ClassFile, ConstantInfo, MethodInfo};
use minijvm::engine::{args_size, class_method, run, step, Machine};
use minijvm::error::{ResolutionError, TypeError, UnsupportedFeature, VmError};
use minijvm::runtime::{Frame, Heap, Value};

fn utf8(s: &str) -> ConstantInfo {
    ConstantInfo::Utf8(s.to_string())
}

fn code_attr(name_index: u16, max_stack: u16, max_locals: u16, code: &[u8]) -> AttributeInfo {
    let mut info: Vec<u8> = Vec::new();
    info.extend(max_stack.to_be_bytes());
    info.extend(max_locals.to_be_bytes());
    info.extend((code.len() as u32).to_be_bytes());
    info.extend(code);
    info.extend(0u16.to_be_bytes()); // exception-table count
    info.extend(0u16.to_be_bytes()); // nested attributes
    AttributeInfo {
        attribute_name_index: name_index,
        attribute_length: info.len() as u32,
        info,
    }
}

fn method(name_index: u16, descriptor_index: u16, code: AttributeInfo) -> MethodInfo {
    MethodInfo {
        access_flags: 0x0001,
        name_index,
        descriptor_index,
        attributes_count: 1,
        attributes: vec![code],
    }
}

fn class_of(pool: Vec<ConstantInfo>, this_class: u16, methods: Vec<MethodInfo>) -> ClassFile {
    ClassFile {
        magic: 0xCAFEBABE,
        minor_version: 0,
        major_version: 52,
        constant_pool_count: pool.len() as u16,
        constant_pool: pool,
        access_flags: 0x21,
        this_class,
        super_class: 0,
        interfaces_count: 0,
        interfaces: vec![],
        fields_count: 0,
        fields: vec![],
        methods_count: methods.len() as u16,
        methods,
        attributes_count: 0,
        attributes: vec![],
    }
}

/// A pool whose first entries are the console-stream field and the
/// print method, then "main" and "Code".
fn console_pool() -> Vec<ConstantInfo> {
    vec![
        utf8(""), // slot 0, unused
        ConstantInfo::FieldRef { class_index: 2, name_and_type_index: 4 }, // 1: System.out
        ConstantInfo::Class { name_index: 3 },                             // 2
        utf8("java/lang/System"),                                          // 3
        ConstantInfo::NameAndType { name_index: 5, descriptor_index: 6 },  // 4
        utf8("out"),                                                       // 5
        utf8("Ljava/io/PrintStream;"),                                     // 6
        ConstantInfo::MethodRef { class_index: 8, name_and_type_index: 10 }, // 7: println
        ConstantInfo::Class { name_index: 9 },                             // 8
        utf8("java/io/PrintStream"),                                       // 9
        ConstantInfo::NameAndType { name_index: 11, descriptor_index: 12 }, // 10
        utf8("println"),                                                   // 11
        utf8("(I)V"),                                                      // 12
        utf8("main"),                                                      // 13
        utf8("Code"),                                                      // 14
    ]
}

#[test]
fn push_add_store_load_print_prints_three() {
    // push 1, push 2, add, store local 0, load local 0, print.
    let code = [
        0x04, // push 1
        0x05, // push 2
        0x60, // add
        0x3b, // store local 0
        0xb2, 0x00, 0x01, // read the console stream
        0x1a, // load local 0
        0xb6, 0x00, 0x07, // invoke println
        0xb1, // return
    ];
    let pool = console_pool();
    let main = method(13, 0, code_attr(14, 2, 1, &code));
    let class = class_of(pool, 0, vec![main]);
    let out = run(&class, 1_000_000).unwrap().unwrap();
    assert_eq!(out.output, vec!["3".to_string()]);
    assert_eq!(out.log.len(), 0);
}

#[test]
fn constructor_field_write_and_read_print_the_constant() {
    // A class with a zero-argument constructor setting one integer
    // field, and a main method that allocates an instance, invokes the
    // constructor, reads the field, and prints it.
    let mut pool = console_pool();
    let this_class = pool.len() as u16; // 15
    pool.push(ConstantInfo::Class { name_index: 16 });
    pool.push(utf8("Main")); // 16
    let ctor_ref = pool.len() as u16; // 17
    pool.push(ConstantInfo::MethodRef { class_index: 15, name_and_type_index: 18 });
    pool.push(ConstantInfo::NameAndType { name_index: 19, descriptor_index: 20 }); // 18
    pool.push(utf8("<init>")); // 19
    pool.push(utf8("()V")); // 20
    let field_ref = pool.len() as u16; // 21
    pool.push(ConstantInfo::FieldRef { class_index: 15, name_and_type_index: 22 });
    pool.push(ConstantInfo::NameAndType { name_index: 23, descriptor_index: 24 }); // 22
    pool.push(utf8("x")); // 23
    pool.push(utf8("I")); // 24

    let ctor_code = [
        0x2a, // load local 0, the receiver
        0x10, 0x07, // push byte 7
        0xb5, 0x00, field_ref as u8, // write field x
        0xb1, // return
    ];
    let main_code = [
        0xb2, 0x00, 0x01, // read the console stream
        0xbb, 0x00, this_class as u8, // allocate a Main instance
        0x59, // duplicate the handle
        0xb7, 0x00, ctor_ref as u8, // invoke the constructor
        0xb4, 0x00, field_ref as u8, // read field x
        0xb6, 0x00, 0x07, // invoke println
        0xb1, // return
    ];
    let main = method(13, 0, code_attr(14, 3, 1, &main_code));
    let ctor = method(19, 20, code_attr(14, 2, 1, &ctor_code));
    let class = class_of(pool, this_class, vec![main, ctor]);
    let out = run(&class, 1_000_000).unwrap().unwrap();
    assert_eq!(out.output, vec!["7".to_string()]);
}

#[test]
fn two_argument_invocation_slot_layout() {
    // The callee's locals are, in order, [receiver, arg0, arg1]: it
    // prints local 1 then local 2 and must see the caller's pushes in
    // push order.
    let mut pool = console_pool();
    let this_class = pool.len() as u16; // 15
    pool.push(ConstantInfo::Class { name_index: 16 });
    pool.push(utf8("Main")); // 16
    let take_ref = pool.len() as u16; // 17
    pool.push(ConstantInfo::MethodRef { class_index: 15, name_and_type_index: 18 });
    pool.push(ConstantInfo::NameAndType { name_index: 19, descriptor_index: 20 }); // 18
    pool.push(utf8("take")); // 19
    pool.push(utf8("(II)V")); // 20

    let take_code = [
        0xb2, 0x00, 0x01, // read the console stream
        0x1b, // load local 1
        0xb6, 0x00, 0x07, // invoke println
        0xb2, 0x00, 0x01, // read the console stream
        0x1c, // load local 2
        0xb6, 0x00, 0x07, // invoke println
        0xb1, // return
    ];
    let main_code = [
        0xbb, 0x00, this_class as u8, // allocate the receiver
        0x10, 0x0a, // push byte 10
        0x10, 0x14, // push byte 20
        0xb6, 0x00, take_ref as u8, // invoke take
        0xb1, // return
    ];
    let main = method(13, 0, code_attr(14, 3, 1, &main_code));
    let take = method(19, 20, code_attr(14, 2, 3, &take_code));
    let class = class_of(pool, this_class, vec![main, take]);
    let out = run(&class, 1_000_000).unwrap().unwrap();
    assert_eq!(out.output, vec!["10".to_string(), "20".to_string()]);
}

#[test]
fn string_constant_prints_verbatim() {
    let mut pool = console_pool();
    let string_ref = pool.len() as u16; // 15
    pool.push(ConstantInfo::String(16));
    pool.push(utf8("hello world")); // 16
    let code = [
        0xb2, 0x00, 0x01, // read the console stream
        0x12, string_ref as u8, // push the string constant
        0xb6, 0x00, 0x07, // invoke println
        0xb1, // return
    ];
    let main = method(13, 0, code_attr(14, 2, 0, &code));
    let class = class_of(pool, 0, vec![main]);
    let out = run(&class, 1_000_000).unwrap().unwrap();
    assert_eq!(out.output, vec!["hello world".to_string()]);
}

#[test]
fn addition_prints_the_sum() {
    let code = [
        0x10, 0x7f, // push 127
        0x10, 0x7f, // push 127
        0x60, // add
        0x3b, // store local 0
        0xb2, 0x00, 0x01, 0x1a, 0xb6, 0x00, 0x07, // print local 0
        0xb1,
    ];
    let pool = console_pool();
    let main = method(13, 0, code_attr(14, 2, 1, &code));
    let class = class_of(pool, 0, vec![main]);
    let out = run(&class, 1_000_000).unwrap().unwrap();
    assert_eq!(out.output, vec!["254".to_string()]);
}

#[test]
fn adding_a_string_is_a_type_error() {
    let mut pool = console_pool();
    let string_ref = pool.len() as u16;
    pool.push(ConstantInfo::String(16));
    pool.push(utf8("oops"));
    let code = [
        0x04, // push 1
        0x12, string_ref as u8, // push a string
        0x60, // add
        0xb1,
    ];
    let main = method(13, 0, code_attr(14, 2, 0, &code));
    let class = class_of(pool, 0, vec![main]);
    assert!(matches!(
        run(&class, 1_000_000),
        Err(VmError::Type(TypeError::Mismatch))
    ));
}

#[test]
fn unknown_invocation_class_is_a_resolution_error() {
    let mut pool = console_pool();
    let bad_ref = pool.len() as u16; // 15: a method on a class that is not loaded
    pool.push(ConstantInfo::MethodRef { class_index: 8, name_and_type_index: 16 });
    pool.push(ConstantInfo::NameAndType { name_index: 17, descriptor_index: 18 }); // 16: not println
    pool.push(utf8("flush")); // 17
    pool.push(utf8("()V")); // 18
    let code = [0xb8, 0x00, bad_ref as u8, 0xb1];
    let main = method(13, 0, code_attr(14, 1, 0, &code));
    let class = class_of(pool, 0, vec![main]);
    assert!(matches!(
        run(&class, 1_000_000),
        Err(VmError::Resolution(ResolutionError::ClassNotFound))
    ));
}

#[test]
fn missing_main_is_a_resolution_error() {
    let class = class_of(console_pool(), 0, vec![]);
    assert!(matches!(
        run(&class, 1_000_000),
        Err(VmError::Resolution(ResolutionError::MethodNotFound))
    ));
}

#[test]
fn unknown_static_field_is_unsupported() {
    let mut pool = console_pool();
    let other = pool.len() as u16;
    pool.push(ConstantInfo::FieldRef { class_index: 2, name_and_type_index: 16 });
    pool.push(ConstantInfo::NameAndType { name_index: 17, descriptor_index: 6 }); // 16
    pool.push(utf8("err")); // 17
    let code = [0xb2, 0x00, other as u8, 0xb1];
    let main = method(13, 0, code_attr(14, 1, 0, &code));
    let class = class_of(pool, 0, vec![main]);
    assert!(matches!(
        run(&class, 1_000_000),
        Err(VmError::Unsupported(UnsupportedFeature::StaticField))
    ));
}

#[test]
fn method_without_a_body_is_a_resolution_error() {
    // main exists but carries no attribute named "Code".
    let main = MethodInfo {
        access_flags: 0x0001,
        name_index: 13,
        descriptor_index: 0,
        attributes_count: 0,
        attributes: vec![],
    };
    let class = class_of(console_pool(), 0, vec![main]);
    assert!(matches!(
        run(&class, 1_000_000),
        Err(VmError::Resolution(ResolutionError::MissingCode))
    ));
}

#[test]
fn reading_an_unset_field_is_fatal() {
    // Allocate an instance and read a field nothing ever wrote: object
    // fields have no default-zero policy.
    let mut pool = console_pool();
    let this_class = pool.len() as u16; // 15
    pool.push(ConstantInfo::Class { name_index: 16 });
    pool.push(utf8("Main")); // 16
    let field_ref = pool.len() as u16; // 17
    pool.push(ConstantInfo::FieldRef { class_index: 15, name_and_type_index: 18 });
    pool.push(ConstantInfo::NameAndType { name_index: 19, descriptor_index: 20 }); // 18
    pool.push(utf8("x")); // 19
    pool.push(utf8("I")); // 20
    let code = [
        0xbb, 0x00, this_class as u8, // allocate
        0xb4, 0x00, field_ref as u8, // read field x, never written
        0xb1,
    ];
    let main = method(13, 0, code_attr(14, 2, 0, &code));
    let class = class_of(pool, this_class, vec![main]);
    assert!(matches!(
        run(&class, 1_000_000),
        Err(VmError::Resolution(ResolutionError::FieldNotFound))
    ));
}

#[test]
fn popping_an_empty_stack_underflows() {
    // With a zero-sized operand stack there is no slot to pop.
    let code = [0x3b, 0xb1]; // store local 0 with nothing on the stack
    let main = method(13, 0, code_attr(14, 0, 1, &code));
    let class = class_of(console_pool(), 0, vec![main]);
    assert!(matches!(
        run(&class, 1_000_000),
        Err(VmError::Type(TypeError::StackUnderflow))
    ));
}

#[test]
fn storing_past_the_locals_array_is_fatal() {
    let code = [0x04, 0x36, 0x05, 0xb1]; // store into local 5 of 1
    let main = method(13, 0, code_attr(14, 1, 1, &code));
    let class = class_of(console_pool(), 0, vec![main]);
    assert!(matches!(
        run(&class, 1_000_000),
        Err(VmError::Type(TypeError::LocalOutOfRange))
    ));
}

#[test]
fn pushing_a_non_string_constant_is_unsupported() {
    let code = [0x12, 0x02, 0xb1]; // the entry at 2 is a class, not a string
    let main = method(13, 0, code_attr(14, 1, 0, &code));
    let class = class_of(console_pool(), 0, vec![main]);
    assert!(matches!(
        run(&class, 1_000_000),
        Err(VmError::Unsupported(UnsupportedFeature::Constant))
    ));
}

#[test]
fn run_out_of_budget_reports_no_output() {
    let code = [0x04, 0xb1];
    let main = method(13, 0, code_attr(14, 1, 0, &code));
    let class = class_of(console_pool(), 0, vec![main]);
    assert!(run(&class, 0).unwrap().is_none());
}

#[test]
fn addition_wraps_at_the_integer_boundary() {
    // One step over a hand-built machine: the sum wraps in two's
    // complement instead of failing.
    let mut frame = Frame::new("main", &[0x60, 0xb1], 0, 0);
    frame.operand_stack.push(Value::Int(i32::MAX));
    frame.operand_stack.push(Value::Int(1));
    let mut m = Machine { stack: vec![frame], heap: Heap::new(), output: vec![], log: vec![] };
    let class = class_of(console_pool(), 0, vec![]);
    assert!(step(&mut m, &class).unwrap());
    assert!(matches!(
        m.stack[0].operand_stack.last(),
        Some(Value::Int(v)) if *v == i32::MIN
    ));

    let mut frame = Frame::new("main", &[0x60, 0xb1], 0, 0);
    frame.operand_stack.push(Value::Int(i32::MIN));
    frame.operand_stack.push(Value::Int(-1));
    let mut m = Machine { stack: vec![frame], heap: Heap::new(), output: vec![], log: vec![] };
    assert!(step(&mut m, &class).unwrap());
    assert!(matches!(
        m.stack[0].operand_stack.last(),
        Some(Value::Int(v)) if *v == i32::MAX
    ));
}

#[test]
fn descriptor_argument_counts() {
    assert_eq!(args_size("()V"), Ok(0));
    assert_eq!(args_size("(I)V"), Ok(1));
    assert_eq!(args_size("(II)V"), Ok(2));
    assert_eq!(args_size("(ILjava/lang/String;I)V"), Ok(3));
    assert_eq!(args_size("(Ljava/lang/Object;)I"), Ok(1));
    assert_eq!(
        args_size("(IJ)V"),
        Err(VmError::Unsupported(UnsupportedFeature::DescriptorChar('J')))
    );
}

#[test]
fn method_reference_resolution_walks_the_pool() {
    let pool = console_pool();
    let (cls, mname) = class_method(7, &pool).unwrap();
    assert_eq!(cls, "java/io/PrintStream");
    assert_eq!(mname, "println");
    assert_eq!(
        class_method(1, &pool), // a field reference, not a method
        Err(VmError::Resolution(ResolutionError::BadConstant))
    );
    assert_eq!(
        class_method(99, &pool),
        Err(VmError::Resolution(ResolutionError::BadConstant))
    );
}

#[test]
fn reclamation_logs_at_frame_pop() {
    // main allocates a garbage instance, then calls a helper; when the
    // helper returns, the pass removes the instance the helper's own
    // allocation left behind, and names the helper.
    let mut pool = console_pool();
    let this_class = pool.len() as u16; // 15
    pool.push(ConstantInfo::Class { name_index: 16 });
    pool.push(utf8("Main")); // 16
    let helper_ref = pool.len() as u16; // 17
    pool.push(ConstantInfo::MethodRef { class_index: 15, name_and_type_index: 18 });
    pool.push(ConstantInfo::NameAndType { name_index: 19, descriptor_index: 20 }); // 18
    pool.push(utf8("helper")); // 19
    pool.push(utf8("()V")); // 20

    let helper_code = [
        0xbb, 0x00, this_class as u8, // allocate and abandon
        0xb1, // return
    ];
    let main_code = [
        0xbb, 0x00, this_class as u8, // the receiver for the helper call
        0xb6, 0x00, helper_ref as u8, // invoke helper
        0xb1, // return
    ];
    let main = method(13, 0, code_attr(14, 1, 0, &main_code));
    let helper = method(19, 20, code_attr(14, 1, 1, &helper_code));
    let class = class_of(pool, this_class, vec![main, helper]);
    let out = run(&class, 1_000_000).unwrap().unwrap();
    assert_eq!(out.output.len(), 0);
    // The receiver left main's stack when it was transferred to the
    // helper, so both instances are unreachable once the helper pops.
    assert_eq!(out.log, vec!["GC: Remove Objects: [0, 1] after helper".to_string()]);
}
