//! The execution engine: a state machine over an ordered call stack.
//!
//! Each step decodes the instruction at the current frame's program
//! counter (auto-advancing it), then executes it: mutating the current
//! frame's stack and locals, pushing a new frame on invocation, popping
//! the current frame while transferring an optional result, or ending
//! the run on a return from the outermost frame. Reclamation runs on
//! every frame pop.

use vstd::prelude::*;

use crate::bytecode::{ByteCode, spec_decode};
use crate::class_file::{
    class_name, pool_class, pool_class_exec, pool_field_ref, pool_field_ref_exec, pool_method_ref,
    pool_method_ref_exec, pool_name_and_type, pool_name_and_type_exec, pool_utf8, pool_utf8_exec,
    spec_find_method, spec_method_code, ClassFile, ClassFileV, CodeAttributeV, ConstantInfo,
    ConstantInfoV,
};
use crate::error::{ResolutionError, TypeError, UnsupportedFeature, VmError};
use crate::runtime::{
    display_str, fields_map, fields_wf, gc_keep, gc_log_line, heap_wf, reclaimed_upto, stack_roots,
    Frame, FrameV, Heap, InstantceV, Reference, Value, ValueV,
};

verus! {

// ---------------------------------------------------------------------
// Descriptor scanning
// ---------------------------------------------------------------------

/// How many argument slots the descriptor declares from position `i`
/// on: an integer contributes one slot, a class reference contributes
/// one slot consuming through the terminating semicolon, and any other
/// parameter character is an unimplemented, fatal case. When `in_class`
/// the scan is inside a class reference, already counted.
pub open spec fn spec_args_size_from(desc: Seq<char>, i: int, acc: int, in_class: bool) -> Result<
    int,
    VmError,
>
    decreases desc.len() - i,
{
    if i < 0 || i >= desc.len() {
        Ok(acc)
    } else if in_class {
        if desc[i] == ';' {
            spec_args_size_from(desc, i + 1, acc, false)
        } else {
            spec_args_size_from(desc, i + 1, acc, true)
        }
    } else if desc[i] == '(' {
        spec_args_size_from(desc, i + 1, acc, false)
    } else if desc[i] == ')' {
        Ok(acc)
    } else if desc[i] == 'I' {
        spec_args_size_from(desc, i + 1, acc + 1, false)
    } else if desc[i] == 'L' {
        spec_args_size_from(desc, i + 1, acc + 1, true)
    } else {
        Err(VmError::Unsupported(UnsupportedFeature::DescriptorChar(desc[i])))
    }
}

/// The number of argument slots a method descriptor declares.
pub open spec fn spec_args_size(desc: Seq<char>) -> Result<int, VmError> {
    spec_args_size_from(desc, 0, 0, false)
}

/// The scan only ever adds slots, so the count is at least what was
/// already accumulated.
pub proof fn lemma_args_size_at_least(desc: Seq<char>, i: int, acc: int, in_class: bool)
    requires
        spec_args_size_from(desc, i, acc, in_class) is Ok,
    ensures
        spec_args_size_from(desc, i, acc, in_class)->Ok_0 >= acc,
    decreases desc.len() - i,
{
    if i < 0 || i >= desc.len() {
    } else if in_class {
        if desc[i] == ';' {
            lemma_args_size_at_least(desc, i + 1, acc, false);
        } else {
            lemma_args_size_at_least(desc, i + 1, acc, true);
        }
    } else if desc[i] == '(' {
        lemma_args_size_at_least(desc, i + 1, acc, false);
    } else if desc[i] == ')' {
    } else if desc[i] == 'I' {
        lemma_args_size_at_least(desc, i + 1, acc + 1, false);
    } else if desc[i] == 'L' {
        lemma_args_size_at_least(desc, i + 1, acc + 1, true);
    }
}

/// Scan a method descriptor for its argument slot count.
#[verifier::loop_isolation(false)]
pub fn args_size(descriptor: &str) -> (r: Result<usize, VmError>)
    ensures
        match r {
            Ok(n) => spec_args_size(descriptor@) == Ok::<int, VmError>(n as int),
            Err(e) => spec_args_size(descriptor@) == Err::<int, VmError>(e),
        },
{
    let len = descriptor.unicode_len();
    let mut i: usize = 0;
    let mut acc: usize = 0;
    let mut in_class = false;
    while i < len
        invariant
            i <= len,
            acc <= i,
            spec_args_size(descriptor@) == spec_args_size_from(
                descriptor@,
                i as int,
                acc as int,
                in_class,
            ),
        decreases len - i,
    {
        let c = descriptor.get_char(i);
        if in_class {
            if c == ';' {
                in_class = false;
            }
        } else if c == '(' {
        } else if c == ')' {
            return Ok(acc);
        } else if c == 'I' {
            acc = acc + 1;
        } else if c == 'L' {
            acc = acc + 1;
            in_class = true;
        } else {
            return Err(VmError::Unsupported(UnsupportedFeature::DescriptorChar(c)));
        }
        i = i + 1;
    }
    Ok(acc)
}

// ---------------------------------------------------------------------
// Invocation-target resolution
// ---------------------------------------------------------------------

/// The (class name, method name) behind a method-reference pool entry,
/// when the whole chain of pool indices resolves; the descriptor entry
/// must resolve to text as well.
pub open spec fn spec_class_method(pool: Seq<ConstantInfoV>, i: int) -> Option<
    (Seq<char>, Seq<char>),
> {
    match pool_method_ref(pool, i) {
        None => None,
        Some((class_index, name_and_type_index)) => match pool_class(pool, class_index as int) {
            None => None,
            Some(class_name_index) => match pool_utf8(pool, class_name_index as int) {
                None => None,
                Some(cls) => match pool_name_and_type(pool, name_and_type_index as int) {
                    None => None,
                    Some((name_index, type_index)) => match pool_utf8(pool, name_index as int) {
                        None => None,
                        Some(mname) => match pool_utf8(pool, type_index as int) {
                            None => None,
                            Some(_ty) => Some((cls, mname)),
                        },
                    },
                },
            },
        },
    }
}

/// Resolve the (class name, method name) behind a method reference.
pub fn class_method(index: usize, constant_pool: &Vec<ConstantInfo>) -> (r: Result<
    (String, String),
    VmError,
>)
    ensures
        match r {
            Ok((c, m)) => spec_class_method(constant_pool.deep_view(), index as int) == Some(
                (c@, m@),
            ),
            Err(e) => spec_class_method(constant_pool.deep_view(), index as int) is None && e
                == VmError::Resolution(ResolutionError::BadConstant),
        },
{
    let bad = VmError::Resolution(ResolutionError::BadConstant);
    let (class_index, name_and_type_index) = match pool_method_ref_exec(constant_pool, index) {
        Some(v) => v,
        None => {
            return Err(bad);
        },
    };
    let class_name_index = match pool_class_exec(constant_pool, class_index as usize) {
        Some(v) => v,
        None => {
            return Err(bad);
        },
    };
    let cls = match pool_utf8_exec(constant_pool, class_name_index as usize) {
        Some(v) => v,
        None => {
            return Err(bad);
        },
    };
    let (name_index, type_index) = match pool_name_and_type_exec(
        constant_pool,
        name_and_type_index as usize,
    ) {
        Some(v) => v,
        None => {
            return Err(bad);
        },
    };
    let mname = match pool_utf8_exec(constant_pool, name_index as usize) {
        Some(v) => v,
        None => {
            return Err(bad);
        },
    };
    match pool_utf8_exec(constant_pool, type_index as usize) {
        Some(_ty) => {},
        None => {
            return Err(bad);
        },
    };
    Ok((cls, mname))
}

// ---------------------------------------------------------------------
// The machine state and its transition relation
// ---------------------------------------------------------------------

/// The whole mutable state of a run: the call stack, the heap, the
/// lines written to standard output, and the diagnostic log.
pub struct Machine {
    pub stack: Vec<Frame>,
    pub heap: Heap,
    pub output: Vec<String>,
    pub log: Vec<String>,
}

/// The mathematical shadow of the machine state.
#[verifier::ext_equal]
pub struct MachineV {
    pub frames: Seq<FrameV>,
    pub heap: Seq<Option<InstantceV>>,
    pub output: Seq<Seq<char>>,
    pub log: Seq<Seq<char>>,
}

impl View for Machine {
    type V = MachineV;

    open spec fn view(&self) -> MachineV {
        MachineV {
            frames: self.stack.deep_view(),
            heap: self.heap@,
            output: self.output.deep_view(),
            log: self.log.deep_view(),
        }
    }
}

/// The machine with its top frame replaced.
pub open spec fn with_top(m: MachineV, f: FrameV) -> MachineV {
    MachineV { frames: m.frames.update(m.frames.len() - 1, f), ..m }
}

/// The machine with a value pushed onto the top frame's operand stack.
pub open spec fn top_push(m: MachineV, v: ValueV) -> MachineV {
    let f = m.frames.last();
    with_top(m, FrameV { operand_stack: f.operand_stack.push(v), ..f })
}

/// The machine after a reclamation pass at a frame-pop boundary:
/// `frames2` are the surviving frames, `func` the method just exited.
pub open spec fn gc_post(m: MachineV, frames2: Seq<FrameV>, func: Seq<char>) -> MachineV {
    let roots = stack_roots(frames2);
    let heap2 = Seq::new(
        m.heap.len(),
        |i: int|
            if gc_keep(m.heap, roots, i) {
                m.heap[i]
            } else {
                None
            },
    );
    let log2 = if reclaimed_upto(m.heap, roots, m.heap.len() as int).len() > 0 {
        m.log.push(gc_log_line(m.heap, roots, func))
    } else {
        m.log
    };
    MachineV { frames: frames2, heap: heap2, output: m.output, log: log2 }
}

/// Two's-complement wraparound addition of integers.
pub open spec fn wrap_add_i32(a: i32, b: i32) -> i32 {
    let s = a + b;
    if s > i32::MAX {
        (s - 0x100000000) as i32
    } else if s < i32::MIN {
        (s + 0x100000000) as i32
    } else {
        s as i32
    }
}

/// What one shared invocation resolution does, from a machine whose top
/// frame has already consumed the invoke instruction: locate the target
/// class and method by name, size a fresh frame to its body, and move
/// `argument_count + 1` operand-stack values into the callee's locals
/// in order, the deepest-popped value landing in slot 0.
pub open spec fn invoke_rel(
    pre: MachineV,
    c: ClassFileV,
    cls: Seq<char>,
    mname: Seq<char>,
    post: MachineV,
    r: Result<bool, VmError>,
) -> bool {
    if class_name(c) != Some(cls) {
        r == Err::<bool, VmError>(VmError::Resolution(ResolutionError::ClassNotFound))
    } else {
        match spec_find_method(c, mname) {
            None => r == Err::<bool, VmError>(VmError::Resolution(ResolutionError::MethodNotFound)),
            Some(mi) => {
                let m = c.methods[mi];
                match pool_utf8(c.constant_pool, m.descriptor_index as int) {
                    None => r == Err::<bool, VmError>(
                        VmError::Resolution(ResolutionError::BadConstant),
                    ),
                    Some(desc) => match spec_args_size(desc) {
                        Err(e) => r == Err::<bool, VmError>(e),
                        Ok(nargs) => match spec_method_code(c.constant_pool, m) {
                            Err(e) => r == Err::<bool, VmError>(e),
                            Ok(code) => {
                                let f = pre.frames.last();
                                let s = f.operand_stack;
                                if s.len() < nargs + 1 {
                                    r == Err::<bool, VmError>(
                                        VmError::Type(TypeError::StackUnderflow),
                                    )
                                } else if (code.max_locals as int) < nargs + 1 {
                                    r == Err::<bool, VmError>(
                                        VmError::Type(TypeError::LocalOutOfRange),
                                    )
                                } else {
                                    let callee = FrameV {
                                        pc: 0,
                                        name: mname,
                                        codes: code.code,
                                        operand_stack: Seq::new(
                                            code.max_stack as nat,
                                            |i: int| ValueV::Int(0),
                                        ),
                                        locals: Seq::new(
                                            code.max_locals as nat,
                                            |l: int|
                                                if l < nargs + 1 {
                                                    s[s.len() - (nargs + 1) + l]
                                                } else {
                                                    ValueV::Int(0)
                                                },
                                        ),
                                    };
                                    let caller = FrameV {
                                        operand_stack: s.take(s.len() - (nargs + 1)),
                                        ..f
                                    };
                                    &&& r == Ok::<bool, VmError>(true)
                                    &&& post == MachineV {
                                        frames: pre.frames.update(
                                            pre.frames.len() - 1,
                                            caller,
                                        ).push(callee),
                                        ..pre
                                    }
                                }
                            },
                        },
                    },
                }
            },
        }
    }
}

/// What executing one already-decoded instruction does to a machine
/// whose top frame has already advanced past it. Errors are fatal: the
/// run stops and the machine state is no longer meaningful.
pub open spec fn instr_rel(
    pre: MachineV,
    c: ClassFileV,
    bc: ByteCode,
    post: MachineV,
    r: Result<bool, VmError>,
) -> bool {
    let f = pre.frames.last();
    let s = f.operand_stack;
    let pool = c.constant_pool;
    match bc {
        ByteCode::IConst(v) => r == Ok::<bool, VmError>(true) && post == top_push(
            pre,
            ValueV::Int(v),
        ),
        ByteCode::Bipush(b) => r == Ok::<bool, VmError>(true) && post == top_push(
            pre,
            ValueV::Int(b as i32),
        ),
        ByteCode::Dup => {
            if s.len() == 0 {
                r == Err::<bool, VmError>(VmError::Type(TypeError::StackUnderflow))
            } else {
                r == Ok::<bool, VmError>(true) && post == top_push(pre, s.last())
            }
        },
        ByteCode::IStore(idx) => {
            if s.len() == 0 {
                r == Err::<bool, VmError>(VmError::Type(TypeError::StackUnderflow))
            } else if !(s.last() is Int) {
                r == Err::<bool, VmError>(VmError::Type(TypeError::Mismatch))
            } else if f.locals.len() <= idx as int {
                r == Err::<bool, VmError>(VmError::Type(TypeError::LocalOutOfRange))
            } else {
                r == Ok::<bool, VmError>(true) && post == with_top(
                    pre,
                    FrameV {
                        operand_stack: s.drop_last(),
                        locals: f.locals.update(idx as int, s.last()),
                        ..f
                    },
                )
            }
        },
        ByteCode::ILoad(idx) => {
            if f.locals.len() <= idx as int {
                r == Err::<bool, VmError>(VmError::Type(TypeError::LocalOutOfRange))
            } else if !(f.locals[idx as int] is Int) {
                r == Err::<bool, VmError>(VmError::Type(TypeError::Mismatch))
            } else {
                r == Ok::<bool, VmError>(true) && post == top_push(pre, f.locals[idx as int])
            }
        },
        ByteCode::AStore(idx) => {
            if s.len() == 0 {
                r == Err::<bool, VmError>(VmError::Type(TypeError::StackUnderflow))
            } else if !(s.last() is Reference) {
                r == Err::<bool, VmError>(VmError::Type(TypeError::Mismatch))
            } else if f.locals.len() <= idx as int {
                r == Err::<bool, VmError>(VmError::Type(TypeError::LocalOutOfRange))
            } else {
                r == Ok::<bool, VmError>(true) && post == with_top(
                    pre,
                    FrameV {
                        operand_stack: s.drop_last(),
                        locals: f.locals.update(idx as int, s.last()),
                        ..f
                    },
                )
            }
        },
        ByteCode::ALoad(idx) => {
            if f.locals.len() <= idx as int {
                r == Err::<bool, VmError>(VmError::Type(TypeError::LocalOutOfRange))
            } else if !(f.locals[idx as int] is Reference) {
                r == Err::<bool, VmError>(VmError::Type(TypeError::Mismatch))
            } else {
                r == Ok::<bool, VmError>(true) && post == top_push(pre, f.locals[idx as int])
            }
        },
        ByteCode::IAdd => {
            if s.len() < 2 {
                r == Err::<bool, VmError>(VmError::Type(TypeError::StackUnderflow))
            } else if !(s[s.len() - 1] is Int) || !(s[s.len() - 2] is Int) {
                r == Err::<bool, VmError>(VmError::Type(TypeError::Mismatch))
            } else {
                r == Ok::<bool, VmError>(true) && post == with_top(
                    pre,
                    FrameV {
                        operand_stack: s.take(s.len() - 2).push(
                            ValueV::Int(
                                wrap_add_i32(s[s.len() - 1]->Int_0, s[s.len() - 2]->Int_0),
                            ),
                        ),
                        ..f
                    },
                )
            }
        },
        ByteCode::Return => {
            if pre.frames.len() == 1 {
                r == Ok::<bool, VmError>(false) && post == pre
            } else {
                r == Ok::<bool, VmError>(true) && post == gc_post(
                    pre,
                    pre.frames.drop_last(),
                    f.name,
                )
            }
        },
        ByteCode::IReturn => {
            if pre.frames.len() == 1 {
                r == Err::<bool, VmError>(VmError::Type(TypeError::StackUnderflow))
            } else if s.len() == 0 {
                r == Err::<bool, VmError>(VmError::Type(TypeError::StackUnderflow))
            } else {
                let caller = pre.frames[pre.frames.len() - 2];
                let caller2 = FrameV {
                    operand_stack: caller.operand_stack.push(s.last()),
                    ..caller
                };
                let frames2 = pre.frames.drop_last().update(pre.frames.len() - 2, caller2);
                r == Ok::<bool, VmError>(true) && post == gc_post(pre, frames2, f.name)
            }
        },
        ByteCode::New(idx) => {
            match pool_class(pool, idx as int) {
                None => r == Err::<bool, VmError>(VmError::Resolution(ResolutionError::BadConstant)),
                Some(ci) => {
                    let inst = InstantceV {
                        class: ci as usize,
                        index: pre.heap.len() as usize,
                        fields: Seq::empty(),
                    };
                    let m2 = MachineV { heap: pre.heap.push(Some(inst)), ..pre };
                    r == Ok::<bool, VmError>(true) && post == top_push(
                        m2,
                        ValueV::Reference(Reference::Object(pre.heap.len() as usize)),
                    )
                },
            }
        },
        ByteCode::Ldc(idx) => {
            if pool.len() <= idx as int {
                r == Err::<bool, VmError>(VmError::Resolution(ResolutionError::BadConstant))
            } else {
                match pool[idx as int] {
                    ConstantInfoV::String(si) => match pool_utf8(pool, si as int) {
                        None => r == Err::<bool, VmError>(
                            VmError::Resolution(ResolutionError::BadConstant),
                        ),
                        Some(text) => r == Ok::<bool, VmError>(true) && post == top_push(
                            pre,
                            ValueV::String(text),
                        ),
                    },
                    _ => r == Err::<bool, VmError>(VmError::Unsupported(UnsupportedFeature::Constant)),
                }
            }
        },
        ByteCode::GetStatic(idx) => {
            match spec_static_field(pool, idx as int) {
                None => r == Err::<bool, VmError>(VmError::Resolution(ResolutionError::BadConstant)),
                Some((cls, nm, ty)) => {
                    if cls == "java/lang/System"@ && nm == "out"@ && ty == "Ljava/io/PrintStream;"@ {
                        let inst = InstantceV {
                            class: 0,
                            index: pre.heap.len() as usize,
                            fields: Seq::empty(),
                        };
                        let m2 = MachineV { heap: pre.heap.push(Some(inst)), ..pre };
                        r == Ok::<bool, VmError>(true) && post == top_push(
                            m2,
                            ValueV::Reference(Reference::Object(pre.heap.len() as usize)),
                        )
                    } else {
                        r == Err::<bool, VmError>(
                            VmError::Unsupported(UnsupportedFeature::StaticField),
                        )
                    }
                },
            }
        },
        ByteCode::GetField(idx) => {
            if s.len() == 0 {
                r == Err::<bool, VmError>(VmError::Type(TypeError::StackUnderflow))
            } else {
                match s.last() {
                    ValueV::Reference(rf) => match rf {
                        Reference::Object(oi) => {
                            if oi as int >= pre.heap.len() || pre.heap[oi as int] is None {
                                r == Err::<bool, VmError>(
                                    VmError::Resolution(ResolutionError::DanglingReference),
                                )
                            } else {
                                let inst = pre.heap[oi as int]->Some_0;
                                match spec_field_name(pool, idx as int) {
                                    None => r == Err::<bool, VmError>(
                                        VmError::Resolution(ResolutionError::BadConstant),
                                    ),
                                    Some(fname) => {
                                        if !fields_map(inst.fields).contains_key(fname) {
                                            r == Err::<bool, VmError>(
                                                VmError::Resolution(ResolutionError::FieldNotFound),
                                            )
                                        } else {
                                            r == Ok::<bool, VmError>(true) && post == with_top(
                                                pre,
                                                FrameV {
                                                    operand_stack: s.drop_last().push(
                                                        fields_map(inst.fields)[fname],
                                                    ),
                                                    ..f
                                                },
                                            )
                                        }
                                    },
                                }
                            }
                        },
                        _ => r == Err::<bool, VmError>(
                            VmError::Unsupported(UnsupportedFeature::ReferenceKind),
                        ),
                    },
                    _ => r == Err::<bool, VmError>(VmError::Type(TypeError::Mismatch)),
                }
            }
        },
        ByteCode::PutField(idx) => {
            if s.len() < 2 {
                r == Err::<bool, VmError>(VmError::Type(TypeError::StackUnderflow))
            } else {
                let value = s[s.len() - 1];
                match s[s.len() - 2] {
                    ValueV::Reference(rf) => match rf {
                        Reference::Object(oi) => {
                            if oi as int >= pre.heap.len() || pre.heap[oi as int] is None {
                                r == Err::<bool, VmError>(
                                    VmError::Resolution(ResolutionError::DanglingReference),
                                )
                            } else {
                                let inst = pre.heap[oi as int]->Some_0;
                                match spec_field_name(pool, idx as int) {
                                    None => r == Err::<bool, VmError>(
                                        VmError::Resolution(ResolutionError::BadConstant),
                                    ),
                                    Some(fname) => {
                                        exists|fields2: Seq<(Seq<char>, ValueV)>|
                                            {
                                                &&& fields_wf(fields2)
                                                &&& fields_map(fields2) == fields_map(
                                                    inst.fields,
                                                ).insert(fname, value)
                                                &&& r == Ok::<bool, VmError>(true)
                                                &&& post == MachineV {
                                                    frames: pre.frames.update(
                                                        pre.frames.len() - 1,
                                                        FrameV {
                                                            operand_stack: s.take(s.len() - 2),
                                                            ..f
                                                        },
                                                    ),
                                                    heap: pre.heap.update(
                                                        oi as int,
                                                        Some(
                                                            InstantceV {
                                                                class: inst.class,
                                                                index: inst.index,
                                                                fields: fields2,
                                                            },
                                                        ),
                                                    ),
                                                    ..pre
                                                }
                                            }
                                    },
                                }
                            }
                        },
                        _ => r == Err::<bool, VmError>(
                            VmError::Unsupported(UnsupportedFeature::ReferenceKind),
                        ),
                    },
                    _ => r == Err::<bool, VmError>(VmError::Type(TypeError::Mismatch)),
                }
            }
        },
        ByteCode::InvokeSpecial(idx) => {
            match spec_class_method(pool, idx as int) {
                None => r == Err::<bool, VmError>(VmError::Resolution(ResolutionError::BadConstant)),
                Some((cls, mname)) => {
                    if cls == "java/lang/Object"@ && mname == "<init>"@ {
                        // The implicit object constructor: consume the
                        // receiver, otherwise a no-op.
                        if s.len() == 0 {
                            r == Err::<bool, VmError>(VmError::Type(TypeError::StackUnderflow))
                        } else {
                            r == Ok::<bool, VmError>(true) && post == with_top(
                                pre,
                                FrameV { operand_stack: s.drop_last(), ..f },
                            )
                        }
                    } else {
                        invoke_rel(pre, c, cls, mname, post, r)
                    }
                },
            }
        },
        ByteCode::InvokeVirtual(idx) => {
            match spec_class_method(pool, idx as int) {
                None => r == Err::<bool, VmError>(VmError::Resolution(ResolutionError::BadConstant)),
                Some((cls, mname)) => {
                    if cls == "java/io/PrintStream"@ && mname == "println"@ {
                        // The console intrinsic: pop one value and write
                        // its display form as a line; no frame transition.
                        if s.len() == 0 {
                            r == Err::<bool, VmError>(VmError::Type(TypeError::StackUnderflow))
                        } else {
                            let m2 = with_top(pre, FrameV { operand_stack: s.drop_last(), ..f });
                            r == Ok::<bool, VmError>(true) && post == MachineV {
                                output: pre.output.push(display_str(s.last())),
                                ..m2
                            }
                        }
                    } else {
                        invoke_rel(pre, c, cls, mname, post, r)
                    }
                },
            }
        },
        ByteCode::InvokeStatic(idx) => {
            match spec_class_method(pool, idx as int) {
                None => r == Err::<bool, VmError>(VmError::Resolution(ResolutionError::BadConstant)),
                Some((cls, mname)) => invoke_rel(pre, c, cls, mname, post, r),
            }
        },
    }
}

/// The (class name, field name, field type) behind a field-reference
/// pool entry, when the whole chain resolves.
pub open spec fn spec_static_field(pool: Seq<ConstantInfoV>, i: int) -> Option<
    (Seq<char>, Seq<char>, Seq<char>),
> {
    match pool_field_ref(pool, i) {
        None => None,
        Some((class_index, name_and_type_index)) => match pool_class(pool, class_index as int) {
            None => None,
            Some(class_name_index) => match pool_utf8(pool, class_name_index as int) {
                None => None,
                Some(cls) => match pool_name_and_type(pool, name_and_type_index as int) {
                    None => None,
                    Some((name_index, type_index)) => match pool_utf8(pool, name_index as int) {
                        None => None,
                        Some(nm) => match pool_utf8(pool, type_index as int) {
                            None => None,
                            Some(ty) => Some((cls, nm, ty)),
                        },
                    },
                },
            },
        },
    }
}

/// The field name behind a field-reference pool entry, when the name
/// side of the chain resolves.
pub open spec fn spec_field_name(pool: Seq<ConstantInfoV>, i: int) -> Option<Seq<char>> {
    match pool_field_ref(pool, i) {
        None => None,
        Some((_class_index, name_and_type_index)) => match pool_name_and_type(
            pool,
            name_and_type_index as int,
        ) {
            None => None,
            Some((name_index, _type_index)) => pool_utf8(pool, name_index as int),
        },
    }
}

// ---------------------------------------------------------------------
// Small vector helpers that track the deep view
// ---------------------------------------------------------------------

fn vec_push_dv<T: DeepView>(v: &mut Vec<T>, x: T)
    ensures
        final(v).deep_view() == old(v).deep_view().push(x.deep_view()),
{
    let ghost pre = v.deep_view();
    let ghost prev = v@;
    v.push(x);
    proof {
        assert forall|i: int| 0 <= i < v@.len() implies v.deep_view()[i] == pre.push(
            x.deep_view(),
        )[i] by {
            if i < prev.len() {
                assert(v@[i] == prev[i]);
            } else {
                assert(v@[i] == x);
            }
        }
        assert(v.deep_view() =~= pre.push(x.deep_view()));
    }
}

fn vec_pop_dv<T: DeepView>(v: &mut Vec<T>) -> (r: Option<T>)
    ensures
        match r {
            Some(x) => old(v).deep_view().len() > 0 && x.deep_view() == old(
                v,
            ).deep_view().last() && final(v).deep_view() == old(v).deep_view().drop_last(),
            None => old(v).deep_view().len() == 0 && final(v).deep_view() == old(v).deep_view(),
        },
{
    let ghost pre = v.deep_view();
    let ghost prev = v@;
    let r = v.pop();
    proof {
        if prev.len() > 0 {
            assert forall|i: int| 0 <= i < v@.len() implies v.deep_view()[i] == pre.drop_last()[i] by {
                assert(v@[i] == prev[i]);
            }
            assert(v.deep_view() =~= pre.drop_last());
        } else {
            assert(v.deep_view() =~= pre);
        }
    }
    r
}

fn vec_set_dv<T: DeepView>(v: &mut Vec<T>, i: usize, x: T)
    requires
        (i as int) < old(v).deep_view().len(),
    ensures
        final(v).deep_view() == old(v).deep_view().update(i as int, x.deep_view()),
{
    let ghost pre = v.deep_view();
    let ghost prev = v@;
    v[i] = x;
    proof {
        assert forall|j: int| 0 <= j < v@.len() implies v.deep_view()[j] == pre.update(
            i as int,
            x.deep_view(),
        )[j] by {
            if j != i as int {
                assert(v@[j] == prev[j]);
            } else {
                assert(v@[j] == x);
            }
        }
        assert(v.deep_view() =~= pre.update(i as int, x.deep_view()));
    }
}

// ---------------------------------------------------------------------
// The shared invocation path
// ---------------------------------------------------------------------

/// Resolve an invocation target and build its activation frame,
/// transferring `argument_count + 1` values from the detached caller
/// frame's operand stack into the callee's locals in order.
#[verifier::loop_isolation(false)]
#[verifier::rlimit(100)]
fn invoke_common(
    m: &mut Machine,
    frame: Frame,
    class: &ClassFile,
    cls: &String,
    mname: &String,
) -> (r: Result<bool, VmError>)
    requires
        heap_wf(old(m)@.heap),
    ensures
        invoke_rel(
            MachineV {
                frames: old(m)@.frames.push(frame@),
                heap: old(m)@.heap,
                output: old(m)@.output,
                log: old(m)@.log,
            },
            class@,
            cls@,
            mname@,
            final(m)@,
            r,
        ),
        heap_wf(final(m)@.heap),
        r == Ok::<bool, VmError>(true) ==> final(m)@.frames.len() == old(m)@.frames.len() + 2,
        r is Err ==> final(m)@ == old(m)@,
{
    let ghost pre = MachineV {
        frames: m@.frames.push(frame@),
        heap: m@.heap,
        output: m@.output,
        log: m@.log,
    };
    let ghost s = frame@.operand_stack;
    let mut frame = frame;
    let cn = match class.name() {
        Some(cn) => cn,
        None => {
            return Err(VmError::Resolution(ResolutionError::ClassNotFound));
        },
    };
    if !(cn == *cls) {
        return Err(VmError::Resolution(ResolutionError::ClassNotFound));
    }
    let mi = match class.find_method(mname.as_str()) {
        Some(mi) => mi,
        None => {
            return Err(VmError::Resolution(ResolutionError::MethodNotFound));
        },
    };
    proof {
        assert(class.methods@[mi as int].deep_view() == class@.methods[mi as int]);
    }
    let descriptor = match pool_utf8_exec(
        &class.constant_pool,
        class.methods[mi].descriptor_index as usize,
    ) {
        Some(d) => d,
        None => {
            return Err(VmError::Resolution(ResolutionError::BadConstant));
        },
    };
    let nargs = args_size(descriptor.as_str())?;
    let code = class.methods[mi].code(&class.constant_pool)?;
    if nargs >= frame.operand_stack.len() {
        return Err(VmError::Type(TypeError::StackUnderflow));
    }
    if (code.max_locals as usize) <= nargs {
        return Err(VmError::Type(TypeError::LocalOutOfRange));
    }
    let mut callee = Frame::new(mname.as_str(), code.code.as_slice(), code.max_locals, code.max_stack);
    let mut i: usize = 0;
    while i < nargs + 1
        invariant
            i <= nargs + 1,
            nargs + 1 <= s.len(),
            nargs + 1 <= code.max_locals as int,
            frame@.operand_stack =~= s.take(s.len() - i as int),
            frame@.pc == pre.frames.last().pc,
            frame@.name == pre.frames.last().name,
            frame@.codes == pre.frames.last().codes,
            frame@.locals == pre.frames.last().locals,
            callee@.pc == 0,
            callee@.name == mname@,
            callee@.codes == code@.code,
            callee@.operand_stack == Seq::new(code.max_stack as nat, |l: int| ValueV::Int(0)),
            callee@.locals =~= Seq::new(
                code.max_locals as nat,
                |l: int|
                    if nargs + 1 - i as int <= l < nargs + 1 {
                        s[s.len() - (nargs + 1) + l]
                    } else {
                        ValueV::Int(0)
                    },
            ),
        decreases nargs + 1 - i,
    {
        let ghost prev_stack = frame@.operand_stack;
        let ghost prev_locals = callee@.locals;
        let v = match vec_pop_dv(&mut frame.operand_stack) {
            Some(v) => v,
            None => {
                proof {
                    assert(false);
                }
                Value::Int(0)
            },
        };
        proof {
            assert(v@ == s[s.len() - i as int - 1]);
        }
        vec_set_dv(&mut callee.locals, nargs - i, v);
        i = i + 1;
        proof {
            assert(frame@.operand_stack =~= s.take(s.len() - i as int));
            assert forall|l: int| 0 <= l < code.max_locals as int implies callee@.locals[l] == (
            if nargs + 1 - i as int <= l < nargs + 1 {
                s[s.len() - (nargs + 1) + l]
            } else {
                ValueV::Int(0)
            }) by {
                if l == nargs + 1 - i as int {
                    assert(callee@.locals[l] == v@);
                } else {
                    assert(callee@.locals[l] == prev_locals[l]);
                }
            }
            assert(callee@.locals =~= Seq::new(
                code.max_locals as nat,
                |l: int|
                    if nargs + 1 - i as int <= l < nargs + 1 {
                        s[s.len() - (nargs + 1) + l]
                    } else {
                        ValueV::Int(0)
                    },
            ));
        }
    }
    let ghost caller_v = frame@;
    let ghost callee_v = callee@;
    vec_push_dv(&mut m.stack, frame);
    vec_push_dv(&mut m.stack, callee);
    proof {
        let fpre = pre.frames.last();
        let nargs_i = nargs as int;
        assert(caller_v =~= (FrameV {
            operand_stack: s.take(s.len() - (nargs_i + 1)),
            ..fpre
        }));
        assert(callee_v =~= (FrameV {
            pc: 0,
            name: mname@,
            codes: code@.code,
            operand_stack: Seq::new(code.max_stack as nat, |i: int| ValueV::Int(0)),
            locals: Seq::new(
                code.max_locals as nat,
                |l: int|
                    if l < nargs_i + 1 {
                        s[s.len() - (nargs_i + 1) + l]
                    } else {
                        ValueV::Int(0)
                    },
            ),
        }));
        assert(m@.frames =~= pre.frames.update(pre.frames.len() - 1, caller_v).push(callee_v));
        assert(m@ =~= (MachineV {
            frames: pre.frames.update(pre.frames.len() - 1, caller_v).push(callee_v),
            ..pre
        }));
        assert(spec_find_method(class@, mname@) == Some(mi as int));
        assert(pool_utf8(class@.constant_pool, class@.methods[mi as int].descriptor_index as int)
            == Some(descriptor@));
        assert(spec_args_size(descriptor@) == Ok::<int, VmError>(nargs_i));
        assert(spec_method_code(class@.constant_pool, class@.methods[mi as int]) == Ok::<
            CodeAttributeV,
            VmError,
        >(code@));
        assert(invoke_rel(pre, class@, cls@, mname@, m@, Ok::<bool, VmError>(true)));
    }
    Ok(true)
}

/// What one whole step does: decode the instruction at the current
/// frame's program counter, advance past it, then execute it.
/// `Ok(true)` continues, `Ok(false)` ends the run.
pub open spec fn step_rel(
    pre: MachineV,
    c: ClassFileV,
    post: MachineV,
    r: Result<bool, VmError>,
) -> bool {
    let f = pre.frames.last();
    match spec_decode(f.codes, f.pc as int) {
        Err(e) => r == Err::<bool, VmError>(e),
        Ok((pc2, bc)) => instr_rel(
            with_top(pre, FrameV { pc: pc2 as usize, ..f }),
            c,
            bc,
            post,
            r,
        ),
    }
}

/// Resolve the (class name, field name, field type) behind a field
/// reference.
fn static_field_exec(pool: &Vec<ConstantInfo>, i: usize) -> (r: Option<(String, String, String)>)
    ensures
        match r {
            Some((c, n, t)) => spec_static_field(pool.deep_view(), i as int) == Some(
                (c@, n@, t@),
            ),
            None => spec_static_field(pool.deep_view(), i as int) is None,
        },
{
    let (class_index, name_and_type_index) = match pool_field_ref_exec(pool, i) {
        Some(v) => v,
        None => {
            return None;
        },
    };
    let class_name_index = match pool_class_exec(pool, class_index as usize) {
        Some(v) => v,
        None => {
            return None;
        },
    };
    let cls = match pool_utf8_exec(pool, class_name_index as usize) {
        Some(v) => v,
        None => {
            return None;
        },
    };
    let (name_index, type_index) = match pool_name_and_type_exec(
        pool,
        name_and_type_index as usize,
    ) {
        Some(v) => v,
        None => {
            return None;
        },
    };
    let nm = match pool_utf8_exec(pool, name_index as usize) {
        Some(v) => v,
        None => {
            return None;
        },
    };
    let ty = match pool_utf8_exec(pool, type_index as usize) {
        Some(v) => v,
        None => {
            return None;
        },
    };
    Some((cls, nm, ty))
}

/// Resolve the field name behind a field reference.
fn field_name_exec(pool: &Vec<ConstantInfo>, i: usize) -> (r: Option<String>)
    ensures
        match r {
            Some(n) => spec_field_name(pool.deep_view(), i as int) == Some(n@),
            None => spec_field_name(pool.deep_view(), i as int) is None,
        },
{
    let (_class_index, name_and_type_index) = match pool_field_ref_exec(pool, i) {
        Some(v) => v,
        None => {
            return None;
        },
    };
    let (name_index, _type_index) = match pool_name_and_type_exec(
        pool,
        name_and_type_index as usize,
    ) {
        Some(v) => v,
        None => {
            return None;
        },
    };
    pool_utf8_exec(pool, name_index as usize)
}

/// Perform one fetch-decode-execute step on the machine. `Ok(true)`
/// continues the run, `Ok(false)` ends it (a return from the outermost
/// frame), and an error is fatal.
#[verifier::rlimit(100)]
pub fn step(m: &mut Machine, class: &ClassFile) -> (r: Result<bool, VmError>)
    requires
        old(m)@.frames.len() > 0,
        heap_wf(old(m)@.heap),
    ensures
        step_rel(old(m)@, class@, final(m)@, r),
        r == Ok::<bool, VmError>(true) ==> final(m)@.frames.len() > 0 && heap_wf(final(m)@.heap),
        r == Ok::<bool, VmError>(false) ==> heap_wf(final(m)@.heap),
{
    let ghost pre = m@;
    let mut frame = match vec_pop_dv(&mut m.stack) {
        Some(f) => f,
        None => {
            proof {
                assert(false);
            }
            return Err(VmError::Type(TypeError::StackUnderflow));
        },
    };
    let ghost rest = m@.frames;
    proof {
        assert(frame@ == pre.frames.last());
    }
    let bc = match frame.fetch() {
        Ok(bc) => bc,
        Err(e) => {
            vec_push_dv(&mut m.stack, frame);
            return Err(e);
        },
    };
    let ghost f1 = frame@;
    let ghost m1 = with_top(pre, f1);
    proof {
        assert(m1.frames =~= rest.push(f1));
        assert(m@.heap == m1.heap);
        assert(m@.output == m1.output);
        assert(m@.log == m1.log);
    }
    match bc {
        ByteCode::IConst(v) => {
            vec_push_dv(&mut frame.operand_stack, Value::Int(v));
            let ghost f2 = frame@;
            vec_push_dv(&mut m.stack, frame);
            proof {
                assert(f2 =~= (FrameV {
                    operand_stack: f1.operand_stack.push(ValueV::Int(v)),
                    ..f1
                }));
                assert(m@ =~= top_push(m1, ValueV::Int(v)));
            }
            Ok(true)
        },
        ByteCode::Bipush(b) => {
            let v: i32 = b as i32;
            vec_push_dv(&mut frame.operand_stack, Value::Int(v));
            let ghost f2 = frame@;
            vec_push_dv(&mut m.stack, frame);
            proof {
                assert(f2 =~= (FrameV {
                    operand_stack: f1.operand_stack.push(ValueV::Int(v)),
                    ..f1
                }));
                assert(m@ =~= top_push(m1, ValueV::Int(v)));
            }
            Ok(true)
        },
        ByteCode::Dup => {
            let v = match vec_pop_dv(&mut frame.operand_stack) {
                Some(v) => v,
                None => {
                    return Err(VmError::Type(TypeError::StackUnderflow));
                },
            };
            let copy = v.duplicate();
            vec_push_dv(&mut frame.operand_stack, v);
            vec_push_dv(&mut frame.operand_stack, copy);
            let ghost f2 = frame@;
            vec_push_dv(&mut m.stack, frame);
            proof {
                assert(f1.operand_stack.drop_last().push(f1.operand_stack.last())
                    =~= f1.operand_stack);
                assert(f2 =~= (FrameV {
                    operand_stack: f1.operand_stack.push(f1.operand_stack.last()),
                    ..f1
                }));
                assert(m@ =~= top_push(m1, f1.operand_stack.last()));
            }
            Ok(true)
        },
        ByteCode::IStore(idx) => {
            let v = match vec_pop_dv(&mut frame.operand_stack) {
                Some(v) => v,
                None => {
                    return Err(VmError::Type(TypeError::StackUnderflow));
                },
            };
            match &v {
                Value::Int(_) => {},
                _ => {
                    return Err(VmError::Type(TypeError::Mismatch));
                },
            }
            if (idx as usize) < frame.locals.len() {
                vec_set_dv(&mut frame.locals, idx as usize, v);
                let ghost f2 = frame@;
                vec_push_dv(&mut m.stack, frame);
                proof {
                    assert(f2 =~= (FrameV {
                        operand_stack: f1.operand_stack.drop_last(),
                        locals: f1.locals.update(idx as int, f1.operand_stack.last()),
                        ..f1
                    }));
                    assert(m@ =~= with_top(m1, f2));
                }
                Ok(true)
            } else {
                Err(VmError::Type(TypeError::LocalOutOfRange))
            }
        },
        ByteCode::AStore(idx) => {
            let v = match vec_pop_dv(&mut frame.operand_stack) {
                Some(v) => v,
                None => {
                    return Err(VmError::Type(TypeError::StackUnderflow));
                },
            };
            match &v {
                Value::Reference(_) => {},
                _ => {
                    return Err(VmError::Type(TypeError::Mismatch));
                },
            }
            if (idx as usize) < frame.locals.len() {
                vec_set_dv(&mut frame.locals, idx as usize, v);
                let ghost f2 = frame@;
                vec_push_dv(&mut m.stack, frame);
                proof {
                    assert(f2 =~= (FrameV {
                        operand_stack: f1.operand_stack.drop_last(),
                        locals: f1.locals.update(idx as int, f1.operand_stack.last()),
                        ..f1
                    }));
                    assert(m@ =~= with_top(m1, f2));
                }
                Ok(true)
            } else {
                Err(VmError::Type(TypeError::LocalOutOfRange))
            }
        },
        ByteCode::ILoad(idx) => {
            if (idx as usize) < frame.locals.len() {
                let v = frame.locals[idx as usize].duplicate();
                proof {
                    assert(v@ == f1.locals[idx as int]);
                }
                match &v {
                    Value::Int(_) => {},
                    _ => {
                        return Err(VmError::Type(TypeError::Mismatch));
                    },
                }
                vec_push_dv(&mut frame.operand_stack, v);
                let ghost f2 = frame@;
                vec_push_dv(&mut m.stack, frame);
                proof {
                    assert(f2 =~= (FrameV {
                        operand_stack: f1.operand_stack.push(f1.locals[idx as int]),
                        ..f1
                    }));
                    assert(m@ =~= top_push(m1, f1.locals[idx as int]));
                }
                Ok(true)
            } else {
                Err(VmError::Type(TypeError::LocalOutOfRange))
            }
        },
        ByteCode::ALoad(idx) => {
            if (idx as usize) < frame.locals.len() {
                let v = frame.locals[idx as usize].duplicate();
                proof {
                    assert(v@ == f1.locals[idx as int]);
                }
                match &v {
                    Value::Reference(_) => {},
                    _ => {
                        return Err(VmError::Type(TypeError::Mismatch));
                    },
                }
                vec_push_dv(&mut frame.operand_stack, v);
                let ghost f2 = frame@;
                vec_push_dv(&mut m.stack, frame);
                proof {
                    assert(f2 =~= (FrameV {
                        operand_stack: f1.operand_stack.push(f1.locals[idx as int]),
                        ..f1
                    }));
                    assert(m@ =~= top_push(m1, f1.locals[idx as int]));
                }
                Ok(true)
            } else {
                Err(VmError::Type(TypeError::LocalOutOfRange))
            }
        },
        ByteCode::IAdd => {
            let v1 = match vec_pop_dv(&mut frame.operand_stack) {
                Some(v) => v,
                None => {
                    return Err(VmError::Type(TypeError::StackUnderflow));
                },
            };
            let v2 = match vec_pop_dv(&mut frame.operand_stack) {
                Some(v) => v,
                None => {
                    return Err(VmError::Type(TypeError::StackUnderflow));
                },
            };
            let a: i32 = match &v1 {
                Value::Int(a) => *a,
                _ => {
                    return Err(VmError::Type(TypeError::Mismatch));
                },
            };
            let b: i32 = match &v2 {
                Value::Int(b) => *b,
                _ => {
                    return Err(VmError::Type(TypeError::Mismatch));
                },
            };
            let sum: i64 = (a as i64) + (b as i64);
            let w: i32 = if sum > (i32::MAX as i64) {
                (sum - 4294967296i64) as i32
            } else if sum < (i32::MIN as i64) {
                (sum + 4294967296i64) as i32
            } else {
                sum as i32
            };
            proof {
                assert(w == wrap_add_i32(a, b));
            }
            vec_push_dv(&mut frame.operand_stack, Value::Int(w));
            let ghost f2 = frame@;
            vec_push_dv(&mut m.stack, frame);
            proof {
                let s = f1.operand_stack;
                assert(s.drop_last().drop_last() =~= s.take(s.len() - 2));
                assert(f2 =~= (FrameV {
                    operand_stack: s.take(s.len() - 2).push(ValueV::Int(w)),
                    ..f1
                }));
                assert(m@ =~= with_top(m1, f2));
            }
            Ok(true)
        },
        ByteCode::Return => {
            if m.stack.len() == 0 {
                vec_push_dv(&mut m.stack, frame);
                proof {
                    assert(m@ =~= m1);
                }
                Ok(false)
            } else {
                let logline = m.heap.gc(&m.stack, frame.name.as_str());
                match logline {
                    Some(l) => vec_push_dv(&mut m.log, l),
                    None => {},
                }
                proof {
                    assert(m1.frames.drop_last() =~= rest);
                    let target = gc_post(m1, rest, f1.name);
                    assert(m@.heap =~= target.heap);
                    assert(m@.log =~= target.log);
                    assert(m@ =~= target);
                }
                Ok(true)
            }
        },
        ByteCode::IReturn => {
            if m.stack.len() == 0 {
                return Err(VmError::Type(TypeError::StackUnderflow));
            }
            let v = match vec_pop_dv(&mut frame.operand_stack) {
                Some(v) => v,
                None => {
                    return Err(VmError::Type(TypeError::StackUnderflow));
                },
            };
            let mut caller = match vec_pop_dv(&mut m.stack) {
                Some(c) => c,
                None => {
                    proof {
                        assert(false);
                    }
                    return Err(VmError::Type(TypeError::StackUnderflow));
                },
            };
            vec_push_dv(&mut caller.operand_stack, v);
            let ghost caller2 = caller@;
            vec_push_dv(&mut m.stack, caller);
            let logline = m.heap.gc(&m.stack, frame.name.as_str());
            match logline {
                Some(l) => vec_push_dv(&mut m.log, l),
                None => {},
            }
            proof {
                let old_caller = m1.frames[m1.frames.len() - 2];
                assert(old_caller == rest.last());
                assert(caller2 =~= (FrameV {
                    operand_stack: old_caller.operand_stack.push(f1.operand_stack.last()),
                    ..old_caller
                }));
                let frames2 = m1.frames.drop_last().update(m1.frames.len() - 2, caller2);
                assert(frames2 =~= rest.drop_last().push(caller2));
                let target = gc_post(m1, frames2, f1.name);
                assert(m@.frames =~= frames2);
                assert(m@.heap =~= target.heap);
                assert(m@.log =~= target.log);
                assert(m@ =~= target);
            }
            Ok(true)
        },
        ByteCode::New(idx) => {
            let ci = match pool_class_exec(&class.constant_pool, idx as usize) {
                Some(ci) => ci,
                None => {
                    return Err(VmError::Resolution(ResolutionError::BadConstant));
                },
            };
            let rf = m.heap.malloc_instance(ci as usize);
            vec_push_dv(&mut frame.operand_stack, Value::Reference(rf));
            let ghost f2 = frame@;
            vec_push_dv(&mut m.stack, frame);
            proof {
                let inst = InstantceV {
                    class: ci as usize,
                    index: m1.heap.len() as usize,
                    fields: Seq::empty(),
                };
                let m2 = MachineV { heap: m1.heap.push(Some(inst)), ..m1 };
                assert(f2 =~= (FrameV {
                    operand_stack: f1.operand_stack.push(
                        ValueV::Reference(Reference::Object(m1.heap.len() as usize)),
                    ),
                    ..f1
                }));
                assert(m@ =~= top_push(m2, ValueV::Reference(
                    Reference::Object(m1.heap.len() as usize),
                )));
            }
            Ok(true)
        },
        ByteCode::Ldc(idx) => {
            if (idx as usize) < class.constant_pool.len() {
                proof {
                    assert(class@.constant_pool[idx as int] == class.constant_pool@[idx as int]@);
                }
                let si: u16 = match &class.constant_pool[idx as usize] {
                    ConstantInfo::String(si) => *si,
                    _ => {
                        return Err(VmError::Unsupported(UnsupportedFeature::Constant));
                    },
                };
                match pool_utf8_exec(&class.constant_pool, si as usize) {
                    Some(text) => {
                        let ghost t = text@;
                        vec_push_dv(&mut frame.operand_stack, Value::String(text));
                        let ghost f2 = frame@;
                        vec_push_dv(&mut m.stack, frame);
                        proof {
                            assert(f2 =~= (FrameV {
                                operand_stack: f1.operand_stack.push(ValueV::String(t)),
                                ..f1
                            }));
                            assert(m@ =~= top_push(m1, ValueV::String(t)));
                        }
                        Ok(true)
                    },
                    None => Err(VmError::Resolution(ResolutionError::BadConstant)),
                }
            } else {
                Err(VmError::Resolution(ResolutionError::BadConstant))
            }
        },
        ByteCode::GetStatic(idx) => {
            match static_field_exec(&class.constant_pool, idx as usize) {
                None => Err(VmError::Resolution(ResolutionError::BadConstant)),
                Some((cls, nm, ty)) => {
                    let is_console = cls == "java/lang/System".to_owned() && nm
                        == "out".to_owned() && ty == "Ljava/io/PrintStream;".to_owned();
                    if is_console {
                        let rf = m.heap.malloc_instance(0);
                        vec_push_dv(&mut frame.operand_stack, Value::Reference(rf));
                        let ghost f2 = frame@;
                        vec_push_dv(&mut m.stack, frame);
                        proof {
                            let inst = InstantceV {
                                class: 0,
                                index: m1.heap.len() as usize,
                                fields: Seq::empty(),
                            };
                            let m2 = MachineV { heap: m1.heap.push(Some(inst)), ..m1 };
                            assert(f2 =~= (FrameV {
                                operand_stack: f1.operand_stack.push(
                                    ValueV::Reference(Reference::Object(m1.heap.len() as usize)),
                                ),
                                ..f1
                            }));
                            assert(m@ =~= top_push(m2, ValueV::Reference(
                                Reference::Object(m1.heap.len() as usize),
                            )));
                        }
                        Ok(true)
                    } else {
                        Err(VmError::Unsupported(UnsupportedFeature::StaticField))
                    }
                },
            }
        },
        ByteCode::GetField(idx) => {
            let v = match vec_pop_dv(&mut frame.operand_stack) {
                Some(v) => v,
                None => {
                    return Err(VmError::Type(TypeError::StackUnderflow));
                },
            };
            let rf = match v.as_reference() {
                Some(rf) => rf,
                None => {
                    return Err(VmError::Type(TypeError::Mismatch));
                },
            };
            let inst = match m.heap.get(&rf) {
                Ok(inst) => inst,
                Err(e) => {
                    return Err(e);
                },
            };
            let fname = match field_name_exec(&class.constant_pool, idx as usize) {
                Some(f) => f,
                None => {
                    return Err(VmError::Resolution(ResolutionError::BadConstant));
                },
            };
            let fv = match inst.get_field(fname.as_str()) {
                Some(fv) => fv,
                None => {
                    return Err(VmError::Resolution(ResolutionError::FieldNotFound));
                },
            };
            vec_push_dv(&mut frame.operand_stack, fv);
            let ghost f2 = frame@;
            vec_push_dv(&mut m.stack, frame);
            proof {
                assert(f2 =~= (FrameV {
                    operand_stack: f1.operand_stack.drop_last().push(f2.operand_stack.last()),
                    ..f1
                }));
                assert(m@ =~= with_top(m1, f2));
            }
            Ok(true)
        },
        ByteCode::PutField(idx) => {
            let value = match vec_pop_dv(&mut frame.operand_stack) {
                Some(v) => v,
                None => {
                    return Err(VmError::Type(TypeError::StackUnderflow));
                },
            };
            let vref = match vec_pop_dv(&mut frame.operand_stack) {
                Some(v) => v,
                None => {
                    return Err(VmError::Type(TypeError::StackUnderflow));
                },
            };
            let rf = match vref.as_reference() {
                Some(rf) => rf,
                None => {
                    return Err(VmError::Type(TypeError::Mismatch));
                },
            };
            match m.heap.get(&rf) {
                Ok(_inst) => {},
                Err(e) => {
                    return Err(e);
                },
            };
            let fname = match field_name_exec(&class.constant_pool, idx as usize) {
                Some(f) => f,
                None => {
                    return Err(VmError::Resolution(ResolutionError::BadConstant));
                },
            };
            let ghost value_v = value@;
            match m.heap.put_field(&rf, fname.as_str(), value) {
                Ok(()) => {},
                Err(_e) => {
                    proof {
                        assert(false);
                    }
                    return Err(VmError::Resolution(ResolutionError::DanglingReference));
                },
            };
            let ghost f2target = FrameV {
                operand_stack: f1.operand_stack.take(f1.operand_stack.len() - 2),
                ..f1
            };
            proof {
                assert(frame@ =~= f2target);
            }
            vec_push_dv(&mut m.stack, frame);
            proof {
                let oi = rf->Object_0 as int;
                let fields2 = m@.heap[oi]->Some_0.fields;
                assert(fields_wf(fields2));
                assert(m@.frames =~= m1.frames.update(m1.frames.len() - 1, f2target));
                let inst = m1.heap[oi]->Some_0;
                assert(m@.heap =~= m1.heap.update(
                    oi,
                    Some(InstantceV { class: inst.class, index: inst.index, fields: fields2 }),
                ));
                assert(m@ =~= (MachineV {
                    frames: m1.frames.update(m1.frames.len() - 1, f2target),
                    heap: m1.heap.update(
                        oi,
                        Some(InstantceV { class: inst.class, index: inst.index, fields: fields2 }),
                    ),
                    ..m1
                }));
            }
            Ok(true)
        },
        ByteCode::InvokeSpecial(idx) => {
            let (cls, mname) = match class_method(idx as usize, &class.constant_pool) {
                Ok(cm) => cm,
                Err(e) => {
                    return Err(e);
                },
            };
            let is_ctor = cls == "java/lang/Object".to_owned() && mname == "<init>".to_owned();
            if is_ctor {
                match vec_pop_dv(&mut frame.operand_stack) {
                    Some(_receiver) => {},
                    None => {
                        return Err(VmError::Type(TypeError::StackUnderflow));
                    },
                };
                let ghost f2 = frame@;
                vec_push_dv(&mut m.stack, frame);
                proof {
                    assert(f2 =~= (FrameV { operand_stack: f1.operand_stack.drop_last(), ..f1 }));
                    assert(m@ =~= with_top(m1, f2));
                }
                Ok(true)
            } else {
                let ghost mcall = m@;
                let r = invoke_common(m, frame, class, &cls, &mname);
                proof {
                    assert((MachineV {
                        frames: mcall.frames.push(f1),
                        heap: mcall.heap,
                        output: mcall.output,
                        log: mcall.log,
                    }) =~= m1);
                }
                r
            }
        },
        ByteCode::InvokeVirtual(idx) => {
            let (cls, mname) = match class_method(idx as usize, &class.constant_pool) {
                Ok(cm) => cm,
                Err(e) => {
                    return Err(e);
                },
            };
            let is_println = cls == "java/io/PrintStream".to_owned() && mname
                == "println".to_owned();
            if is_println {
                let v = match vec_pop_dv(&mut frame.operand_stack) {
                    Some(v) => v,
                    None => {
                        return Err(VmError::Type(TypeError::StackUnderflow));
                    },
                };
                let line = v.render();
                vec_push_dv(&mut m.output, line);
                let ghost f2 = frame@;
                vec_push_dv(&mut m.stack, frame);
                proof {
                    assert(f2 =~= (FrameV { operand_stack: f1.operand_stack.drop_last(), ..f1 }));
                    let m2 = with_top(m1, f2);
                    assert(m@ =~= (MachineV {
                        output: m1.output.push(display_str(f1.operand_stack.last())),
                        ..m2
                    }));
                }
                Ok(true)
            } else {
                let ghost mcall = m@;
                let r = invoke_common(m, frame, class, &cls, &mname);
                proof {
                    assert((MachineV {
                        frames: mcall.frames.push(f1),
                        heap: mcall.heap,
                        output: mcall.output,
                        log: mcall.log,
                    }) =~= m1);
                }
                r
            }
        },
        ByteCode::InvokeStatic(idx) => {
            let (cls, mname) = match class_method(idx as usize, &class.constant_pool) {
                Ok(cm) => cm,
                Err(e) => {
                    return Err(e);
                },
            };
            let ghost mcall = m@;
            let r = invoke_common(m, frame, class, &cls, &mname);
            proof {
                assert((MachineV {
                    frames: mcall.frames.push(f1),
                    heap: mcall.heap,
                    output: mcall.output,
                    log: mcall.log,
                }) =~= m1);
            }
            r
        },
    }
}

// ---------------------------------------------------------------------
// Whole runs
// ---------------------------------------------------------------------

/// The machine a run starts from: an empty heap and one frame for the
/// first method named "main", sized to its body.
pub open spec fn spec_init(c: ClassFileV) -> Result<MachineV, VmError> {
    match spec_find_method(c, "main"@) {
        None => Err(VmError::Resolution(ResolutionError::MethodNotFound)),
        Some(mi) => match spec_method_code(c.constant_pool, c.methods[mi]) {
            Err(e) => Err(e),
            Ok(code) => Ok(
                MachineV {
                    frames: seq![
                        FrameV {
                            pc: 0,
                            name: "main"@,
                            codes: code.code,
                            operand_stack: Seq::new(code.max_stack as nat, |i: int| ValueV::Int(0)),
                            locals: Seq::new(code.max_locals as nat, |i: int| ValueV::Int(0)),
                        },
                    ],
                    heap: Seq::empty(),
                    output: Seq::empty(),
                    log: Seq::empty(),
                },
            ),
        },
    }
}

/// A chain of continuing steps out of the initial machine.
pub open spec fn run_trace(trace: Seq<MachineV>, c: ClassFileV, m0: MachineV) -> bool {
    &&& trace.len() >= 1
    &&& trace[0] == m0
    &&& forall|k: int|
        0 <= k < trace.len() - 1 ==> #[trigger] step_rel(trace[k], c, trace[k + 1], Ok(true))
}

/// What a whole run leaves behind: the lines written to standard
/// output and the diagnostic log, in order.
pub struct RunOutput {
    pub output: Vec<String>,
    pub log: Vec<String>,
}

/// Interpret the class's "main" method until it returns from the
/// outermost frame, a fatal error stops the run, or `max_steps` steps
/// have run (`Ok(None)`; pass the largest budget for an effectively
/// unbounded run). A finished run hands back the console output and
/// the diagnostic log of a chain of steps from the initial machine,
/// ending in a halt or in the reported error.
#[verifier::loop_isolation(false)]
pub fn run(class: &ClassFile, max_steps: u64) -> (r: Result<Option<RunOutput>, VmError>)
    ensures
        match spec_init(class@) {
            Err(e) => r == Err::<Option<RunOutput>, VmError>(e),
            Ok(m0) => match r {
                Ok(Some(out)) => exists|trace: Seq<MachineV>, fin: MachineV|
                    {
                        &&& run_trace(trace, class@, m0)
                        &&& #[trigger] step_rel(trace.last(), class@, fin, Ok(false))
                        &&& out.output.deep_view() == fin.output
                        &&& out.log.deep_view() == fin.log
                    },
                Ok(None) => exists|trace: Seq<MachineV>|
                    #[trigger] run_trace(trace, class@, m0) && trace.len() == max_steps + 1,
                Err(e) => exists|trace: Seq<MachineV>, fin: MachineV|
                    {
                        &&& run_trace(trace, class@, m0)
                        &&& #[trigger] step_rel(trace.last(), class@, fin, Err(e))
                    },
            },
        },
{
    let mi = match class.find_main_method() {
        Some(mi) => mi,
        None => {
            return Err(VmError::Resolution(ResolutionError::MethodNotFound));
        },
    };
    let code = class.methods[mi].code(&class.constant_pool)?;
    let frame = Frame::new("main", code.code.as_slice(), code.max_locals, code.max_stack);
    let mut stack: Vec<Frame> = Vec::new();
    vec_push_dv(&mut stack, frame);
    let mut m = Machine { stack, heap: Heap::new(), output: Vec::new(), log: Vec::new() };
    let ghost m0 = spec_init(class@)->Ok_0;
    proof {
        assert(m@.frames =~= m0.frames);
        assert(m@.output =~= Seq::<Seq<char>>::empty());
        assert(m@.log =~= Seq::<Seq<char>>::empty());
        assert(m@ =~= m0);
    }
    let ghost mut trace: Seq<MachineV> = seq![m@];
    let mut steps: u64 = 0;
    while steps < max_steps
        invariant
            steps <= max_steps,
            m@.frames.len() > 0,
            heap_wf(m@.heap),
            run_trace(trace, class@, m0),
            trace.last() == m@,
            trace.len() == steps + 1,
        decreases max_steps - steps,
    {
        let ghost pre = m@;
        match step(&mut m, class) {
            Ok(true) => {
                steps = steps + 1;
                proof {
                    let t2 = trace.push(m@);
                    assert(t2.last() == m@);
                    assert(t2[0] == m0);
                    assert forall|k: int| 0 <= k < t2.len() - 1 implies #[trigger] step_rel(
                        t2[k],
                        class@,
                        t2[k + 1],
                        Ok(true),
                    ) by {
                        if k < trace.len() - 1 {
                            assert(t2[k] == trace[k]);
                            assert(t2[k + 1] == trace[k + 1]);
                            assert(step_rel(trace[k], class@, trace[k + 1], Ok(true)));
                        } else {
                            assert(t2[k] == pre);
                            assert(t2[k + 1] == m@);
                        }
                    }
                    trace = t2;
                }
            },
            Ok(false) => {
                let out = RunOutput { output: m.output, log: m.log };
                proof {
                    assert(trace.last() == pre);
                    assert(step_rel(trace.last(), class@, m@, Ok(false)));
                    assert(run_trace(trace, class@, m0));
                    assert(out.output.deep_view() == m@.output);
                    assert(out.log.deep_view() == m@.log);
                }
                return Ok(Some(out));
            },
            Err(e) => {
                proof {
                    assert(trace.last() == pre);
                    assert(step_rel(trace.last(), class@, m@, Err(e)));
                }
                return Err(e);
            },
        }
    }
    Ok(None)
}

/// Invocation slot layout: when one shared resolution succeeds, the
/// callee's locals hold, in order, the transferred values exactly as
/// they sat on the caller's operand stack — the deepest-popped value in
/// slot 0 (the receiver for instance calls), the arguments after it —
/// and every remaining local defaults to integer zero.
pub proof fn lemma_invocation_slot_layout(
    pre: MachineV,
    c: ClassFileV,
    cls: Seq<char>,
    mname: Seq<char>,
    post: MachineV,
)
    requires
        invoke_rel(pre, c, cls, mname, post, Ok(true)),
        pre.frames.len() > 0,
    ensures
        ({
            let mi = spec_find_method(c, mname)->Some_0;
            let desc = pool_utf8(c.constant_pool, c.methods[mi].descriptor_index as int)->Some_0;
            let nargs = spec_args_size(desc)->Ok_0;
            let s = pre.frames.last().operand_stack;
            let callee = post.frames.last();
            &&& callee.name == mname
            &&& forall|l: int|
                0 <= l < nargs + 1 ==> callee.locals[l] == s[s.len() - (nargs + 1) + l]
            &&& forall|l: int|
                nargs + 1 <= l < callee.locals.len() ==> callee.locals[l] == ValueV::Int(0)
            &&& post.frames.len() == pre.frames.len() + 1
        }),
{
    crate::class_file::lemma_find_method_some(c, mname, 0);
    let mi = spec_find_method(c, mname)->Some_0;
    let desc = pool_utf8(c.constant_pool, c.methods[mi].descriptor_index as int)->Some_0;
    lemma_args_size_at_least(desc, 0, 0, false);
}

} // verus!
