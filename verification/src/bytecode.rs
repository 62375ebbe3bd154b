//! The instruction decoder.
//!
//! Turns (code bytes, program counter) into one decoded instruction plus
//! the next program counter. Every opcode has a statically fixed total
//! width of one opcode byte plus zero, one or two immediate bytes;
//! multi-byte indices are big-endian. Contiguous opcode ranges encode
//! fast paths for small operand values; these normalize into the same
//! logical instruction, with the operand derived from the opcode's offset
//! in its range. Stateless between calls.

use vstd::prelude::*;

use crate::error::{DecodeError, VmError};

verus! {

/// One decoded instruction, carrying its decoded immediate operand(s).
/// Produced only by the decoder and never mutated.
#[derive(Debug, Clone, Copy, PartialEq, Eq, Structural)]
pub enum ByteCode {
    /// Get static field from class
    GetStatic(u16),
    /// Push item from run-time constant pool
    Ldc(u8),
    /// Invoke instance method; dispatch based on class
    InvokeVirtual(u16),
    /// Push byte
    Bipush(i8),
    /// Return void from method
    Return,
    /// Push int constant
    IConst(i32),
    /// Invoke a class (static) method
    InvokeStatic(u16),
    /// Store reference into local variable
    AStore(u8),
    /// Store int into local variable
    IStore(u8),
    /// Load reference from local variable
    ALoad(u8),
    /// Load int from local variable
    ILoad(u8),
    /// Add int
    IAdd,
    /// Create new object
    New(u16),
    /// Duplicate the top operand stack value
    Dup,
    /// Invoke instance method
    InvokeSpecial(u16),
    /// Fetch field from object
    GetField(u16),
    /// Set field in object
    PutField(u16),
    /// Return int from method
    IReturn,
}

pub const GETSTATIC: u8 = 0xb2;
pub const LDC: u8 = 0x12;
pub const INVOKEVIRTUAL: u8 = 0xb6;
pub const BIPUSH: u8 = 0x10;
pub const RETURN: u8 = 0xb1;
pub const INVOKESTATIC: u8 = 0xb8;
pub const IADD: u8 = 0x60;
pub const NEW: u8 = 0xbb;
pub const DUP: u8 = 0x59;
pub const INVOKESPECIAL: u8 = 0xb7;
pub const ISTORE: u8 = 0x36;
pub const ILOAD: u8 = 0x15;
pub const GETFIELD: u8 = 0xb4;
pub const PUTFIELD: u8 = 0xb5;
pub const IRETURN: u8 = 0xac;

/// How many immediate operand bytes follow the opcode byte, or `None`
/// for an opcode with no known decoding.
pub open spec fn immediate_count(op: u8) -> Option<int> {
    if op == NEW || op == GETSTATIC || op == INVOKEVIRTUAL || op == INVOKESPECIAL
        || op == INVOKESTATIC || op == GETFIELD || op == PUTFIELD {
        Some(2)
    } else if op == BIPUSH || op == LDC || op == ISTORE || op == ILOAD {
        Some(1)
    } else if op == RETURN || op == DUP || op == IADD || op == IRETURN {
        Some(0)
    } else if 0x2 <= op && op <= 0x8 {
        // iconst_m1 .. iconst_5
        Some(0)
    } else if 0x4b <= op && op <= 0x4e {
        // astore_0 .. astore_3
        Some(0)
    } else if 0x2a <= op && op <= 0x2d {
        // aload_0 .. aload_3
        Some(0)
    } else if 0x3b <= op && op <= 0x3e {
        // istore_0 .. istore_3
        Some(0)
    } else if 0x1a <= op && op <= 0x1d {
        // iload_0 .. iload_3
        Some(0)
    } else {
        None
    }
}

/// A big-endian two-byte index.
pub open spec fn spec_u16_be(hi: u8, lo: u8) -> u16 {
    ((hi as int) * 256 + (lo as int)) as u16
}

/// A byte reinterpreted as a signed value in two's complement.
pub open spec fn spec_as_signed(b: u8) -> i8 {
    if b < 128 {
        b as i8
    } else {
        ((b as int) - 256) as i8
    }
}

/// The instruction encoded at `pc`, assuming the opcode is known and its
/// immediates are in bounds.
pub open spec fn decode_op(code: Seq<u8>, pc: int) -> ByteCode {
    let op = code[pc];
    if op == NEW {
        ByteCode::New(spec_u16_be(code[pc + 1], code[pc + 2]))
    } else if op == GETSTATIC {
        ByteCode::GetStatic(spec_u16_be(code[pc + 1], code[pc + 2]))
    } else if op == INVOKEVIRTUAL {
        ByteCode::InvokeVirtual(spec_u16_be(code[pc + 1], code[pc + 2]))
    } else if op == INVOKESPECIAL {
        ByteCode::InvokeSpecial(spec_u16_be(code[pc + 1], code[pc + 2]))
    } else if op == INVOKESTATIC {
        ByteCode::InvokeStatic(spec_u16_be(code[pc + 1], code[pc + 2]))
    } else if op == GETFIELD {
        ByteCode::GetField(spec_u16_be(code[pc + 1], code[pc + 2]))
    } else if op == PUTFIELD {
        ByteCode::PutField(spec_u16_be(code[pc + 1], code[pc + 2]))
    } else if op == BIPUSH {
        ByteCode::Bipush(spec_as_signed(code[pc + 1]))
    } else if op == LDC {
        ByteCode::Ldc(code[pc + 1])
    } else if op == ISTORE {
        ByteCode::IStore(code[pc + 1])
    } else if op == ILOAD {
        ByteCode::ILoad(code[pc + 1])
    } else if op == RETURN {
        ByteCode::Return
    } else if op == DUP {
        ByteCode::Dup
    } else if op == IADD {
        ByteCode::IAdd
    } else if op == IRETURN {
        ByteCode::IReturn
    } else if 0x2 <= op && op <= 0x8 {
        ByteCode::IConst((op - 3) as i32)
    } else if 0x4b <= op && op <= 0x4e {
        ByteCode::AStore((op - 0x4b) as u8)
    } else if 0x2a <= op && op <= 0x2d {
        ByteCode::ALoad((op - 0x2a) as u8)
    } else if 0x3b <= op && op <= 0x3e {
        ByteCode::IStore((op - 0x3b) as u8)
    } else {
        ByteCode::ILoad((op - 0x1a) as u8)
    }
}

/// What decoding at `pc` yields: the next program counter and the
/// instruction, or the exact error. Decoding is a pure function of the
/// code bytes and the program counter.
pub open spec fn spec_decode(code: Seq<u8>, pc: int) -> Result<(int, ByteCode), VmError> {
    if !(0 <= pc < code.len()) {
        Err(VmError::Decode(DecodeError::TruncatedCode(pc as usize)))
    } else {
        match immediate_count(code[pc]) {
            Option::None => Err(VmError::Decode(DecodeError::UnknownOpcode(code[pc]))),
            Option::Some(n) => {
                if pc + 1 + n > code.len() {
                    Err(VmError::Decode(DecodeError::TruncatedCode(pc as usize)))
                } else {
                    Ok((pc + 1 + n, decode_op(code, pc)))
                }
            },
        }
    }
}

/// For any opcode, the program counter advances by exactly one plus the
/// opcode's immediate byte count; and decoding succeeds exactly when the
/// opcode is known and its full width lies inside the code array.
pub proof fn lemma_decode_advance(code: Seq<u8>, pc: int)
    ensures
        spec_decode(code, pc) is Ok ==> spec_decode(code, pc)->Ok_0.0 == pc + 1
            + immediate_count(code[pc])->Some_0,
        spec_decode(code, pc) is Ok <==> 0 <= pc < code.len() && immediate_count(code[pc]) is Some
            && pc + 1 + immediate_count(code[pc])->Some_0 <= code.len(),
{
}

impl ByteCode {
    /// Decode the instruction whose opcode byte sits at `pc` in `code`,
    /// returning the program counter of the following instruction and
    /// the decoded instruction.
    pub fn parse(pc: usize, code: &[u8]) -> (r: Result<(usize, ByteCode), VmError>)
        ensures
            match r {
                Ok((next, bc)) => spec_decode(code@, pc as int) == Ok::<(int, ByteCode), VmError>(
                    (next as int, bc),
                ),
                Err(e) => spec_decode(code@, pc as int) == Err::<(int, ByteCode), VmError>(e),
            },
    {
        if pc >= code.len() {
            return Err(VmError::Decode(DecodeError::TruncatedCode(pc)));
        }
        let op = code[pc];
        if op == RETURN {
            Ok((pc + 1, ByteCode::Return))
        } else if op == DUP {
            Ok((pc + 1, ByteCode::Dup))
        } else if op == IADD {
            Ok((pc + 1, ByteCode::IAdd))
        } else if op == IRETURN {
            Ok((pc + 1, ByteCode::IReturn))
        } else if 0x2 <= op && op <= 0x8 {
            Ok((pc + 1, ByteCode::IConst(op as i32 - 3)))
        } else if 0x4b <= op && op <= 0x4e {
            Ok((pc + 1, ByteCode::AStore(op - 0x4b)))
        } else if 0x2a <= op && op <= 0x2d {
            Ok((pc + 1, ByteCode::ALoad(op - 0x2a)))
        } else if 0x3b <= op && op <= 0x3e {
            Ok((pc + 1, ByteCode::IStore(op - 0x3b)))
        } else if 0x1a <= op && op <= 0x1d {
            Ok((pc + 1, ByteCode::ILoad(op - 0x1a)))
        } else if op == BIPUSH || op == LDC || op == ISTORE || op == ILOAD {
            if code.len() - pc < 2 {
                return Err(VmError::Decode(DecodeError::TruncatedCode(pc)));
            }
            let imm = code[pc + 1];
            if op == BIPUSH {
                let value: i8 = if imm < 128 {
                    imm as i8
                } else {
                    (imm as i16 - 256) as i8
                };
                Ok((pc + 2, ByteCode::Bipush(value)))
            } else if op == LDC {
                Ok((pc + 2, ByteCode::Ldc(imm)))
            } else if op == ISTORE {
                Ok((pc + 2, ByteCode::IStore(imm)))
            } else {
                Ok((pc + 2, ByteCode::ILoad(imm)))
            }
        } else if op == NEW || op == GETSTATIC || op == INVOKEVIRTUAL || op == INVOKESPECIAL
            || op == INVOKESTATIC || op == GETFIELD || op == PUTFIELD {
            if code.len() - pc < 3 {
                return Err(VmError::Decode(DecodeError::TruncatedCode(pc)));
            }
            let index: u16 = (code[pc + 1] as u16) * 256 + (code[pc + 2] as u16);
            if op == NEW {
                Ok((pc + 3, ByteCode::New(index)))
            } else if op == GETSTATIC {
                Ok((pc + 3, ByteCode::GetStatic(index)))
            } else if op == INVOKEVIRTUAL {
                Ok((pc + 3, ByteCode::InvokeVirtual(index)))
            } else if op == INVOKESPECIAL {
                Ok((pc + 3, ByteCode::InvokeSpecial(index)))
            } else if op == INVOKESTATIC {
                Ok((pc + 3, ByteCode::InvokeStatic(index)))
            } else if op == GETFIELD {
                Ok((pc + 3, ByteCode::GetField(index)))
            } else {
                Ok((pc + 3, ByteCode::PutField(index)))
            }
        } else {
            Err(VmError::Decode(DecodeError::UnknownOpcode(op)))
        }
    }
}

} // verus!
