//! The failure taxonomy of the virtual machine.
//!
//! Parse-time failures are returned as structured values to the direct
//! caller; run-time failures abort the run. No failure is ever recovered.

use vstd::prelude::*;

verus! {

/// Why a class-file buffer was rejected before execution started.
#[derive(Debug, Clone, Copy, PartialEq, Eq, Structural)]
pub enum FormatError {
    /// The fixed magic marker at the start of the buffer did not match.
    BadMagic,
    /// A declared length ran past the end of the buffer; the payload is
    /// the offset at which the read was attempted.
    Truncated(usize),
    /// A constant-pool tag byte outside the known range.
    UnknownTag(u8),
    /// Bytes remained after the final attribute record; the payload is
    /// the offset of the first leftover byte.
    TrailingBytes(usize),
}

/// Why the instruction decoder gave up mid-run.
#[derive(Debug, Clone, Copy, PartialEq, Eq, Structural)]
pub enum DecodeError {
    /// An opcode byte with no known decoding; its width is unknown, so
    /// safe continuation is impossible.
    UnknownOpcode(u8),
    /// The opcode or its immediate operand bytes ran past the end of the
    /// code array; the payload is the program counter of the opcode.
    TruncatedCode(usize),
}

/// A symbolic target that could not be resolved at run time.
#[derive(Debug, Clone, Copy, PartialEq, Eq, Structural)]
pub enum ResolutionError {
    /// An invocation named a class that is not currently loaded.
    ClassNotFound,
    /// The resolved class has no method of the requested name.
    MethodNotFound,
    /// The resolved method has no body attribute named "Code".
    MissingCode,
    /// A constant-pool index was out of range or named an entry of the
    /// wrong kind.
    BadConstant,
    /// An instance field was read before it was ever written.
    FieldNotFound,
    /// A handle named a heap slot that was reclaimed or never
    /// materialized.
    DanglingReference,
}

/// A defensive run-time assertion standing in for the missing verifier.
#[derive(Debug, Clone, Copy, PartialEq, Eq, Structural)]
pub enum TypeError {
    /// A value's tag did not match what the instruction demands.
    Mismatch,
    /// More values were popped than the operand stack or the frame stack
    /// held.
    StackUnderflow,
    /// A local-variable index past the frame's fixed locals array.
    LocalOutOfRange,
}

/// A deliberate extension point that must fail loudly, never be skipped
/// silently.
#[derive(Debug, Clone, Copy, PartialEq, Eq, Structural)]
pub enum UnsupportedFeature {
    /// A recognized constant-pool tag with no decoding here (numeric
    /// literals, dynamic call sites, method handles and types, modules).
    PoolTag(u8),
    /// A method-descriptor parameter character other than an integer or
    /// a class reference.
    DescriptorChar(char),
    /// A static-field read other than the console-stream intrinsic.
    StaticField,
    /// A constant-pool entry kind the constant-push instruction cannot
    /// load.
    Constant,
    /// A handle kind the heap cannot dereference.
    ReferenceKind,
}

/// Every failure the virtual machine reports.
#[derive(Debug, Clone, Copy, PartialEq, Eq, Structural)]
pub enum VmError {
    Format(FormatError),
    Decode(DecodeError),
    Resolution(ResolutionError),
    Type(TypeError),
    Unsupported(UnsupportedFeature),
}

} // verus!
