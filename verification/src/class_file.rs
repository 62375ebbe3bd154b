//! The class-file binary decoder and the typed views over its constant
//! pool.
//!
//! Each class file contains the definition of a single class or
//! interface. Decoding is sequential and length-prefixed: compound
//! structures are preceded by a count and decoded by iterating that many
//! tag-dispatched records. Text is length-prefixed and lossily decoded;
//! malformed sequences are substituted, never fatal.

use vstd::prelude::*;

use crate::error::{FormatError, ResolutionError, UnsupportedFeature, VmError};
use crate::text::{fmt_u64, int_str, utf8_lossy};

verus! {

/// A structured class descriptor, the result of decoding one buffer.
pub struct ClassFile {
    /// The magic number identifying the class file format, 0xCAFEBABE.
    pub magic: u32,
    pub minor_version: u16,
    pub major_version: u16,
    /// One more than the number of entries in the constant-pool table.
    pub constant_pool_count: u16,
    /// Ordered and 1-indexed; slot 0 is an unused empty entry.
    pub constant_pool: Vec<ConstantInfo>,
    /// The access permissions of the class or interface.
    pub access_flags: u16,
    /// A constant-pool index naming this class.
    pub this_class: u16,
    pub super_class: u16,
    pub interfaces_count: u16,
    pub interfaces: Vec<u16>,
    pub fields_count: u16,
    pub fields: Vec<FieldInfo>,
    pub methods_count: u16,
    pub methods: Vec<MethodInfo>,
    pub attributes_count: u16,
    pub attributes: Vec<AttributeInfo>,
}

/// One constant-pool entry; immutable once parsed.
#[derive(Debug)]
pub enum ConstantInfo {
    MethodRef { class_index: u16, name_and_type_index: u16 },
    FieldRef { class_index: u16, name_and_type_index: u16 },
    InterfaceMethodRef { class_index: u16, name_and_type_index: u16 },
    Class { name_index: u16 },
    NameAndType { name_index: u16, descriptor_index: u16 },
    Utf8(String),
    String(u16),
}

/// The mathematical shadow of one constant-pool entry.
pub enum ConstantInfoV {
    MethodRef { class_index: u16, name_and_type_index: u16 },
    FieldRef { class_index: u16, name_and_type_index: u16 },
    InterfaceMethodRef { class_index: u16, name_and_type_index: u16 },
    Class { name_index: u16 },
    NameAndType { name_index: u16, descriptor_index: u16 },
    Utf8(Seq<char>),
    String(u16),
}

impl View for ConstantInfo {
    type V = ConstantInfoV;

    open spec fn view(&self) -> ConstantInfoV {
        match self {
            ConstantInfo::MethodRef { class_index, name_and_type_index } =>
                ConstantInfoV::MethodRef {
                    class_index: *class_index,
                    name_and_type_index: *name_and_type_index,
                },
            ConstantInfo::FieldRef { class_index, name_and_type_index } => ConstantInfoV::FieldRef {
                class_index: *class_index,
                name_and_type_index: *name_and_type_index,
            },
            ConstantInfo::InterfaceMethodRef { class_index, name_and_type_index } =>
                ConstantInfoV::InterfaceMethodRef {
                    class_index: *class_index,
                    name_and_type_index: *name_and_type_index,
                },
            ConstantInfo::Class { name_index } => ConstantInfoV::Class { name_index: *name_index },
            ConstantInfo::NameAndType { name_index, descriptor_index } =>
                ConstantInfoV::NameAndType {
                    name_index: *name_index,
                    descriptor_index: *descriptor_index,
                },
            ConstantInfo::Utf8(s) => ConstantInfoV::Utf8(s@),
            ConstantInfo::String(i) => ConstantInfoV::String(*i),
        }
    }
}

impl DeepView for ConstantInfo {
    type V = ConstantInfoV;

    open spec fn deep_view(&self) -> ConstantInfoV {
        self.view()
    }
}

/// A field record: access flags, name and descriptor pool indices, and
/// named attributes.
pub struct FieldInfo {
    pub access_flags: u16,
    pub name_index: u16,
    pub descriptor_index: u16,
    pub attributes_count: u16,
    pub attributes: Vec<AttributeInfo>,
}

pub struct FieldInfoV {
    pub access_flags: u16,
    pub name_index: u16,
    pub descriptor_index: u16,
    pub attributes_count: u16,
    pub attributes: Seq<AttributeInfoV>,
}

impl View for FieldInfo {
    type V = FieldInfoV;

    open spec fn view(&self) -> FieldInfoV {
        FieldInfoV {
            access_flags: self.access_flags,
            name_index: self.name_index,
            descriptor_index: self.descriptor_index,
            attributes_count: self.attributes_count,
            attributes: self.attributes.deep_view(),
        }
    }
}

impl DeepView for FieldInfo {
    type V = FieldInfoV;

    open spec fn deep_view(&self) -> FieldInfoV {
        self.view()
    }
}

/// A method record: access flags, name and descriptor pool indices, and
/// named attributes. A method body is the attribute named "Code".
pub struct MethodInfo {
    pub access_flags: u16,
    pub name_index: u16,
    pub descriptor_index: u16,
    pub attributes_count: u16,
    pub attributes: Vec<AttributeInfo>,
}

pub struct MethodInfoV {
    pub access_flags: u16,
    pub name_index: u16,
    pub descriptor_index: u16,
    pub attributes_count: u16,
    pub attributes: Seq<AttributeInfoV>,
}

impl View for MethodInfo {
    type V = MethodInfoV;

    open spec fn view(&self) -> MethodInfoV {
        MethodInfoV {
            access_flags: self.access_flags,
            name_index: self.name_index,
            descriptor_index: self.descriptor_index,
            attributes_count: self.attributes_count,
            attributes: self.attributes.deep_view(),
        }
    }
}

impl DeepView for MethodInfo {
    type V = MethodInfoV;

    open spec fn deep_view(&self) -> MethodInfoV {
        self.view()
    }
}

/// A raw attribute record, interpreted later by name lookup.
pub struct AttributeInfo {
    pub attribute_name_index: u16,
    pub attribute_length: u32,
    pub info: Vec<u8>,
}

pub struct AttributeInfoV {
    pub attribute_name_index: u16,
    pub attribute_length: u32,
    pub info: Seq<u8>,
}

impl View for AttributeInfo {
    type V = AttributeInfoV;

    open spec fn view(&self) -> AttributeInfoV {
        AttributeInfoV {
            attribute_name_index: self.attribute_name_index,
            attribute_length: self.attribute_length,
            info: self.info@,
        }
    }
}

impl DeepView for AttributeInfo {
    type V = AttributeInfoV;

    open spec fn deep_view(&self) -> AttributeInfoV {
        self.view()
    }
}

/// One region of the exception table of a method body.
#[derive(Debug, Clone, Copy, PartialEq, Eq, Structural)]
pub struct ExceptionTableEntry {
    pub start_pc: u16,
    pub end_pc: u16,
    pub handler_pc: u16,
    pub catch_type: u16,
}

/// A decoded method body: sizing, raw code bytes, exception-table
/// region and nested attributes.
pub struct CodeAttribute {
    pub max_stack: u16,
    pub max_locals: u16,
    pub code_length: u32,
    pub code: Vec<u8>,
    pub exception_table_length: u16,
    /// Entries are deliberately consumed as zero-length: the declared
    /// count is recorded and the handler data is ignored.
    pub exception_table: Vec<ExceptionTableEntry>,
    pub attributes_count: u16,
    pub attributes: Vec<AttributeInfo>,
}

pub struct CodeAttributeV {
    pub max_stack: u16,
    pub max_locals: u16,
    pub code_length: u32,
    pub code: Seq<u8>,
    pub exception_table_length: u16,
    pub exception_table: Seq<ExceptionTableEntry>,
    pub attributes_count: u16,
    pub attributes: Seq<AttributeInfoV>,
}

impl View for CodeAttribute {
    type V = CodeAttributeV;

    open spec fn view(&self) -> CodeAttributeV {
        CodeAttributeV {
            max_stack: self.max_stack,
            max_locals: self.max_locals,
            code_length: self.code_length,
            code: self.code@,
            exception_table_length: self.exception_table_length,
            exception_table: self.exception_table@,
            attributes_count: self.attributes_count,
            attributes: self.attributes.deep_view(),
        }
    }
}

pub struct ClassFileV {
    pub magic: u32,
    pub minor_version: u16,
    pub major_version: u16,
    pub constant_pool_count: u16,
    pub constant_pool: Seq<ConstantInfoV>,
    pub access_flags: u16,
    pub this_class: u16,
    pub super_class: u16,
    pub interfaces_count: u16,
    pub interfaces: Seq<u16>,
    pub fields_count: u16,
    pub fields: Seq<FieldInfoV>,
    pub methods_count: u16,
    pub methods: Seq<MethodInfoV>,
    pub attributes_count: u16,
    pub attributes: Seq<AttributeInfoV>,
}

impl View for ClassFile {
    type V = ClassFileV;

    open spec fn view(&self) -> ClassFileV {
        ClassFileV {
            magic: self.magic,
            minor_version: self.minor_version,
            major_version: self.major_version,
            constant_pool_count: self.constant_pool_count,
            constant_pool: self.constant_pool.deep_view(),
            access_flags: self.access_flags,
            this_class: self.this_class,
            super_class: self.super_class,
            interfaces_count: self.interfaces_count,
            interfaces: self.interfaces@,
            fields_count: self.fields_count,
            fields: self.fields.deep_view(),
            methods_count: self.methods_count,
            methods: self.methods.deep_view(),
            attributes_count: self.attributes_count,
            attributes: self.attributes.deep_view(),
        }
    }
}

// ---------------------------------------------------------------------
// Scalar readers
// ---------------------------------------------------------------------

pub open spec fn spec_read_u1(b: Seq<u8>, i: int) -> Result<(int, u8), VmError> {
    if 0 <= i && i + 1 <= b.len() {
        Ok((i + 1, b[i]))
    } else {
        Err(VmError::Format(FormatError::Truncated(i as usize)))
    }
}

pub open spec fn spec_u16_of(hi: u8, lo: u8) -> u16 {
    ((hi as int) * 256 + (lo as int)) as u16
}

pub open spec fn spec_read_u2(b: Seq<u8>, i: int) -> Result<(int, u16), VmError> {
    if 0 <= i && i + 2 <= b.len() {
        Ok((i + 2, spec_u16_of(b[i], b[i + 1])))
    } else {
        Err(VmError::Format(FormatError::Truncated(i as usize)))
    }
}

pub open spec fn spec_u32_of(b0: u8, b1: u8, b2: u8, b3: u8) -> u32 {
    ((b0 as int) * 0x1000000 + (b1 as int) * 0x10000 + (b2 as int) * 0x100 + (b3 as int)) as u32
}

pub open spec fn spec_read_u4(b: Seq<u8>, i: int) -> Result<(int, u32), VmError> {
    if 0 <= i && i + 4 <= b.len() {
        Ok((i + 4, spec_u32_of(b[i], b[i + 1], b[i + 2], b[i + 3])))
    } else {
        Err(VmError::Format(FormatError::Truncated(i as usize)))
    }
}

/// Succeeds exactly when `len` bytes starting at `index` lie inside the
/// buffer.
pub fn bound_check(bytes: &[u8], index: usize, len: usize) -> (r: Result<(), VmError>)
    ensures
        r is Ok <==> index + len <= bytes@.len(),
        r is Err ==> r == Err::<(), VmError>(VmError::Format(FormatError::Truncated(index))),
        bytes@.len() <= usize::MAX,
{
    if len <= bytes.len() && index <= bytes.len() - len {
        Ok(())
    } else {
        Err(VmError::Format(FormatError::Truncated(index)))
    }
}

pub fn read_u1(bytes: &[u8], index: usize) -> (r: Result<(usize, u8), VmError>)
    ensures
        match r {
            Ok((i2, v)) => spec_read_u1(bytes@, index as int) == Ok::<(int, u8), VmError>(
                (i2 as int, v),
            ),
            Err(e) => spec_read_u1(bytes@, index as int) == Err::<(int, u8), VmError>(e),
        },
{
    bound_check(bytes, index, 1)?;
    Ok((index + 1, bytes[index]))
}

pub fn read_u2(bytes: &[u8], index: usize) -> (r: Result<(usize, u16), VmError>)
    ensures
        match r {
            Ok((i2, v)) => spec_read_u2(bytes@, index as int) == Ok::<(int, u16), VmError>(
                (i2 as int, v),
            ),
            Err(e) => spec_read_u2(bytes@, index as int) == Err::<(int, u16), VmError>(e),
        },
{
    bound_check(bytes, index, 2)?;
    let value = (bytes[index] as u16) * 256 + (bytes[index + 1] as u16);
    Ok((index + 2, value))
}

pub fn read_u4(bytes: &[u8], index: usize) -> (r: Result<(usize, u32), VmError>)
    ensures
        match r {
            Ok((i2, v)) => spec_read_u4(bytes@, index as int) == Ok::<(int, u32), VmError>(
                (i2 as int, v),
            ),
            Err(e) => spec_read_u4(bytes@, index as int) == Err::<(int, u32), VmError>(e),
        },
{
    bound_check(bytes, index, 4)?;
    let b2 = bytes[index + 2];
    let b3 = bytes[index + 3];
    let value = (bytes[index] as u32) * 0x1000000 + (bytes[index + 1] as u32) * 0x10000 + (
    b2 as u32) * 0x100 + (b3 as u32);
    Ok((index + 4, value))
}

// ---------------------------------------------------------------------
// Constant-pool entries
// ---------------------------------------------------------------------

/// Whether a tag byte is recognized by the format at all.
pub open spec fn known_tag(tag: u8) -> bool {
    tag == 1 || (3 <= tag && tag <= 12) || (15 <= tag && tag <= 20)
}

/// Whether a recognized tag has a decoding here. The others (numeric
/// literals, dynamic call sites, method handles and types, modules) are
/// extension points and must fail loudly.
pub open spec fn supported_tag(tag: u8) -> bool {
    tag == 1 || tag == 7 || tag == 8 || tag == 9 || tag == 10 || tag == 11 || tag == 12
}

pub open spec fn spec_read_constant(b: Seq<u8>, i: int) -> Result<(int, ConstantInfoV), VmError> {
    match spec_read_u1(b, i) {
        Err(e) => Err(e),
        Ok((i, tag)) => {
            if !known_tag(tag) {
                Err(VmError::Format(FormatError::UnknownTag(tag)))
            } else if !supported_tag(tag) {
                Err(VmError::Unsupported(UnsupportedFeature::PoolTag(tag)))
            } else if tag == 7 {
                match spec_read_u2(b, i) {
                    Err(e) => Err(e),
                    Ok((i, name_index)) => Ok((i, ConstantInfoV::Class { name_index })),
                }
            } else if tag == 8 {
                match spec_read_u2(b, i) {
                    Err(e) => Err(e),
                    Ok((i, string_index)) => Ok((i, ConstantInfoV::String(string_index))),
                }
            } else if tag == 9 || tag == 10 || tag == 11 {
                match spec_read_u2(b, i) {
                    Err(e) => Err(e),
                    Ok((i, class_index)) => match spec_read_u2(b, i) {
                        Err(e) => Err(e),
                        Ok((i, name_and_type_index)) => Ok(
                            (
                                i,
                                if tag == 9 {
                                    ConstantInfoV::FieldRef { class_index, name_and_type_index }
                                } else if tag == 10 {
                                    ConstantInfoV::MethodRef { class_index, name_and_type_index }
                                } else {
                                    ConstantInfoV::InterfaceMethodRef {
                                        class_index,
                                        name_and_type_index,
                                    }
                                },
                            ),
                        ),
                    },
                }
            } else if tag == 12 {
                match spec_read_u2(b, i) {
                    Err(e) => Err(e),
                    Ok((i, name_index)) => match spec_read_u2(b, i) {
                        Err(e) => Err(e),
                        Ok((i, descriptor_index)) => Ok(
                            (i, ConstantInfoV::NameAndType { name_index, descriptor_index }),
                        ),
                    },
                }
            } else {
                match spec_read_u2(b, i) {
                    Err(e) => Err(e),
                    Ok((i, length)) => {
                        if i + length <= b.len() {
                            Ok(
                                (
                                    i + length,
                                    ConstantInfoV::Utf8(utf8_lossy(b.subrange(i, i + length))),
                                ),
                            )
                        } else {
                            Err(VmError::Format(FormatError::Truncated(i as usize)))
                        }
                    },
                }
            }
        },
    }
}

pub fn read_constant(bytes: &[u8], index: usize) -> (r: Result<(usize, ConstantInfo), VmError>)
    ensures
        match r {
            Ok((i2, c)) => spec_read_constant(bytes@, index as int) == Ok::<
                (int, ConstantInfoV),
                VmError,
            >((i2 as int, c@)),
            Err(e) => spec_read_constant(bytes@, index as int) == Err::<
                (int, ConstantInfoV),
                VmError,
            >(e),
        },
{
    let (index, tag) = read_u1(bytes, index)?;
    let known = tag == 1 || (3 <= tag && tag <= 12) || (15 <= tag && tag <= 20);
    if !known {
        return Err(VmError::Format(FormatError::UnknownTag(tag)));
    }
    let supported = tag == 1 || (7 <= tag && tag <= 12);
    if !supported {
        return Err(VmError::Unsupported(UnsupportedFeature::PoolTag(tag)));
    }
    if tag == 7 {
        let (index, name_index) = read_u2(bytes, index)?;
        Ok((index, ConstantInfo::Class { name_index }))
    } else if tag == 8 {
        let (index, string_index) = read_u2(bytes, index)?;
        Ok((index, ConstantInfo::String(string_index)))
    } else if tag == 9 || tag == 10 || tag == 11 {
        let (index, class_index) = read_u2(bytes, index)?;
        let (index, name_and_type_index) = read_u2(bytes, index)?;
        let entry = if tag == 9 {
            ConstantInfo::FieldRef { class_index, name_and_type_index }
        } else if tag == 10 {
            ConstantInfo::MethodRef { class_index, name_and_type_index }
        } else {
            ConstantInfo::InterfaceMethodRef { class_index, name_and_type_index }
        };
        Ok((index, entry))
    } else if tag == 12 {
        let (index, name_index) = read_u2(bytes, index)?;
        let (index, descriptor_index) = read_u2(bytes, index)?;
        Ok((index, ConstantInfo::NameAndType { name_index, descriptor_index }))
    } else {
        let (index, length) = read_u2(bytes, index)?;
        let length = length as usize;
        bound_check(bytes, index, length)?;
        let text = crate::text::utf8_lossy_exec(&bytes[index..index + length]);
        Ok((index + length, ConstantInfo::Utf8(text)))
    }
}

// ---------------------------------------------------------------------
// Record lists
// ---------------------------------------------------------------------

pub open spec fn spec_read_constants(b: Seq<u8>, i: int, n: int, acc: Seq<ConstantInfoV>) -> Result<
    (int, Seq<ConstantInfoV>),
    VmError,
>
    decreases n,
{
    if n <= 0 {
        Ok((i, acc))
    } else {
        match spec_read_constant(b, i) {
            Err(e) => Err(e),
            Ok((i2, c)) => spec_read_constants(b, i2, n - 1, acc.push(c)),
        }
    }
}

pub open spec fn spec_read_attribute(b: Seq<u8>, i: int) -> Result<(int, AttributeInfoV), VmError> {
    match spec_read_u2(b, i) {
        Err(e) => Err(e),
        Ok((i, attribute_name_index)) => match spec_read_u4(b, i) {
            Err(e) => Err(e),
            Ok((i, attribute_length)) => {
                if i + attribute_length <= b.len() {
                    Ok(
                        (
                            i + attribute_length,
                            AttributeInfoV {
                                attribute_name_index,
                                attribute_length,
                                info: b.subrange(i, i + attribute_length),
                            },
                        ),
                    )
                } else {
                    Err(VmError::Format(FormatError::Truncated(i as usize)))
                }
            },
        },
    }
}

pub open spec fn spec_read_attributes(
    b: Seq<u8>,
    i: int,
    n: int,
    acc: Seq<AttributeInfoV>,
) -> Result<(int, Seq<AttributeInfoV>), VmError>
    decreases n,
{
    if n <= 0 {
        Ok((i, acc))
    } else {
        match spec_read_attribute(b, i) {
            Err(e) => Err(e),
            Ok((i2, a)) => spec_read_attributes(b, i2, n - 1, acc.push(a)),
        }
    }
}

/// A field and a method record share one wire layout.
pub open spec fn spec_read_record(b: Seq<u8>, i: int) -> Result<
    (int, (u16, u16, u16, u16, Seq<AttributeInfoV>)),
    VmError,
> {
    match spec_read_u2(b, i) {
        Err(e) => Err(e),
        Ok((i, access_flags)) => match spec_read_u2(b, i) {
            Err(e) => Err(e),
            Ok((i, name_index)) => match spec_read_u2(b, i) {
                Err(e) => Err(e),
                Ok((i, descriptor_index)) => match spec_read_u2(b, i) {
                    Err(e) => Err(e),
                    Ok((i, attributes_count)) => match spec_read_attributes(
                        b,
                        i,
                        attributes_count as int,
                        Seq::empty(),
                    ) {
                        Err(e) => Err(e),
                        Ok((i, attributes)) => Ok(
                            (i, (access_flags, name_index, descriptor_index, attributes_count, attributes)),
                        ),
                    },
                },
            },
        },
    }
}

pub open spec fn spec_read_fields(b: Seq<u8>, i: int, n: int, acc: Seq<FieldInfoV>) -> Result<
    (int, Seq<FieldInfoV>),
    VmError,
>
    decreases n,
{
    if n <= 0 {
        Ok((i, acc))
    } else {
        match spec_read_record(b, i) {
            Err(e) => Err(e),
            Ok((i2, (access_flags, name_index, descriptor_index, attributes_count, attributes))) =>
                spec_read_fields(
                b,
                i2,
                n - 1,
                acc.push(
                    FieldInfoV {
                        access_flags,
                        name_index,
                        descriptor_index,
                        attributes_count,
                        attributes,
                    },
                ),
            ),
        }
    }
}

pub open spec fn spec_read_methods(b: Seq<u8>, i: int, n: int, acc: Seq<MethodInfoV>) -> Result<
    (int, Seq<MethodInfoV>),
    VmError,
>
    decreases n,
{
    if n <= 0 {
        Ok((i, acc))
    } else {
        match spec_read_record(b, i) {
            Err(e) => Err(e),
            Ok((i2, (access_flags, name_index, descriptor_index, attributes_count, attributes))) =>
                spec_read_methods(
                b,
                i2,
                n - 1,
                acc.push(
                    MethodInfoV {
                        access_flags,
                        name_index,
                        descriptor_index,
                        attributes_count,
                        attributes,
                    },
                ),
            ),
        }
    }
}

pub open spec fn spec_read_interfaces(b: Seq<u8>, i: int, n: int, acc: Seq<u16>) -> Result<
    (int, Seq<u16>),
    VmError,
>
    decreases n,
{
    if n <= 0 {
        Ok((i, acc))
    } else {
        match spec_read_u2(b, i) {
            Err(e) => Err(e),
            Ok((i2, v)) => spec_read_interfaces(b, i2, n - 1, acc.push(v)),
        }
    }
}

impl AttributeInfo {
    pub fn read(bytes: &[u8], index: usize) -> (r: Result<(usize, AttributeInfo), VmError>)
        ensures
            match r {
                Ok((i2, a)) => spec_read_attribute(bytes@, index as int) == Ok::<
                    (int, AttributeInfoV),
                    VmError,
                >((i2 as int, a@)),
                Err(e) => spec_read_attribute(bytes@, index as int) == Err::<
                    (int, AttributeInfoV),
                    VmError,
                >(e),
            },
    {
        let (index, attribute_name_index) = read_u2(bytes, index)?;
        let (index, attribute_length) = read_u4(bytes, index)?;
        let length = attribute_length as usize;
        bound_check(bytes, index, length)?;
        let mut info: Vec<u8> = Vec::new();
        let mut k: usize = 0;
        while k < length
            invariant
                index + length <= bytes@.len() <= usize::MAX,
                k <= length,
                info@ == bytes@.subrange(index as int, index as int + k as int),
            decreases length - k,
        {
            info.push(bytes[index + k]);
            k = k + 1;
            proof {
                assert(info@ =~= bytes@.subrange(index as int, index as int + k as int));
            }
        }
        Ok((index + length, AttributeInfo { attribute_name_index, attribute_length, info }))
    }
}

fn read_attributes(bytes: &[u8], index: usize, count: u16) -> (r: Result<
    (usize, Vec<AttributeInfo>),
    VmError,
>)
    ensures
        match r {
            Ok((i2, v)) => spec_read_attributes(bytes@, index as int, count as int, Seq::empty())
                == Ok::<(int, Seq<AttributeInfoV>), VmError>((i2 as int, v.deep_view())),
            Err(e) => spec_read_attributes(bytes@, index as int, count as int, Seq::empty())
                == Err::<(int, Seq<AttributeInfoV>), VmError>(e),
        },
{
    let mut out: Vec<AttributeInfo> = Vec::new();
    let mut i = index;
    let mut k: u16 = 0;
    proof {
        assert(out.deep_view() =~= Seq::<AttributeInfoV>::empty());
    }
    while k < count
        invariant
            k <= count,
            spec_read_attributes(bytes@, index as int, count as int, Seq::empty())
                == spec_read_attributes(bytes@, i as int, count as int - k as int, out.deep_view()),
        decreases count - k,
    {
        let ghost pre = out.deep_view();
        match AttributeInfo::read(bytes, i) {
            Err(e) => {
                return Err(e);
            },
            Ok((i2, a)) => {
                i = i2;
                out.push(a);
                k = k + 1;
                proof {
                    assert(out.deep_view() =~= pre.push(a.deep_view()));
                }
            },
        }
    }
    Ok((i, out))
}

fn read_interfaces(bytes: &[u8], index: usize, count: u16) -> (r: Result<(usize, Vec<u16>), VmError>)
    ensures
        match r {
            Ok((i2, v)) => spec_read_interfaces(bytes@, index as int, count as int, Seq::empty())
                == Ok::<(int, Seq<u16>), VmError>((i2 as int, v@)),
            Err(e) => spec_read_interfaces(bytes@, index as int, count as int, Seq::empty())
                == Err::<(int, Seq<u16>), VmError>(e),
        },
{
    let mut out: Vec<u16> = Vec::new();
    let mut i = index;
    let mut k: u16 = 0;
    proof {
        assert(out@ =~= Seq::<u16>::empty());
    }
    while k < count
        invariant
            k <= count,
            spec_read_interfaces(bytes@, index as int, count as int, Seq::empty())
                == spec_read_interfaces(bytes@, i as int, count as int - k as int, out@),
        decreases count - k,
    {
        match read_u2(bytes, i) {
            Err(e) => {
                return Err(e);
            },
            Ok((i2, v)) => {
                i = i2;
                out.push(v);
                k = k + 1;
            },
        }
    }
    Ok((i, out))
}

impl FieldInfo {
    pub fn read(bytes: &[u8], index: usize) -> (r: Result<(usize, FieldInfo), VmError>)
        ensures
            match r {
                Ok((i2, f)) => spec_read_record(bytes@, index as int) == Ok::<
                    (int, (u16, u16, u16, u16, Seq<AttributeInfoV>)),
                    VmError,
                >(
                    (
                        i2 as int,
                        (
                            f.access_flags,
                            f.name_index,
                            f.descriptor_index,
                            f.attributes_count,
                            f@.attributes,
                        ),
                    ),
                ),
                Err(e) => spec_read_record(bytes@, index as int) is Err
                    && spec_read_record(bytes@, index as int)->Err_0 == e,
            },
    {
        let (index, access_flags) = read_u2(bytes, index)?;
        let (index, name_index) = read_u2(bytes, index)?;
        let (index, descriptor_index) = read_u2(bytes, index)?;
        let (index, attributes_count) = read_u2(bytes, index)?;
        let (index, attributes) = read_attributes(bytes, index, attributes_count)?;
        Ok(
            (
                index,
                FieldInfo { access_flags, name_index, descriptor_index, attributes_count, attributes },
            ),
        )
    }
}

impl MethodInfo {
    pub fn read(bytes: &[u8], index: usize) -> (r: Result<(usize, MethodInfo), VmError>)
        ensures
            match r {
                Ok((i2, f)) => spec_read_record(bytes@, index as int) == Ok::<
                    (int, (u16, u16, u16, u16, Seq<AttributeInfoV>)),
                    VmError,
                >(
                    (
                        i2 as int,
                        (
                            f.access_flags,
                            f.name_index,
                            f.descriptor_index,
                            f.attributes_count,
                            f@.attributes,
                        ),
                    ),
                ),
                Err(e) => spec_read_record(bytes@, index as int) is Err
                    && spec_read_record(bytes@, index as int)->Err_0 == e,
            },
    {
        let (index, access_flags) = read_u2(bytes, index)?;
        let (index, name_index) = read_u2(bytes, index)?;
        let (index, descriptor_index) = read_u2(bytes, index)?;
        let (index, attributes_count) = read_u2(bytes, index)?;
        let (index, attributes) = read_attributes(bytes, index, attributes_count)?;
        Ok(
            (
                index,
                MethodInfo { access_flags, name_index, descriptor_index, attributes_count, attributes },
            ),
        )
    }
}

// ---------------------------------------------------------------------
// The whole descriptor
// ---------------------------------------------------------------------

/// The fixed magic marker every class file must start with.
pub const CLASS_MAGIC: u32 = 0xCAFEBABE;

pub open spec fn spec_read_class(b: Seq<u8>, i: int) -> Result<(int, ClassFileV), VmError> {
    match spec_read_u4(b, i) {
        Err(e) => Err(e),
        Ok((i, magic)) => {
            if magic != CLASS_MAGIC {
                Err(VmError::Format(FormatError::BadMagic))
            } else {
                match spec_read_u2(b, i) {
                    Err(e) => Err(e),
                    Ok((i, minor_version)) => match spec_read_u2(b, i) {
                        Err(e) => Err(e),
                        Ok((i, major_version)) => match spec_read_u2(b, i) {
                            Err(e) => Err(e),
                            Ok((i, constant_pool_count)) => match spec_read_constants(
                                b,
                                i,
                                constant_pool_count as int - 1,
                                seq![ConstantInfoV::Utf8(Seq::empty())],
                            ) {
                                Err(e) => Err(e),
                                Ok((i, constant_pool)) => match spec_read_u2(b, i) {
                                    Err(e) => Err(e),
                                    Ok((i, access_flags)) => match spec_read_u2(b, i) {
                                        Err(e) => Err(e),
                                        Ok((i, this_class)) => match spec_read_u2(b, i) {
                                            Err(e) => Err(e),
                                            Ok((i, super_class)) => match spec_read_u2(b, i) {
                                                Err(e) => Err(e),
                                                Ok((i, interfaces_count)) => match spec_read_interfaces(
                                                    b,
                                                    i,
                                                    interfaces_count as int,
                                                    Seq::empty(),
                                                ) {
                                                    Err(e) => Err(e),
                                                    Ok((i, interfaces)) => match spec_read_u2(b, i) {
                                                        Err(e) => Err(e),
                                                        Ok((i, fields_count)) => match spec_read_fields(
                                                            b,
                                                            i,
                                                            fields_count as int,
                                                            Seq::empty(),
                                                        ) {
                                                            Err(e) => Err(e),
                                                            Ok((i, fields)) => match spec_read_u2(b, i) {
                                                                Err(e) => Err(e),
                                                                Ok((i, methods_count)) => match spec_read_methods(
                                                                    b,
                                                                    i,
                                                                    methods_count as int,
                                                                    Seq::empty(),
                                                                ) {
                                                                    Err(e) => Err(e),
                                                                    Ok((i, methods)) => match spec_read_u2(b, i) {
                                                                        Err(e) => Err(e),
                                                                        Ok((i, attributes_count)) => match spec_read_attributes(
                                                                            b,
                                                                            i,
                                                                            attributes_count as int,
                                                                            Seq::empty(),
                                                                        ) {
                                                                            Err(e) => Err(e),
                                                                            Ok((i, attributes)) => Ok(
                                                                                (
                                                                                    i,
                                                                                    ClassFileV {
                                                                                        magic,
                                                                                        minor_version,
                                                                                        major_version,
                                                                                        constant_pool_count,
                                                                                        constant_pool,
                                                                                        access_flags,
                                                                                        this_class,
                                                                                        super_class,
                                                                                        interfaces_count,
                                                                                        interfaces,
                                                                                        fields_count,
                                                                                        fields,
                                                                                        methods_count,
                                                                                        methods,
                                                                                        attributes_count,
                                                                                        attributes,
                                                                                    },
                                                                                ),
                                                                            ),
                                                                        },
                                                                    },
                                                                },
                                                            },
                                                        },
                                                    },
                                                },
                                            },
                                        },
                                    },
                                },
                            },
                        },
                    },
                }
            }
        },
    }
}

/// What decoding a whole buffer yields: the class descriptor, or the
/// exact failure. The buffer must be consumed in full.
pub open spec fn spec_parse(b: Seq<u8>) -> Result<ClassFileV, VmError> {
    match spec_read_class(b, 0) {
        Err(e) => Err(e),
        Ok((i, c)) => {
            if i == b.len() {
                Ok(c)
            } else {
                Err(VmError::Format(FormatError::TrailingBytes(i as usize)))
            }
        },
    }
}

impl ClassFile {
    /// Decode one class descriptor starting at `index`.
    #[verifier::loop_isolation(false)]
    pub fn read(bytes: &[u8], index: usize) -> (r: Result<(usize, ClassFile), VmError>)
        ensures
            match r {
                Ok((i2, c)) => spec_read_class(bytes@, index as int) == Ok::<
                    (int, ClassFileV),
                    VmError,
                >((i2 as int, c@)),
                Err(e) => spec_read_class(bytes@, index as int) == Err::<(int, ClassFileV), VmError>(
                    e,
                ),
            },
    {
        let (index, magic) = read_u4(bytes, index)?;
        if magic != CLASS_MAGIC {
            return Err(VmError::Format(FormatError::BadMagic));
        }
        let (index, minor_version) = read_u2(bytes, index)?;
        let (index, major_version) = read_u2(bytes, index)?;
        let (index, constant_pool_count) = read_u2(bytes, index)?;

        // The constant pool is 1-indexed: slot 0 is an unused empty entry.
        let mut constant_pool: Vec<ConstantInfo> = Vec::new();
        constant_pool.push(ConstantInfo::Utf8(String::new()));
        proof {
            assert(constant_pool.deep_view() =~= seq![ConstantInfoV::Utf8(Seq::<char>::empty())]);
        }
        let n: u16 = if constant_pool_count == 0 {
            0
        } else {
            constant_pool_count - 1
        };
        let mut i = index;
        let mut k: u16 = 0;
        while k < n
            invariant
                k <= n,
                spec_read_constants(
                    bytes@,
                    index as int,
                    n as int,
                    seq![ConstantInfoV::Utf8(Seq::<char>::empty())],
                ) == spec_read_constants(
                    bytes@,
                    i as int,
                    n as int - k as int,
                    constant_pool.deep_view(),
                ),
            decreases n - k,
        {
            let ghost pre = constant_pool.deep_view();
            match read_constant(bytes, i) {
                Err(e) => {
                    return Err(e);
                },
                Ok((i2, c)) => {
                    i = i2;
                    constant_pool.push(c);
                    k = k + 1;
                    proof {
                        assert(constant_pool.deep_view() =~= pre.push(c.deep_view()));
                    }
                },
            }
        }
        proof {
            assert(constant_pool_count as int - 1 == n as int || constant_pool_count as int - 1
                <= 0 && n == 0);
        }
        let index = i;

        let (index, access_flags) = read_u2(bytes, index)?;
        let (index, this_class) = read_u2(bytes, index)?;
        let (index, super_class) = read_u2(bytes, index)?;
        let (index, interfaces_count) = read_u2(bytes, index)?;
        let (index, interfaces) = read_interfaces(bytes, index, interfaces_count)?;

        let (index, fields_count) = read_u2(bytes, index)?;
        let mut fields: Vec<FieldInfo> = Vec::new();
        let mut i = index;
        let mut k: u16 = 0;
        proof {
            assert(fields.deep_view() =~= Seq::<FieldInfoV>::empty());
        }
        while k < fields_count
            invariant
                k <= fields_count,
                spec_read_fields(bytes@, index as int, fields_count as int, Seq::empty())
                    == spec_read_fields(
                    bytes@,
                    i as int,
                    fields_count as int - k as int,
                    fields.deep_view(),
                ),
            decreases fields_count - k,
        {
            let ghost pre = fields.deep_view();
            match FieldInfo::read(bytes, i) {
                Err(e) => {
                    return Err(e);
                },
                Ok((i2, f)) => {
                    i = i2;
                    fields.push(f);
                    k = k + 1;
                    proof {
                        assert(fields.deep_view() =~= pre.push(fields@.last().deep_view()));
                    }
                },
            }
        }
        let index = i;

        let (index, methods_count) = read_u2(bytes, index)?;
        let mut methods: Vec<MethodInfo> = Vec::new();
        let mut i = index;
        let mut k: u16 = 0;
        proof {
            assert(methods.deep_view() =~= Seq::<MethodInfoV>::empty());
        }
        while k < methods_count
            invariant
                k <= methods_count,
                spec_read_methods(bytes@, index as int, methods_count as int, Seq::empty())
                    == spec_read_methods(
                    bytes@,
                    i as int,
                    methods_count as int - k as int,
                    methods.deep_view(),
                ),
            decreases methods_count - k,
        {
            let ghost pre = methods.deep_view();
            match MethodInfo::read(bytes, i) {
                Err(e) => {
                    return Err(e);
                },
                Ok((i2, m)) => {
                    i = i2;
                    methods.push(m);
                    k = k + 1;
                    proof {
                        assert(methods.deep_view() =~= pre.push(methods@.last().deep_view()));
                    }
                },
            }
        }
        let index = i;

        let (index, attributes_count) = read_u2(bytes, index)?;
        let (index, attributes) = read_attributes(bytes, index, attributes_count)?;

        Ok(
            (
                index,
                ClassFile {
                    magic,
                    minor_version,
                    major_version,
                    constant_pool_count,
                    constant_pool,
                    access_flags,
                    this_class,
                    super_class,
                    interfaces_count,
                    interfaces,
                    fields_count,
                    fields,
                    methods_count,
                    methods,
                    attributes_count,
                    attributes,
                },
            ),
        )
    }

    /// Decode one whole buffer into a class descriptor. Fails when the
    /// magic marker mismatches, a declared length runs past the buffer
    /// end, a tag byte is unrecognized, or bytes are left over.
    pub fn parse(bytes: &[u8]) -> (r: Result<ClassFile, VmError>)
        ensures
            match r {
                Ok(c) => spec_parse(bytes@) == Ok::<ClassFileV, VmError>(c@),
                Err(e) => spec_parse(bytes@) == Err::<ClassFileV, VmError>(e),
            },
    {
        let (index, class) = Self::read(bytes, 0)?;
        if index != bytes.len() {
            return Err(VmError::Format(FormatError::TrailingBytes(index)));
        }
        Ok(class)
    }
}

// ---------------------------------------------------------------------
// Typed accessors over pool entries
// ---------------------------------------------------------------------

/// The text of the pool entry at `i`, when that entry is text.
pub open spec fn pool_utf8(pool: Seq<ConstantInfoV>, i: int) -> Option<Seq<char>> {
    if 0 <= i < pool.len() {
        match pool[i] {
            ConstantInfoV::Utf8(s) => Some(s),
            _ => None,
        }
    } else {
        None
    }
}

/// The name index of the class entry at `i`, when that entry names a class.
pub open spec fn pool_class(pool: Seq<ConstantInfoV>, i: int) -> Option<u16> {
    if 0 <= i < pool.len() {
        match pool[i] {
            ConstantInfoV::Class { name_index } => Some(name_index),
            _ => None,
        }
    } else {
        None
    }
}

pub open spec fn pool_name_and_type(pool: Seq<ConstantInfoV>, i: int) -> Option<(u16, u16)> {
    if 0 <= i < pool.len() {
        match pool[i] {
            ConstantInfoV::NameAndType { name_index, descriptor_index } => Some(
                (name_index, descriptor_index),
            ),
            _ => None,
        }
    } else {
        None
    }
}

pub open spec fn pool_field_ref(pool: Seq<ConstantInfoV>, i: int) -> Option<(u16, u16)> {
    if 0 <= i < pool.len() {
        match pool[i] {
            ConstantInfoV::FieldRef { class_index, name_and_type_index } => Some(
                (class_index, name_and_type_index),
            ),
            _ => None,
        }
    } else {
        None
    }
}

pub open spec fn pool_method_ref(pool: Seq<ConstantInfoV>, i: int) -> Option<(u16, u16)> {
    if 0 <= i < pool.len() {
        match pool[i] {
            ConstantInfoV::MethodRef { class_index, name_and_type_index } => Some(
                (class_index, name_and_type_index),
            ),
            _ => None,
        }
    } else {
        None
    }
}

/// The display form of a pool entry: its kind and its indices, text
/// quoted verbatim.
pub open spec fn spec_render_constant(c: ConstantInfoV) -> Seq<char> {
    match c {
        ConstantInfoV::Class { name_index } => "Class #"@ + int_str(name_index as int),
        ConstantInfoV::FieldRef { class_index, name_and_type_index } => "Fieldref #"@ + int_str(
            class_index as int,
        ) + ".#"@ + int_str(name_and_type_index as int),
        ConstantInfoV::MethodRef { class_index, name_and_type_index } => "Methodref #"@ + int_str(
            class_index as int,
        ) + ".#"@ + int_str(name_and_type_index as int),
        ConstantInfoV::InterfaceMethodRef { class_index, name_and_type_index } =>
            "InterfaceMethodref #"@ + int_str(class_index as int) + ".#"@ + int_str(
                name_and_type_index as int,
            ),
        ConstantInfoV::String(string_index) => "String #"@ + int_str(string_index as int),
        ConstantInfoV::NameAndType { name_index, descriptor_index } => "NameAndType #"@ + int_str(
            name_index as int,
        ) + ":#"@ + int_str(descriptor_index as int),
        ConstantInfoV::Utf8(s) => "Utf8 \""@ + s + "\""@,
    }
}

impl ConstantInfo {
    /// Render this pool entry in its display form.
    pub fn render(&self) -> (r: String)
        ensures
            r@ == spec_render_constant(self@),
    {
        match self {
            ConstantInfo::Class { name_index } => {
                let mut out = "Class #".to_owned();
                out.append(fmt_u64(*name_index as u64).as_str());
                proof {
                    assert(out@ =~= spec_render_constant(self@));
                }
                out
            },
            ConstantInfo::FieldRef { class_index, name_and_type_index } => {
                let mut out = "Fieldref #".to_owned();
                out.append(fmt_u64(*class_index as u64).as_str());
                out.append(".#");
                out.append(fmt_u64(*name_and_type_index as u64).as_str());
                proof {
                    assert(out@ =~= spec_render_constant(self@));
                }
                out
            },
            ConstantInfo::MethodRef { class_index, name_and_type_index } => {
                let mut out = "Methodref #".to_owned();
                out.append(fmt_u64(*class_index as u64).as_str());
                out.append(".#");
                out.append(fmt_u64(*name_and_type_index as u64).as_str());
                proof {
                    assert(out@ =~= spec_render_constant(self@));
                }
                out
            },
            ConstantInfo::InterfaceMethodRef { class_index, name_and_type_index } => {
                let mut out = "InterfaceMethodref #".to_owned();
                out.append(fmt_u64(*class_index as u64).as_str());
                out.append(".#");
                out.append(fmt_u64(*name_and_type_index as u64).as_str());
                proof {
                    assert(out@ =~= spec_render_constant(self@));
                }
                out
            },
            ConstantInfo::String(string_index) => {
                let mut out = "String #".to_owned();
                out.append(fmt_u64(*string_index as u64).as_str());
                proof {
                    assert(out@ =~= spec_render_constant(self@));
                }
                out
            },
            ConstantInfo::NameAndType { name_index, descriptor_index } => {
                let mut out = "NameAndType #".to_owned();
                out.append(fmt_u64(*name_index as u64).as_str());
                out.append(":#");
                out.append(fmt_u64(*descriptor_index as u64).as_str());
                proof {
                    assert(out@ =~= spec_render_constant(self@));
                }
                out
            },
            ConstantInfo::Utf8(s) => {
                let mut out = "Utf8 \"".to_owned();
                out.append(s.as_str());
                out.append("\"");
                proof {
                    assert(out@ =~= spec_render_constant(self@));
                }
                out
            },
        }
    }

    pub fn as_utf8(&self) -> (r: Option<&str>)
        ensures
            match r {
                Some(s) => self@ == ConstantInfoV::Utf8(s@),
                None => !(self@ is Utf8),
            },
    {
        match self {
            ConstantInfo::Utf8(s) => Some(s.as_str()),
            _ => None,
        }
    }

    pub fn as_class(&self) -> (r: Option<u16>)
        ensures
            match r {
                Some(i) => self@ == (ConstantInfoV::Class { name_index: i }),
                None => !(self@ is Class),
            },
    {
        match self {
            ConstantInfo::Class { name_index } => Some(*name_index),
            _ => None,
        }
    }

    pub fn as_name_and_type(&self) -> (r: Option<(u16, u16)>)
        ensures
            match r {
                Some((n, d)) => self@ == (ConstantInfoV::NameAndType {
                    name_index: n,
                    descriptor_index: d,
                }),
                None => !(self@ is NameAndType),
            },
    {
        match self {
            ConstantInfo::NameAndType { name_index, descriptor_index } => Some(
                (*name_index, *descriptor_index),
            ),
            _ => None,
        }
    }

    pub fn as_field_ref(&self) -> (r: Option<(u16, u16)>)
        ensures
            match r {
                Some((c, n)) => self@ == (ConstantInfoV::FieldRef {
                    class_index: c,
                    name_and_type_index: n,
                }),
                None => !(self@ is FieldRef),
            },
    {
        match self {
            ConstantInfo::FieldRef { class_index, name_and_type_index } => Some(
                (*class_index, *name_and_type_index),
            ),
            _ => None,
        }
    }

    pub fn as_method_ref(&self) -> (r: Option<(u16, u16)>)
        ensures
            match r {
                Some((c, n)) => self@ == (ConstantInfoV::MethodRef {
                    class_index: c,
                    name_and_type_index: n,
                }),
                None => !(self@ is MethodRef),
            },
    {
        match self {
            ConstantInfo::MethodRef { class_index, name_and_type_index } => Some(
                (*class_index, *name_and_type_index),
            ),
            _ => None,
        }
    }
}

/// The text of the pool entry at `i`, copied out, when that entry is text.
pub fn pool_utf8_exec(pool: &Vec<ConstantInfo>, i: usize) -> (r: Option<String>)
    ensures
        match r {
            Some(s) => pool_utf8(pool.deep_view(), i as int) == Some(s@),
            None => pool_utf8(pool.deep_view(), i as int) is None,
        },
{
    if i < pool.len() {
        match &pool[i] {
            ConstantInfo::Utf8(s) => Some(s.clone()),
            _ => None,
        }
    } else {
        None
    }
}

pub fn pool_class_exec(pool: &Vec<ConstantInfo>, i: usize) -> (r: Option<u16>)
    ensures
        r == pool_class(pool.deep_view(), i as int),
{
    if i < pool.len() {
        pool[i].as_class()
    } else {
        None
    }
}

pub fn pool_name_and_type_exec(pool: &Vec<ConstantInfo>, i: usize) -> (r: Option<(u16, u16)>)
    ensures
        r == pool_name_and_type(pool.deep_view(), i as int),
{
    if i < pool.len() {
        pool[i].as_name_and_type()
    } else {
        None
    }
}

pub fn pool_field_ref_exec(pool: &Vec<ConstantInfo>, i: usize) -> (r: Option<(u16, u16)>)
    ensures
        r == pool_field_ref(pool.deep_view(), i as int),
{
    if i < pool.len() {
        pool[i].as_field_ref()
    } else {
        None
    }
}

pub fn pool_method_ref_exec(pool: &Vec<ConstantInfo>, i: usize) -> (r: Option<(u16, u16)>)
    ensures
        r == pool_method_ref(pool.deep_view(), i as int),
{
    if i < pool.len() {
        pool[i].as_method_ref()
    } else {
        None
    }
}

/// The name of this class: the text behind its this-class pool entry.
pub open spec fn class_name(c: ClassFileV) -> Option<Seq<char>> {
    match pool_class(c.constant_pool, c.this_class as int) {
        Some(name_index) => pool_utf8(c.constant_pool, name_index as int),
        None => None,
    }
}

/// The resolved name of method `m` of the class.
pub open spec fn method_name_spec(c: ClassFileV, m: int) -> Option<Seq<char>> {
    pool_utf8(c.constant_pool, c.methods[m].name_index as int)
}

/// The first method at or after `k` whose resolved name is `target`.
pub open spec fn spec_find_method_from(c: ClassFileV, target: Seq<char>, k: int) -> Option<int>
    decreases c.methods.len() - k,
{
    if !(0 <= k < c.methods.len()) {
        None
    } else if method_name_spec(c, k) == Some(target) {
        Some(k)
    } else {
        spec_find_method_from(c, target, k + 1)
    }
}

/// The first method whose resolved name is `target`; matching goes by
/// name only, the first match wins.
pub open spec fn spec_find_method(c: ClassFileV, target: Seq<char>) -> Option<int> {
    spec_find_method_from(c, target, 0)
}

/// A found method index is in range and resolves to the target name.
pub proof fn lemma_find_method_some(c: ClassFileV, target: Seq<char>, k: int)
    requires
        spec_find_method_from(c, target, k) is Some,
    ensures
        0 <= spec_find_method_from(c, target, k)->Some_0 < c.methods.len(),
        k <= spec_find_method_from(c, target, k)->Some_0,
        method_name_spec(c, spec_find_method_from(c, target, k)->Some_0) == Some(target),
    decreases c.methods.len() - k,
{
    if 0 <= k < c.methods.len() && method_name_spec(c, k) == Some(target) {
    } else {
        lemma_find_method_some(c, target, k + 1);
    }
}

impl ClassFile {
    /// The name of this class, when its this-class entry resolves.
    pub fn name(&self) -> (r: Option<String>)
        ensures
            match r {
                Some(s) => class_name(self@) == Some(s@),
                None => class_name(self@) is None,
            },
    {
        match pool_class_exec(&self.constant_pool, self.this_class as usize) {
            Some(name_index) => pool_utf8_exec(&self.constant_pool, name_index as usize),
            None => None,
        }
    }

    /// The index of the first method named `target`, if any.
    #[verifier::loop_isolation(false)]
    pub fn find_method(&self, target: &str) -> (r: Option<usize>)
        ensures
            match r {
                Some(m) => spec_find_method(self@, target@) == Some(m as int) && (m as int)
                    < self@.methods.len() && method_name_spec(self@, m as int) == Some(target@),
                None => spec_find_method(self@, target@) is None,
            },
    {
        let want: String = target.to_owned();
        let mut k: usize = 0;
        while k < self.methods.len()
            invariant
                k <= self.methods@.len(),
                spec_find_method(self@, target@) == spec_find_method_from(self@, target@, k as int),
            decreases self.methods@.len() - k,
        {
            let name = pool_utf8_exec(&self.constant_pool, self.methods[k].name_index as usize);
            match name {
                Some(s) => {
                    if s == want {
                        return Some(k);
                    }
                },
                None => {},
            }
            k = k + 1;
        }
        None
    }

    /// The index of the first method named "main", if any.
    pub fn find_main_method(&self) -> (r: Option<usize>)
        ensures
            match r {
                Some(m) => spec_find_method(self@, "main"@) == Some(m as int) && (m as int)
                    < self@.methods.len() && method_name_spec(self@, m as int) == Some("main"@),
                None => spec_find_method(self@, "main"@) is None,
            },
    {
        self.find_method("main")
    }
}

// ---------------------------------------------------------------------
// The method body attribute
// ---------------------------------------------------------------------

/// What decoding a raw "Code" attribute blob yields. The declared
/// exception-table region is deliberately consumed as zero-length: the
/// count is kept and the handler data ignored.
pub open spec fn spec_parse_code(b: Seq<u8>) -> Result<CodeAttributeV, VmError> {
    match spec_read_u2(b, 0) {
        Err(e) => Err(e),
        Ok((i, max_stack)) => match spec_read_u2(b, i) {
            Err(e) => Err(e),
            Ok((i, max_locals)) => match spec_read_u4(b, i) {
                Err(e) => Err(e),
                Ok((i, code_length)) => {
                    if i + code_length <= b.len() {
                        let code = b.subrange(i, i + code_length);
                        match spec_read_u2(b, i + code_length) {
                            Err(e) => Err(e),
                            Ok((i, exception_table_length)) => match spec_read_u2(b, i) {
                                Err(e) => Err(e),
                                Ok((i, attributes_count)) => match spec_read_attributes(
                                    b,
                                    i,
                                    attributes_count as int,
                                    Seq::empty(),
                                ) {
                                    Err(e) => Err(e),
                                    Ok((_i, attributes)) => Ok(
                                        CodeAttributeV {
                                            max_stack,
                                            max_locals,
                                            code_length,
                                            code,
                                            exception_table_length,
                                            exception_table: Seq::empty(),
                                            attributes_count,
                                            attributes,
                                        },
                                    ),
                                },
                            },
                        }
                    } else {
                        Err(VmError::Format(FormatError::Truncated(i as usize)))
                    }
                },
            },
        },
    }
}

impl CodeAttribute {
    /// Decode the raw bytes of an attribute named "Code".
    #[verifier::loop_isolation(false)]
    pub fn parse(info: &[u8]) -> (r: Result<CodeAttribute, VmError>)
        ensures
            match r {
                Ok(c) => spec_parse_code(info@) == Ok::<CodeAttributeV, VmError>(c@),
                Err(e) => spec_parse_code(info@) == Err::<CodeAttributeV, VmError>(e),
            },
    {
        let (index, max_stack) = read_u2(info, 0)?;
        let (index, max_locals) = read_u2(info, index)?;
        let (index, code_length) = read_u4(info, index)?;
        let length = code_length as usize;
        bound_check(info, index, length)?;
        let mut code: Vec<u8> = Vec::new();
        let mut k: usize = 0;
        while k < length
            invariant
                k <= length,
                code@ == info@.subrange(index as int, index as int + k as int),
            decreases length - k,
        {
            code.push(info[index + k]);
            k = k + 1;
            proof {
                assert(code@ =~= info@.subrange(index as int, index as int + k as int));
            }
        }
        let index = index + length;
        let (index, exception_table_length) = read_u2(info, index)?;
        let exception_table: Vec<ExceptionTableEntry> = Vec::new();
        let (index, attributes_count) = read_u2(info, index)?;
        let (_index, attributes) = read_attributes(info, index, attributes_count)?;
        Ok(
            CodeAttribute {
                max_stack,
                max_locals,
                code_length,
                code,
                exception_table_length,
                exception_table,
                attributes_count,
                attributes,
            },
        )
    }
}

/// The first attribute at or after `k` whose name resolves to "Code".
pub open spec fn spec_find_code_attr(
    pool: Seq<ConstantInfoV>,
    attrs: Seq<AttributeInfoV>,
    k: int,
) -> Option<int>
    decreases attrs.len() - k,
{
    if !(0 <= k < attrs.len()) {
        None
    } else if pool_utf8(pool, attrs[k].attribute_name_index as int) == Some("Code"@) {
        Some(k)
    } else {
        spec_find_code_attr(pool, attrs, k + 1)
    }
}

/// The decoded body of a method: its first attribute named "Code",
/// decoded, or the exact failure.
pub open spec fn spec_method_code(pool: Seq<ConstantInfoV>, m: MethodInfoV) -> Result<
    CodeAttributeV,
    VmError,
> {
    match spec_find_code_attr(pool, m.attributes, 0) {
        None => Err(VmError::Resolution(ResolutionError::MissingCode)),
        Some(k) => spec_parse_code(m.attributes[k].info),
    }
}

impl MethodInfo {
    /// The resolved name of this method, when its name entry is text.
    pub fn name(&self, constant_pool: &Vec<ConstantInfo>) -> (r: Option<String>)
        ensures
            match r {
                Some(s) => pool_utf8(constant_pool.deep_view(), self.name_index as int) == Some(s@),
                None => pool_utf8(constant_pool.deep_view(), self.name_index as int) is None,
            },
    {
        pool_utf8_exec(constant_pool, self.name_index as usize)
    }

    /// The decoded method body: the first attribute named "Code".
    #[verifier::loop_isolation(false)]
    pub fn code(&self, constant_pool: &Vec<ConstantInfo>) -> (r: Result<CodeAttribute, VmError>)
        ensures
            match r {
                Ok(c) => spec_method_code(constant_pool.deep_view(), self@) == Ok::<
                    CodeAttributeV,
                    VmError,
                >(c@),
                Err(e) => spec_method_code(constant_pool.deep_view(), self@) == Err::<
                    CodeAttributeV,
                    VmError,
                >(e),
            },
    {
        let want: String = "Code".to_owned();
        let mut k: usize = 0;
        while k < self.attributes.len()
            invariant
                k <= self.attributes@.len(),
                spec_find_code_attr(constant_pool.deep_view(), self@.attributes, 0)
                    == spec_find_code_attr(constant_pool.deep_view(), self@.attributes, k as int),
            decreases self.attributes@.len() - k,
        {
            let name = pool_utf8_exec(
                constant_pool,
                self.attributes[k].attribute_name_index as usize,
            );
            match name {
                Some(s) => {
                    if s == want {
                        return CodeAttribute::parse(self.attributes[k].info.as_slice());
                    }
                },
                None => {},
            }
            k = k + 1;
        }
        Err(VmError::Resolution(ResolutionError::MissingCode))
    }
}

} // verus!
