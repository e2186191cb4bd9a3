//! The declarative description of record types: an ordered list of named
//! types, each an ordered list of named fields with a tagged shape.
//!
//! A shape is either a plain scalar tag, or a compound tag (array, single
//! reference, nested struct, inline byte blob) that carries an optional
//! static size and the name of an element type.

use vstd::prelude::*;
use vstd::string::StrSliceExecFns;

verus! {

/// The scalar field-shape tags.
#[derive(Clone, Copy, Debug, PartialEq, Eq)]
pub enum Type {
    Byte,
    Byte3,
    Byte4,
    Word,
    Word3,
    Dword,
    Dword2,
    Dword4,
    Qword,
    Float,
    Float2,
    Float3,
    Float4,
    Double,
    Guid,
    Filename,
    Fileref,
    WcharRef,
    CharRef,
}

/// The compound field-shape tags.
#[derive(Clone, Copy, Debug, PartialEq, Eq)]
pub enum Type2 {
    /// An array of elements: counted at run time, or static when a size is given.
    Array,
    /// A single displacement-based reference to one element.
    Ref,
    /// Another record type embedded in place.
    Struct,
    /// An inline byte blob sized by a literal byte count.
    Blob,
}

/// One field shape: a scalar tag alone, or a compound tag with its element
/// type name and optional static size.
#[derive(Clone, Debug)]
pub enum FieldType {
    Type(Type),
    Type2 { kind: Type2, size: Option<u32>, ref_type: String },
}

/// One record type: its fields, named, in declared order.
#[derive(Clone, Debug)]
pub struct TypeDef(pub Vec<(String, FieldType)>);

/// The whole schema: record types, named, in declared order.
#[derive(Clone, Debug)]
pub struct TypeDefs(pub Vec<(String, TypeDef)>);

/// Whether two strings hold the same characters.
pub fn str_eq(a: &str, b: &str) -> (r: bool)
    ensures
        r == (a@ == b@),
{
    let na = a.unicode_len();
    let nb = b.unicode_len();
    if na != nb {
        return false;
    }
    let mut i: usize = 0;
    while i < na
        invariant
            na == a@.len(),
            na == b@.len(),
            0 <= i <= na,
            forall|k: int| 0 <= k < i ==> a@[k] == b@[k],
        decreases na - i,
    {
        if a.get_char(i) != b.get_char(i) {
            return false;
        }
        i += 1;
    }
    proof {
        assert(a@ =~= b@);
    }
    true
}

/// The scalar tag named `s`, if any: the fixed table from tag spelling to
/// scalar shape.
pub open spec fn spec_scalar_tag(s: Seq<char>) -> Option<Type> {
    if s == "byte"@ {
        Some(Type::Byte)
    } else if s == "byte3"@ {
        Some(Type::Byte3)
    } else if s == "byte4"@ {
        Some(Type::Byte4)
    } else if s == "word"@ {
        Some(Type::Word)
    } else if s == "word3"@ {
        Some(Type::Word3)
    } else if s == "dword"@ {
        Some(Type::Dword)
    } else if s == "dword2"@ {
        Some(Type::Dword2)
    } else if s == "dword4"@ {
        Some(Type::Dword4)
    } else if s == "qword"@ {
        Some(Type::Qword)
    } else if s == "float"@ {
        Some(Type::Float)
    } else if s == "float2"@ {
        Some(Type::Float2)
    } else if s == "float3"@ {
        Some(Type::Float3)
    } else if s == "float4"@ {
        Some(Type::Float4)
    } else if s == "double"@ {
        Some(Type::Double)
    } else if s == "guid"@ {
        Some(Type::Guid)
    } else if s == "filename"@ {
        Some(Type::Filename)
    } else if s == "fileref"@ {
        Some(Type::Fileref)
    } else if s == "wchar *"@ {
        Some(Type::WcharRef)
    } else if s == "char *"@ {
        Some(Type::CharRef)
    } else {
        None
    }
}

/// Recognizes a scalar field-shape tag.
pub fn parse_scalar_tag(s: &str) -> (r: Option<Type>)
    ensures
        r == spec_scalar_tag(s@),
{
    if str_eq(s, "byte") {
        Some(Type::Byte)
    } else if str_eq(s, "byte3") {
        Some(Type::Byte3)
    } else if str_eq(s, "byte4") {
        Some(Type::Byte4)
    } else if str_eq(s, "word") {
        Some(Type::Word)
    } else if str_eq(s, "word3") {
        Some(Type::Word3)
    } else if str_eq(s, "dword") {
        Some(Type::Dword)
    } else if str_eq(s, "dword2") {
        Some(Type::Dword2)
    } else if str_eq(s, "dword4") {
        Some(Type::Dword4)
    } else if str_eq(s, "qword") {
        Some(Type::Qword)
    } else if str_eq(s, "float") {
        Some(Type::Float)
    } else if str_eq(s, "float2") {
        Some(Type::Float2)
    } else if str_eq(s, "float3") {
        Some(Type::Float3)
    } else if str_eq(s, "float4") {
        Some(Type::Float4)
    } else if str_eq(s, "double") {
        Some(Type::Double)
    } else if str_eq(s, "guid") {
        Some(Type::Guid)
    } else if str_eq(s, "filename") {
        Some(Type::Filename)
    } else if str_eq(s, "fileref") {
        Some(Type::Fileref)
    } else if str_eq(s, "wchar *") {
        Some(Type::WcharRef)
    } else if str_eq(s, "char *") {
        Some(Type::CharRef)
    } else {
        None
    }
}

/// The compound tag named `s`, if any.
pub open spec fn spec_compound_tag(s: Seq<char>) -> Option<Type2> {
    if s == "array"@ {
        Some(Type2::Array)
    } else if s == "ref"@ {
        Some(Type2::Ref)
    } else if s == "struct"@ {
        Some(Type2::Struct)
    } else if s == "blob"@ {
        Some(Type2::Blob)
    } else {
        None
    }
}

/// Recognizes a compound field-shape tag.
pub fn parse_compound_tag(s: &str) -> (r: Option<Type2>)
    ensures
        r == spec_compound_tag(s@),
{
    if str_eq(s, "array") {
        Some(Type2::Array)
    } else if str_eq(s, "ref") {
        Some(Type2::Ref)
    } else if str_eq(s, "struct") {
        Some(Type2::Struct)
    } else if str_eq(s, "blob") {
        Some(Type2::Blob)
    } else {
        None
    }
}

} // verus!
