//! The schema compiler: turns an ordered list of record-type schemas into
//! one generated view definition per entry.
//!
//! Field order is preserved, names are case-normalized (Pascal case for
//! types, snake case for fields), the two field names that are reserved
//! words are escaped rather than renamed, and every named element type is
//! resolved symbolically against the whole schema, so forward references
//! and direct self-reference both work. A reference to a name that no
//! schema entry declares, and a byte blob without its literal size, are
//! fatal schema errors reported for the first offending field.

use vstd::prelude::*;

use crate::defs::{FieldType, Type, Type2, TypeDef, TypeDefs};
use crate::defs::{parse_scalar_tag, spec_scalar_tag, str_eq};
use crate::trusted::{pascal_of, snake_of, to_pascal, to_snake};

verus! {

/// The element type of a compound shape: a builtin scalar, or the schema
/// entry at the given position of the compiled list.
#[derive(Clone, Copy, Debug, PartialEq, Eq)]
pub enum ElemRef {
    Builtin(Type),
    Defined(usize),
}

/// One compiled field shape, a view-model construct.
#[derive(Clone, Copy, Debug, PartialEq, Eq)]
pub enum Shape {
    /// A fixed-width value read in place.
    Scalar(Type),
    /// A statically sized run of elements read in place.
    FixedArray { elem: ElemRef, count: u32 },
    /// A (count, displacement) header whose elements live at the field's
    /// own address plus the displacement.
    CountedArray { elem: ElemRef },
    /// A displacement header referring to a single element.
    Reference { elem: ElemRef },
    /// Another generated definition embedded in place.
    Nested { elem: ElemRef },
    /// An inline byte blob with a literal byte count.
    Bytes { count: u32 },
}

/// One field of a generated definition.
#[derive(Clone, Debug, PartialEq)]
pub struct GeneratedField {
    /// The emitted field name. For an escaped field this is the external
    /// name itself, otherwise its snake-case form.
    pub name: String,
    /// Whether the name collides with a reserved word and must be escaped,
    /// never renamed, by whatever writes the definition out.
    pub escaped: bool,
    pub shape: Shape,
}

/// One generated view definition: the Pascal-case type name and the fields
/// in declared order.
#[derive(Clone, Debug, PartialEq)]
pub struct GeneratedViewType {
    pub name: String,
    pub fields: Vec<GeneratedField>,
}

/// A fatal schema error, reported for the offending type and field.
#[derive(Clone, Debug, PartialEq)]
pub enum SchemaError {
    /// A field-shape tag that the fixed tables do not recognize; reported
    /// when a schema artifact is read in.
    UnknownTag { record_name: String, field_name: String, tag: String },
    /// A byte-blob field without its literal byte count.
    BlobWithoutSize { record_name: String, field_name: String },
    /// A named element type that no schema entry declares.
    UnresolvedRef { record_name: String, field_name: String, target: String },
}

/// The position of the first schema entry named `name`, or -1.
pub open spec fn spec_find_type(defs: Seq<(String, TypeDef)>, name: Seq<char>) -> int
    decreases defs.len(),
{
    if defs.len() == 0 {
        -1
    } else if defs[0].0@ == name {
        0
    } else {
        let r = spec_find_type(defs.drop_first(), name);
        if r < 0 {
            -1
        } else {
            r + 1
        }
    }
}

/// What the element name `name` resolves to: a builtin scalar tag, or the
/// first schema entry with that exact name.
pub open spec fn spec_elem(defs: Seq<(String, TypeDef)>, name: Seq<char>) -> Option<ElemRef> {
    match spec_scalar_tag(name) {
        Some(t) => Some(ElemRef::Builtin(t)),
        None => {
            let i = spec_find_type(defs, name);
            if i >= 0 {
                Some(ElemRef::Defined(i as usize))
            } else {
                None
            }
        },
    }
}

/// The shape compiled for one field, or `None` where the field is a fatal
/// schema error.
pub open spec fn spec_shape(defs: Seq<(String, TypeDef)>, ft: FieldType) -> Option<Shape> {
    match ft {
        FieldType::Type(t) => Some(Shape::Scalar(t)),
        FieldType::Type2 { kind, size, ref_type } => match kind {
            Type2::Blob => match size {
                Some(n) => Some(Shape::Bytes { count: n }),
                None => None,
            },
            Type2::Array => match spec_elem(defs, ref_type@) {
                Some(e) => match size {
                    Some(n) => Some(Shape::FixedArray { elem: e, count: n }),
                    None => Some(Shape::CountedArray { elem: e }),
                },
                None => None,
            },
            Type2::Ref => match spec_elem(defs, ref_type@) {
                Some(e) => Some(Shape::Reference { elem: e }),
                None => None,
            },
            Type2::Struct => match spec_elem(defs, ref_type@) {
                Some(e) => Some(Shape::Nested { elem: e }),
                None => None,
            },
        },
    }
}

/// Whether `raw` is one of the two reserved field names that must be
/// escaped rather than renamed.
pub open spec fn spec_escaped_name(raw: Seq<char>) -> bool {
    raw == "type"@ || raw == "move"@
}

/// Whether `g` is the correct compilation of the field `(raw_name, ft)`.
pub open spec fn field_matches(
    defs: Seq<(String, TypeDef)>,
    raw_name: Seq<char>,
    ft: FieldType,
    g: GeneratedField,
) -> bool {
    &&& if spec_escaped_name(raw_name) {
        g.escaped && g.name@ == raw_name
    } else {
        !g.escaped && g.name@ == snake_of(raw_name)
    }
    &&& Some(g.shape) == spec_shape(defs, ft)
}

/// Whether `g` is the correct compilation of the schema entry at `i`.
pub open spec fn type_matches(defs: Seq<(String, TypeDef)>, i: int, g: GeneratedViewType) -> bool {
    &&& g.name@ == pascal_of(defs[i].0@)
    &&& g.fields@.len() == defs[i].1.0@.len()
    &&& forall|j: int|
        0 <= j < defs[i].1.0@.len() ==> field_matches(
            defs,
            defs[i].1.0@[j].0@,
            defs[i].1.0@[j].1,
            #[trigger] g.fields@[j],
        )
}

/// Whether `out` is the correct compilation of the whole schema.
pub open spec fn output_matches(defs: Seq<(String, TypeDef)>, out: Seq<GeneratedViewType>) -> bool {
    &&& out.len() == defs.len()
    &&& forall|i: int| 0 <= i < defs.len() ==> type_matches(defs, i, #[trigger] out[i])
}

/// The position of the first field of `fields` whose shape is a fatal
/// schema error, or -1.
pub open spec fn first_bad_field(
    defs: Seq<(String, TypeDef)>,
    fields: Seq<(String, FieldType)>,
) -> int
    decreases fields.len(),
{
    if fields.len() == 0 {
        -1
    } else if spec_shape(defs, fields[0].1) is None {
        0
    } else {
        let r = first_bad_field(defs, fields.drop_first());
        if r < 0 {
            -1
        } else {
            r + 1
        }
    }
}

/// The position of the first schema entry holding a fatal field, searching
/// from `i`, or -1.
pub open spec fn first_bad_type_from(defs: Seq<(String, TypeDef)>, i: int) -> int
    decreases defs.len() - i
        when 0 <= i <= defs.len()
{
    if i >= defs.len() {
        -1
    } else if first_bad_field(defs, defs[i].1.0@) >= 0 {
        i
    } else {
        first_bad_type_from(defs, i + 1)
    }
}

/// Whether the error `e` correctly reports the fatal field `(fname, ft)` of
/// the type named `tname`.
pub open spec fn error_matches(
    tname: Seq<char>,
    fname: Seq<char>,
    ft: FieldType,
    e: SchemaError,
) -> bool {
    match ft {
        FieldType::Type(_) => false,
        FieldType::Type2 { kind, size, ref_type } => match kind {
            Type2::Blob => {
                &&& size is None
                &&& (e matches SchemaError::BlobWithoutSize { record_name, field_name }
                    && record_name@ == tname && field_name@ == fname)
            },
            _ => {
                &&& (e matches SchemaError::UnresolvedRef { record_name, field_name, target }
                    && record_name@ == tname && field_name@ == fname && target@ == ref_type@)
            },
        },
    }
}

/// Whether `e` correctly reports the first fatal field of the schema.
pub open spec fn compile_error_matches(defs: Seq<(String, TypeDef)>, e: SchemaError) -> bool {
    let i = first_bad_type_from(defs, 0);
    let j = first_bad_field(defs, defs[i].1.0@);
    &&& 0 <= i < defs.len()
    &&& 0 <= j < defs[i].1.0@.len()
    &&& error_matches(defs[i].0@, defs[i].1.0@[j].0@, defs[i].1.0@[j].1, e)
}

proof fn lemma_find_type_at(defs: Seq<(String, TypeDef)>, name: Seq<char>, i: int)
    requires
        0 <= i < defs.len(),
        defs[i].0@ == name,
        forall|k: int| 0 <= k < i ==> defs[k].0@ != name,
    ensures
        spec_find_type(defs, name) == i,
    decreases defs.len(),
{
    if i > 0 {
        assert(defs.drop_first()[i - 1] == defs[i]);
        assert forall|k: int| 0 <= k < i - 1 implies defs.drop_first()[k].0@ != name by {
            assert(defs.drop_first()[k] == defs[k + 1]);
        }
        lemma_find_type_at(defs.drop_first(), name, i - 1);
    }
}

proof fn lemma_find_type_none(defs: Seq<(String, TypeDef)>, name: Seq<char>)
    requires
        forall|k: int| 0 <= k < defs.len() ==> defs[k].0@ != name,
    ensures
        spec_find_type(defs, name) == -1,
    decreases defs.len(),
{
    if defs.len() > 0 {
        assert forall|k: int| 0 <= k < defs.drop_first().len() implies defs.drop_first()[k].0@
            != name by {
            assert(defs.drop_first()[k] == defs[k + 1]);
        }
        lemma_find_type_none(defs.drop_first(), name);
    }
}

/// Finds the first schema entry named `name`.
fn find_type(defs: &TypeDefs, name: &String) -> (r: Option<usize>)
    ensures
        match r {
            Some(i) => spec_find_type(defs.0@, name@) == i as int,
            None => spec_find_type(defs.0@, name@) == -1,
        },
{
    let n = defs.0.len();
    let mut i: usize = 0;
    while i < n
        invariant
            n == defs.0@.len(),
            0 <= i <= n,
            forall|k: int| 0 <= k < i ==> defs.0@[k].0@ != name@,
        decreases n - i,
    {
        let entry = &defs.0[i];
        if str_eq(entry.0.as_str(), name.as_str()) {
            proof {
                lemma_find_type_at(defs.0@, name@, i as int);
            }
            return Some(i);
        }
        i += 1;
    }
    proof {
        lemma_find_type_none(defs.0@, name@);
    }
    None
}

/// Resolves an element name to a builtin scalar or a schema entry.
fn resolve_elem(defs: &TypeDefs, name: &String) -> (r: Option<ElemRef>)
    ensures
        r == spec_elem(defs.0@, name@),
{
    match parse_scalar_tag(name.as_str()) {
        Some(t) => Some(ElemRef::Builtin(t)),
        None => match find_type(defs, name) {
            Some(i) => Some(ElemRef::Defined(i)),
            None => None,
        },
    }
}

/// Compiles one field shape; `None` is a fatal schema error.
fn resolve_shape(defs: &TypeDefs, ft: &FieldType) -> (r: Option<Shape>)
    ensures
        r == spec_shape(defs.0@, *ft),
{
    match ft {
        FieldType::Type(t) => Some(Shape::Scalar(*t)),
        FieldType::Type2 { kind, size, ref_type } => match kind {
            Type2::Blob => match size {
                Some(n) => Some(Shape::Bytes { count: *n }),
                None => None,
            },
            Type2::Array => match resolve_elem(defs, ref_type) {
                Some(e) => match size {
                    Some(n) => Some(Shape::FixedArray { elem: e, count: *n }),
                    None => Some(Shape::CountedArray { elem: e }),
                },
                None => None,
            },
            Type2::Ref => match resolve_elem(defs, ref_type) {
                Some(e) => Some(Shape::Reference { elem: e }),
                None => None,
            },
            Type2::Struct => match resolve_elem(defs, ref_type) {
                Some(e) => Some(Shape::Nested { elem: e }),
                None => None,
            },
        },
    }
}

proof fn lemma_first_bad_field_at(
    defs: Seq<(String, TypeDef)>,
    fields: Seq<(String, FieldType)>,
    j: int,
)
    requires
        0 <= j < fields.len(),
        spec_shape(defs, fields[j].1) is None,
        forall|k: int| 0 <= k < j ==> spec_shape(defs, fields[k].1) is Some,
    ensures
        first_bad_field(defs, fields) == j,
    decreases fields.len(),
{
    if j > 0 {
        assert(fields.drop_first()[j - 1] == fields[j]);
        assert forall|k: int| 0 <= k < j - 1 implies spec_shape(
            defs,
            fields.drop_first()[k].1,
        ) is Some by {
            assert(fields.drop_first()[k] == fields[k + 1]);
        }
        lemma_first_bad_field_at(defs, fields.drop_first(), j - 1);
    }
}

proof fn lemma_first_bad_field_none(defs: Seq<(String, TypeDef)>, fields: Seq<(String, FieldType)>)
    requires
        forall|k: int| 0 <= k < fields.len() ==> spec_shape(defs, fields[k].1) is Some,
    ensures
        first_bad_field(defs, fields) == -1,
    decreases fields.len(),
{
    if fields.len() > 0 {
        assert forall|k: int| 0 <= k < fields.drop_first().len() implies spec_shape(
            defs,
            fields.drop_first()[k].1,
        ) is Some by {
            assert(fields.drop_first()[k] == fields[k + 1]);
        }
        lemma_first_bad_field_none(defs, fields.drop_first());
    }
}

proof fn lemma_first_bad_type_at(defs: Seq<(String, TypeDef)>, i: int)
    requires
        0 <= i < defs.len(),
        first_bad_field(defs, defs[i].1.0@) >= 0,
        forall|k: int| 0 <= k < i ==> first_bad_field(defs, defs[k].1.0@) == -1,
    ensures
        first_bad_type_from(defs, 0) == i,
    decreases defs.len(),
{
    lemma_first_bad_type_reaches(defs, i, 0);
}

proof fn lemma_first_bad_type_reaches(defs: Seq<(String, TypeDef)>, i: int, start: int)
    requires
        0 <= start <= i < defs.len(),
        first_bad_field(defs, defs[i].1.0@) >= 0,
        forall|k: int| 0 <= k < i ==> first_bad_field(defs, defs[k].1.0@) == -1,
    ensures
        first_bad_type_from(defs, start) == i,
    decreases i - start,
{
    if start < i {
        lemma_first_bad_type_reaches(defs, i, start + 1);
    }
}

proof fn lemma_first_bad_type_none(defs: Seq<(String, TypeDef)>, start: int)
    requires
        0 <= start <= defs.len(),
        forall|k: int| 0 <= k < defs.len() ==> first_bad_field(defs, defs[k].1.0@) == -1,
    ensures
        first_bad_type_from(defs, start) == -1,
    decreases defs.len() - start,
{
    if start < defs.len() {
        lemma_first_bad_type_none(defs, start + 1);
    }
}

/// Compiles the schema: one generated view definition per entry, in order.
///
/// Succeeds exactly when every field of every entry compiles; otherwise the
/// first offending field is reported. On success the output is determined
/// by the schema alone: entry `i` carries the Pascal-case form of the
/// entry's name and one field per schema field, in declared order, each
/// with its snake-case (or escaped) name and its resolved shape.
pub fn compile(defs: &TypeDefs) -> (r: Result<Vec<GeneratedViewType>, SchemaError>)
    ensures
        match r {
            Ok(out) => first_bad_type_from(defs.0@, 0) == -1 && output_matches(defs.0@, out@),
            Err(e) => first_bad_type_from(defs.0@, 0) >= 0 && compile_error_matches(defs.0@, e),
        },
{
    let n = defs.0.len();
    let mut out: Vec<GeneratedViewType> = Vec::new();
    let mut i: usize = 0;
    while i < n
        invariant
            n == defs.0@.len(),
            0 <= i <= n,
            out@.len() == i,
            forall|k: int| 0 <= k < i ==> type_matches(defs.0@, k, #[trigger] out@[k]),
            forall|k: int| 0 <= k < i ==> first_bad_field(defs.0@, defs.0@[k].1.0@) == -1,
        decreases n - i,
    {
        let entry = &defs.0[i];
        let nf = entry.1.0.len();
        let mut fields: Vec<GeneratedField> = Vec::new();
        let mut j: usize = 0;
        while j < nf
            invariant
                n == defs.0@.len(),
                0 <= i < n,
                *entry == defs.0@[i as int],
                nf == entry.1.0@.len(),
                0 <= j <= nf,
                fields@.len() == j,
                forall|k: int|
                    0 <= k < j ==> field_matches(
                        defs.0@,
                        entry.1.0@[k].0@,
                        entry.1.0@[k].1,
                        #[trigger] fields@[k],
                    ),
                forall|k: int| 0 <= k < j ==> spec_shape(defs.0@, entry.1.0@[k].1) is Some,
                forall|k: int| 0 <= k < i ==> first_bad_field(defs.0@, defs.0@[k].1.0@) == -1,
            decreases nf - j,
        {
            let field = &entry.1.0[j];
            let shape = match resolve_shape(defs, &field.1) {
                Some(s) => s,
                None => {
                    proof {
                        lemma_first_bad_field_at(defs.0@, entry.1.0@, j as int);
                        lemma_first_bad_type_at(defs.0@, i as int);
                    }
                    let e = match &field.1 {
                        FieldType::Type2 { kind: Type2::Blob, size: _, ref_type: _ } => {
                            SchemaError::BlobWithoutSize {
                                record_name: entry.0.clone(),
                                field_name: field.0.clone(),
                            }
                        },
                        FieldType::Type2 { kind: _, size: _, ref_type } => {
                            SchemaError::UnresolvedRef {
                                record_name: entry.0.clone(),
                                field_name: field.0.clone(),
                                target: ref_type.clone(),
                            }
                        },
                        FieldType::Type(_) => {
                            proof {
                                assert(false);
                            }
                            SchemaError::BlobWithoutSize {
                                record_name: entry.0.clone(),
                                field_name: field.0.clone(),
                            }
                        },
                    };
                    return Err(e);
                },
            };
            let escaped = str_eq(field.0.as_str(), "type") || str_eq(field.0.as_str(), "move");
            let name = if escaped {
                field.0.clone()
            } else {
                to_snake(field.0.as_str())
            };
            fields.push(GeneratedField { name, escaped, shape });
            j += 1;
        }
        proof {
            lemma_first_bad_field_none(defs.0@, entry.1.0@);
        }
        out.push(GeneratedViewType { name: to_pascal(entry.0.as_str()), fields });
        i += 1;
    }
    proof {
        lemma_first_bad_type_none(defs.0@, 0);
    }
    Ok(out)
}

/// Compiling the same schema twice yields structurally identical outputs:
/// the same type names, field names, escape decisions and shapes, in the
/// same order.
pub proof fn lemma_compile_deterministic(
    defs: Seq<(String, TypeDef)>,
    a: Seq<GeneratedViewType>,
    b: Seq<GeneratedViewType>,
)
    requires
        output_matches(defs, a),
        output_matches(defs, b),
    ensures
        a.len() == b.len(),
        forall|i: int|
            0 <= i < a.len() ==> (#[trigger] a[i]).name@ == b[i].name@ && a[i].fields@.len()
                == b[i].fields@.len(),
        forall|i: int, j: int|
            0 <= i < a.len() && 0 <= j < a[i].fields@.len() ==> {
                &&& (#[trigger] a[i].fields@[j]).name@ == b[i].fields@[j].name@
                &&& a[i].fields@[j].escaped == b[i].fields@[j].escaped
                &&& a[i].fields@[j].shape == b[i].fields@[j].shape
            },
{
    assert forall|i: int, j: int|
        0 <= i < a.len() && 0 <= j < a[i].fields@.len() implies {
        &&& (#[trigger] a[i].fields@[j]).name@ == b[i].fields@[j].name@
        &&& a[i].fields@[j].escaped == b[i].fields@[j].escaped
        &&& a[i].fields@[j].shape == b[i].fields@[j].shape
    } by {
        assert(type_matches(defs, i, a[i]));
        assert(type_matches(defs, i, b[i]));
        assert(field_matches(defs, defs[i].1.0@[j].0@, defs[i].1.0@[j].1, a[i].fields@[j]));
        assert(field_matches(defs, defs[i].1.0@[j].0@, defs[i].1.0@[j].1, b[i].fields@[j]));
    }
}

} // verus!
