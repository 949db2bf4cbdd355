//! The schema model: the closed, recursive set of type shapes a
//! declaration or field may have.

use vstd::prelude::*;
use crate::name::Name;

verus! {

/// A named field of a struct, with the schema of its value.
pub struct Field {
    pub name: Name,
    pub schema: Box<Schema>,
}

/// A product type: an ordered sequence of named fields, an optional
/// magic sentinel written immediately after any discriminant, and a
/// structured name.
pub struct StructDef {
    pub magic: Option<i32>,
    pub name: Name,
    pub fields: Vec<Field>,
}

/// One data type: a primitive leaf, a product type, a tagged union, an
/// integer-backed enumeration, or a container over inner schemas.
pub enum Schema {
    Bool,
    Int32,
    Int64,
    Float32,
    Float64,
    Str,
    Struct(StructDef),
    OneOf { base_name: Name, variants: Vec<StructDef> },
    Optional(Box<Schema>),
    Sequence(Box<Schema>),
    Mapping(Box<Schema>, Box<Schema>),
    Enum { base_name: Name, variants: Vec<Name> },
}

/// How many extra indentation steps emitting the codec statements for a
/// schema may use beyond the level it starts at.
pub open spec fn sdepth(s: Schema) -> nat
    decreases s,
{
    match s {
        Schema::Optional(inner) => 3 + sdepth(*inner),
        Schema::Sequence(inner) => 1 + sdepth(*inner),
        Schema::Mapping(key, value) => 1 + if sdepth(*key) >= sdepth(*value) {
            sdepth(*key)
        } else {
            sdepth(*value)
        },
        _ => 0,
    }
}

/// The largest `sdepth` among the schemas of a sequence of fields.
pub open spec fn fields_depth(fields: Seq<Field>) -> nat
    decreases fields.len(),
{
    if fields.len() == 0 {
        0
    } else {
        let d0 = sdepth(*fields[0].schema);
        let dr = fields_depth(fields.drop_first());
        if d0 >= dr {
            d0
        } else {
            dr
        }
    }
}

/// The largest `fields_depth` among the variants of a tagged union.
pub open spec fn variants_depth(variants: Seq<StructDef>) -> nat
    decreases variants.len(),
{
    if variants.len() == 0 {
        0
    } else {
        let d0 = fields_depth(variants[0].fields@);
        let dr = variants_depth(variants.drop_first());
        if d0 >= dr {
            d0
        } else {
            dr
        }
    }
}

} // verus!
