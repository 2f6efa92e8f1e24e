//! What the generator of structs decides for the generic form of a
//! struct, in which each field that can take several types has a type
//! parameter of its own.
use vstd::prelude::*;
use vstd::string::StringExecFns;

use crate::ast::{NamedField, PrimitiveType, Type, TypeDef};
use crate::codegen::codegen_cx::{type_uses_type_param, uses_type_param, CodegenCx, Unresolved};
use crate::codegen::name_util::{camel_from, snake_to_upper_camel_case};
use crate::db::{find_def, Database};
use crate::text::push_char;

verus! {

/// Whether a field of type `ty` can take any type with the same wire
/// format: text, boxes, lists, options, results and definitions can, the
/// other built-in types cannot.
pub open spec fn spec_generic_bound(ty: Type) -> bool {
    match ty {
        Type::Primitive(PrimitiveType::String) => true,
        Type::Primitive(PrimitiveType::Box(_)) => true,
        Type::Primitive(PrimitiveType::List(_)) => true,
        Type::Primitive(PrimitiveType::Option(_)) => true,
        Type::Primitive(PrimitiveType::Result(_, _)) => true,
        Type::Defined { .. } => true,
        _ => false,
    }
}

pub fn generic_bound(ty: &Type) -> (bound: bool)
    ensures
        bound == spec_generic_bound(*ty),
{
    match ty {
        Type::Primitive(PrimitiveType::String) => true,
        Type::Primitive(PrimitiveType::Box(_)) => true,
        Type::Primitive(PrimitiveType::List(_)) => true,
        Type::Primitive(PrimitiveType::Option(_)) => true,
        Type::Primitive(PrimitiveType::Result(_, _)) => true,
        Type::Defined { .. } => true,
        _ => false,
    }
}

/// `name` with `count` letters `T` in front.
pub open spec fn prefixed(name: Seq<char>, count: nat) -> Seq<char>
    decreases count,
{
    if count == 0 {
        name
    } else {
        seq!['T'] + prefixed(name, (count - 1) as nat)
    }
}

/// The length of the longest name among `defs`.
pub open spec fn longest_name(defs: Seq<TypeDef>) -> nat
    decreases defs.len(),
{
    if defs.len() == 0 {
        0
    } else if defs.last().name@.len() > longest_name(defs.drop_last()) {
        defs.last().name@.len()
    } else {
        longest_name(defs.drop_last())
    }
}

/// A name that is defined is no longer than the longest name.
pub proof fn lemma_longest_name(defs: Seq<TypeDef>, name: Seq<char>)
    requires
        find_def(defs, name) is Some,
    ensures
        name.len() <= longest_name(defs),
    decreases defs.len(),
{
    if defs.len() > 0 && defs.last().name@ != name {
        lemma_longest_name(defs.drop_last(), name);
    }
}

/// Whether `name` is `base` with `count` letters `T` in front, is the
/// name of no local definition, and is the first such name: with fewer
/// letters in front it is the name of one.
pub open spec fn first_free(db: &Database, base: Seq<char>, name: Seq<char>, count: nat) -> bool {
    &&& name == prefixed(base, count)
    &&& db.local_module().def_named(name) is None
    &&& forall|fewer: nat|
        fewer < count ==> db.local_module().def_named(#[trigger] prefixed(base, fewer)) is Some
}

/// The name of the type parameter that stands for the field `field_name`
/// in the generic form of a struct: `prefix`, then the field's name in
/// upper camel case, with as many letters `T` in front as it takes for the
/// name to be that of no local definition.
pub fn generic_param_name(db: &Database, prefix: &str, field_name: &str) -> (name: String)
    ensures
        exists|count: nat|
            first_free(db, prefix@ + camel_from(field_name@, 0, true), name@, count),
{
    let ghost base = prefix@ + camel_from(field_name@, 0, true);
    let ghost defs = db.local_module().defs();
    let camel = snake_to_upper_camel_case(field_name);
    let mut param_name = prefix.to_owned();
    param_name.append(camel.as_str());
    let ghost mut count: nat = 0;
    // Ensure that type parameter name doesn't conflict with an already defined type.
    // Types from imported modules are qualified in generated code, so we don't need to
    // worry about conflicting with types from other modules.
    loop
        invariant
            base == prefix@ + camel_from(field_name@, 0, true),
            defs == db.local_module().defs(),
            param_name@ == prefixed(base, count),
            forall|fewer: nat|
                fewer < count ==> db.local_module().def_named(#[trigger] prefixed(base, fewer))
                    is Some,
        decreases longest_name(defs) + 1 - param_name@.len(),
    {
        let found = db.local().type_def_by_name(param_name.as_str()).is_some();
        if !found {
            proof {
                assert(first_free(db, base, param_name@, count));
            }
            return param_name;
        }
        proof {
            lemma_longest_name(defs, param_name@);
        }
        let mut longer = String::new();
        push_char(&mut longer, 'T');
        longer.append(param_name.as_str());
        proof {
            assert(longer@ =~= seq!['T'] + param_name@);
            count = count + 1;
        }
        param_name = longer;
    }
}

/// What a field becomes in the generic form of a struct.
#[derive(Debug, PartialEq, Eq)]
pub enum StructBound {
    /// A type parameter bound to be encodable: the type of the field
    /// mentions a type parameter of the struct.
    Encode,
    /// A type parameter bound to be compatible with the type of the field.
    Compatible,
    /// The type of the field as it is.
    Concrete,
}

/// The bound of a field of type `ty`, read in the context of the struct.
pub open spec fn spec_struct_bound(uses: bool, ty: Type) -> StructBound {
    if uses {
        StructBound::Encode
    } else if spec_generic_bound(ty) {
        StructBound::Compatible
    } else {
        StructBound::Concrete
    }
}

/// What the field `field` becomes in the generic form of a struct.
pub fn struct_bound(cx: &CodegenCx, field: &NamedField) -> (result: Result<StructBound, Unresolved>)
    ensures
        match result {
            Ok(bound) => uses_type_param(cx.db, cx.scope(), field.ty) matches Ok(uses) && bound
                == spec_struct_bound(uses, field.ty),
            Err(unresolved) => uses_type_param(cx.db, cx.scope(), field.ty) matches Err(ident)
                && ident == unresolved.ident,
        },
{
    let uses = type_uses_type_param(cx, &field.ty)?;
    if uses {
        Ok(StructBound::Encode)
    } else if generic_bound(&field.ty) {
        Ok(StructBound::Compatible)
    } else {
        Ok(StructBound::Concrete)
    }
}

} // verus!
