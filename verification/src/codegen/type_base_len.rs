//! The layout engine: the base length of a type expression, as a known
//! number of bytes and a term over the base lengths of the type parameters
//! that the expression leaves open.
use vstd::prelude::*;

use crate::ast::{Enum, EnumVariant, NamedField, PrimitiveType, QualifiedIdentifier, Struct, Type, TypeBody};
use crate::codegen::codegen_cx::{bound_scope, resolve_in, CodegenCx, ResolvedType, ResolvedView, Scope};
use crate::db::Database;

verus! {

/// How many definitions and type arguments deep the functions without a
/// depth of their own follow a type expression before they give it up as
/// too deep. A definition that holds itself without a box or a list
/// between has no base length at any depth; the limit turns the endless
/// descent into an answer.
pub const MAX_NESTING: usize = 128;

/// The part of a base length that depends on type parameters, as the
/// generated code spells it.
#[derive(Debug, PartialEq, Eq)]
pub enum LenTokens {
    /// Nothing: the length is known.
    Empty,
    /// The base length of what the type parameter of this name stands for.
    Param(String),
    /// The larger of two lengths.
    Max(Box<TypeBaseLen>, Box<TypeBaseLen>),
    /// The sum of two terms.
    Sum(Box<LenTokens>, Box<LenTokens>),
}

/// A base length: a known number of bytes and a term for the rest.
#[derive(Debug, PartialEq, Eq)]
pub struct TypeBaseLen {
    pub constant: usize,
    pub tokens: LenTokens,
}

/// Why a type expression has no base length.
#[derive(Debug, PartialEq, Eq)]
pub enum LayoutError {
    /// A name refers to no definition and no type parameter.
    Unresolved(QualifiedIdentifier),
    /// The expression nests definitions deeper than `MAX_NESTING`, as a
    /// definition that holds itself without a box or a list between does.
    TooDeep,
    /// The known part of the length does not fit a `usize`.
    TooLarge,
}

/// The form in which a base length is written out.
#[derive(Debug, PartialEq, Eq)]
pub enum LenForm<'a> {
    /// The number alone.
    Constant(usize),
    /// The term alone.
    Tokens(&'a LenTokens),
    /// The number, a plus sign, the term.
    Sum(usize, &'a LenTokens),
}

/// What a term comes to where `env` gives the base length that each type
/// parameter stands for.
pub open spec fn tokens_value(tokens: LenTokens, env: spec_fn(Seq<char>) -> nat) -> nat
    decreases tokens,
{
    match tokens {
        LenTokens::Empty => 0,
        LenTokens::Param(name) => env(name@),
        LenTokens::Max(a, b) => if len_value(*a, env) < len_value(*b, env) {
            len_value(*b, env)
        } else {
            len_value(*a, env)
        },
        LenTokens::Sum(a, b) => tokens_value(*a, env) + tokens_value(*b, env),
    }
}

/// What a base length comes to where `env` gives the base length that each
/// type parameter stands for.
pub open spec fn len_value(len: TypeBaseLen, env: spec_fn(Seq<char>) -> nat) -> nat
    decreases len,
{
    len.constant as nat + tokens_value(len.tokens, env)
}

/// The length of `constant` bytes.
pub open spec fn constant_len(constant: usize) -> TypeBaseLen {
    TypeBaseLen { constant, tokens: LenTokens::Empty }
}

/// The length that is `tokens` and no known bytes.
pub open spec fn tokens_len(tokens: LenTokens) -> TypeBaseLen {
    TypeBaseLen { constant: 0, tokens }
}

/// The sum of two lengths whose known parts together fit a `usize`: the
/// known parts added, the terms joined where neither is empty.
pub open spec fn merged(a: TypeBaseLen, b: TypeBaseLen) -> TypeBaseLen {
    TypeBaseLen {
        constant: (a.constant + b.constant) as usize,
        tokens: if a.tokens is Empty {
            b.tokens
        } else if b.tokens is Empty {
            a.tokens
        } else {
            LenTokens::Sum(Box::new(a.tokens), Box::new(b.tokens))
        },
    }
}

/// The sum of two lengths; `TooLarge` where the known parts together do
/// not fit a `usize`.
pub open spec fn try_merged(a: TypeBaseLen, b: TypeBaseLen) -> Result<TypeBaseLen, LayoutError> {
    if a.constant + b.constant > usize::MAX {
        Err(LayoutError::TooLarge)
    } else {
        Ok(merged(a, b))
    }
}

/// The larger of two lengths, as a length.
pub open spec fn max_len(a: TypeBaseLen, b: TypeBaseLen) -> TypeBaseLen {
    tokens_len(LenTokens::Max(Box::new(a), Box::new(b)))
}

/// A sum comes to the sum of what its parts come to.
pub proof fn lemma_merged_value(a: TypeBaseLen, b: TypeBaseLen, env: spec_fn(Seq<char>) -> nat)
    requires
        a.constant + b.constant <= usize::MAX,
    ensures
        len_value(merged(a, b), env) == len_value(a, env) + len_value(b, env),
{
}

impl TypeBaseLen {
    pub fn constant(constant: usize) -> (len: Self)
        ensures
            len == constant_len(constant),
    {
        Self { constant, tokens: LenTokens::Empty }
    }

    pub fn tokens(tokens: LenTokens) -> (len: Self)
        ensures
            len == tokens_len(tokens),
    {
        Self { constant: 0, tokens }
    }

    /// The sum of two lengths.
    pub fn merge(self, other: Self) -> (len: Self)
        requires
            self.constant + other.constant <= usize::MAX,
        ensures
            len == merged(self, other),
    {
        let constant = self.constant + other.constant;
        let tokens = match (self.tokens, other.tokens) {
            (LenTokens::Empty, tokens) => tokens,
            (tokens, LenTokens::Empty) => tokens,
            (a, b) => LenTokens::Sum(Box::new(a), Box::new(b)),
        };
        Self { constant, tokens }
    }

    /// The sum of two lengths, if its known part fits a `usize`.
    pub fn checked_merge(self, other: Self) -> (result: Result<Self, LayoutError>)
        ensures
            result == try_merged(self, other),
    {
        if self.constant > usize::MAX - other.constant {
            Err(LayoutError::TooLarge)
        } else {
            Ok(self.merge(other))
        }
    }

    /// How the length is written out: the term is left out where it is
    /// empty, the number where it is zero and there is a term.
    pub fn as_tokens(&self) -> (form: LenForm<'_>)
        ensures
            form == if self.tokens is Empty {
                LenForm::Constant(self.constant)
            } else if self.constant == 0 {
                LenForm::Tokens(&self.tokens)
            } else {
                LenForm::Sum(self.constant, &self.tokens)
            },
    {
        match &self.tokens {
            LenTokens::Empty => LenForm::Constant(self.constant),
            tokens => if self.constant == 0 {
                LenForm::Tokens(tokens)
            } else {
                LenForm::Sum(self.constant, tokens)
            },
        }
    }
}

/// The base length of a built-in type that has no parts.
pub open spec fn leaf_base_len(primitive: PrimitiveType) -> usize {
    match primitive {
        PrimitiveType::Void => 0,
        PrimitiveType::U8 => 1,
        PrimitiveType::U16 => 2,
        PrimitiveType::U32 => 4,
        PrimitiveType::U64 => 8,
        PrimitiveType::U128 => 16,
        PrimitiveType::I8 => 1,
        PrimitiveType::I16 => 2,
        PrimitiveType::I32 => 4,
        PrimitiveType::I64 => 8,
        PrimitiveType::I128 => 16,
        PrimitiveType::F32 => 4,
        PrimitiveType::F64 => 8,
        PrimitiveType::Bool => 1,
        PrimitiveType::String => 8,
        PrimitiveType::Box(_) => 4,
        PrimitiveType::List(_) => 8,
        _ => 0,
    }
}

/// The base length of `ty`, read in `scope` over `db`, following
/// definitions and bound parameters at most `depth` deep.
///
/// An option is a tag byte and its payload; a result is a tag byte and the
/// larger of its two payloads. A definition is read with its parameters
/// bound to the arguments, a bound parameter in the scope that bound it; a
/// parameter that is bound to nothing gives a term of its name.
pub open spec fn spec_type_base_len(db: &Database, scope: Scope, ty: Type, depth: nat) -> Result<
    TypeBaseLen,
    LayoutError,
>
    decreases depth, 0nat, 0nat, ty,
{
    match ty {
        Type::Primitive(PrimitiveType::Option(item)) => match spec_type_base_len(
            db,
            scope,
            *item,
            depth,
        ) {
            Ok(len) => try_merged(constant_len(1), len),
            Err(e) => Err(e),
        },
        Type::Primitive(PrimitiveType::Result(ok, err)) => match spec_type_base_len(
            db,
            scope,
            *ok,
            depth,
        ) {
            Ok(ok_len) => match spec_type_base_len(db, scope, *err, depth) {
                Ok(err_len) => try_merged(constant_len(1), max_len(ok_len, err_len)),
                Err(e) => Err(e),
            },
            Err(e) => Err(e),
        },
        Type::Primitive(leaf) => Ok(constant_len(leaf_base_len(leaf))),
        Type::Defined { ident, args } => match resolve_in(db, scope, ident) {
            Some(ResolvedView::Defined(def)) => if depth == 0 {
                Err(LayoutError::TooDeep)
            } else {
                match def.body {
                    TypeBody::Struct(s) => spec_fields_base_len(
                        db,
                        bound_scope(scope, def.params@, args@),
                        s.fields,
                        s.fields@.len(),
                        (depth - 1) as nat,
                    ),
                    TypeBody::Enum(e) => spec_enum_base_len(
                        db,
                        bound_scope(scope, def.params@, args@),
                        e,
                        (depth - 1) as nat,
                    ),
                }
            },
            Some(ResolvedView::UnboundParam) => Ok(tokens_len(LenTokens::Param(ident.name))),
            Some(ResolvedView::BoundParam { value, scope: binding_scope }) => if depth == 0 {
                Err(LayoutError::TooDeep)
            } else {
                spec_type_base_len(db, binding_scope, value, (depth - 1) as nat)
            },
            None => Err(LayoutError::Unresolved(ident)),
        },
    }
}

/// The base length of the first `count` of `fields` together: the sum of
/// their base lengths.
pub open spec fn spec_fields_base_len(
    db: &Database,
    scope: Scope,
    fields: Vec<NamedField>,
    count: nat,
    depth: nat,
) -> Result<TypeBaseLen, LayoutError>
    decreases depth, 1nat, count, fields,
{
    if count == 0 || count > fields@.len() {
        Ok(constant_len(0))
    } else {
        match spec_fields_base_len(db, scope, fields, (count - 1) as nat, depth) {
            Ok(front) => match spec_type_base_len(db, scope, fields@[count - 1].ty, depth) {
                Ok(field) => try_merged(front, field),
                Err(e) => Err(e),
            },
            Err(e) => Err(e),
        }
    }
}

/// The base length of a struct: the sum of the base lengths of its fields.
pub open spec fn spec_struct_base_len(db: &Database, scope: Scope, s: Struct, depth: nat) -> Result<
    TypeBaseLen,
    LayoutError,
> {
    spec_fields_base_len(db, scope, s.fields, s.fields@.len(), depth)
}

/// The base length of a variant: nothing where it is empty, else the sum
/// of the base lengths of its fields.
pub open spec fn spec_enum_variant_base_len(
    db: &Database,
    scope: Scope,
    variant: EnumVariant,
    depth: nat,
) -> Result<TypeBaseLen, LayoutError>
    decreases depth, 2nat, 0nat, variant,
{
    match variant {
        EnumVariant::Empty => Ok(constant_len(0)),
        EnumVariant::NamedFields { fields } => spec_fields_base_len(
            db,
            scope,
            fields,
            fields@.len(),
            depth,
        ),
    }
}

/// The largest base length among the first `count` variants of `e`.
pub open spec fn spec_variants_max(db: &Database, scope: Scope, e: Enum, count: nat, depth: nat) -> Result<
    TypeBaseLen,
    LayoutError,
>
    decreases depth, 3nat, count, e,
{
    if count == 0 || count > e.variants@.len() {
        Ok(constant_len(0))
    } else {
        match spec_variants_max(db, scope, e, (count - 1) as nat, depth) {
            Ok(front) => match spec_enum_variant_base_len(
                db,
                scope,
                e.variants@[count - 1].1,
                depth,
            ) {
                Ok(variant) => Ok(max_len(front, variant)),
                Err(e) => Err(e),
            },
            Err(e) => Err(e),
        }
    }
}

/// The base length of an enum: a tag byte and the largest base length
/// among its variants.
pub open spec fn spec_enum_base_len(db: &Database, scope: Scope, e: Enum, depth: nat) -> Result<
    TypeBaseLen,
    LayoutError,
>
    decreases depth, 4nat, 0nat, e,
{
    match spec_variants_max(db, scope, e, e.variants@.len(), depth) {
        Ok(largest) => try_merged(constant_len(1), largest),
        Err(e) => Err(e),
    }
}

/// The base length of `ty` in the context `cx`, following definitions and
/// bound parameters at most `depth` deep.
pub fn type_base_len_within(cx: &CodegenCx, ty: &Type, depth: usize) -> (result: Result<
    TypeBaseLen,
    LayoutError,
>)
    ensures
        result == spec_type_base_len(cx.db, cx.scope(), *ty, depth as nat),
    decreases depth, 0nat, 0nat, ty,
{
    match ty {
        Type::Primitive(PrimitiveType::Void) => Ok(TypeBaseLen::constant(0)),
        Type::Primitive(PrimitiveType::U8) => Ok(TypeBaseLen::constant(1)),
        Type::Primitive(PrimitiveType::U16) => Ok(TypeBaseLen::constant(2)),
        Type::Primitive(PrimitiveType::U32) => Ok(TypeBaseLen::constant(4)),
        Type::Primitive(PrimitiveType::U64) => Ok(TypeBaseLen::constant(8)),
        Type::Primitive(PrimitiveType::U128) => Ok(TypeBaseLen::constant(16)),
        Type::Primitive(PrimitiveType::I8) => Ok(TypeBaseLen::constant(1)),
        Type::Primitive(PrimitiveType::I16) => Ok(TypeBaseLen::constant(2)),
        Type::Primitive(PrimitiveType::I32) => Ok(TypeBaseLen::constant(4)),
        Type::Primitive(PrimitiveType::I64) => Ok(TypeBaseLen::constant(8)),
        Type::Primitive(PrimitiveType::I128) => Ok(TypeBaseLen::constant(16)),
        Type::Primitive(PrimitiveType::F32) => Ok(TypeBaseLen::constant(4)),
        Type::Primitive(PrimitiveType::F64) => Ok(TypeBaseLen::constant(8)),
        Type::Primitive(PrimitiveType::Bool) => Ok(TypeBaseLen::constant(1)),
        Type::Primitive(PrimitiveType::String) => Ok(TypeBaseLen::constant(8)),
        Type::Primitive(PrimitiveType::Box(_)) => Ok(TypeBaseLen::constant(4)),
        Type::Primitive(PrimitiveType::List(_)) => Ok(TypeBaseLen::constant(8)),
        Type::Primitive(PrimitiveType::Option(item_ty)) => {
            let item_len = type_base_len_within(cx, item_ty, depth)?;
            TypeBaseLen::constant(1).checked_merge(item_len)
        },
        Type::Primitive(PrimitiveType::Result(ok_ty, err_ty)) => {
            let ok_len = type_base_len_within(cx, ok_ty, depth)?;
            let err_len = type_base_len_within(cx, err_ty, depth)?;
            TypeBaseLen::constant(1).checked_merge(
                TypeBaseLen::tokens(LenTokens::Max(Box::new(ok_len), Box::new(err_len))),
            )
        },
        Type::Defined { ident, args } => {
            match cx.resolve_type(ident) {
                Some(ResolvedType::Defined(type_def)) => {
                    if depth == 0 {
                        return Err(LayoutError::TooDeep);
                    }
                    let inner_cx = cx.with_type_args(
                        type_def.params.as_slice(),
                        args.as_slice(),
                    );
                    match &type_def.body {
                        TypeBody::Struct(s) => struct_base_len_within(&inner_cx, s, depth - 1),
                        TypeBody::Enum(e) => enum_base_len_within(&inner_cx, e, depth - 1),
                    }
                },
                Some(ResolvedType::UnboundParam) => Ok(
                    TypeBaseLen::tokens(LenTokens::Param(ident.name.clone())),
                ),
                Some(ResolvedType::BoundParam { value, binding_cx }) => {
                    if depth == 0 {
                        return Err(LayoutError::TooDeep);
                    }
                    let binding = cx.with_type_param_bindings(binding_cx);
                    type_base_len_within(&binding, value, depth - 1)
                },
                None => Err(LayoutError::Unresolved(ident.clone())),
            }
        },
    }
}

/// The base length of `fields` together in the context `cx`.
fn fields_base_len_within(cx: &CodegenCx, fields: &Vec<NamedField>, depth: usize) -> (result:
    Result<TypeBaseLen, LayoutError>)
    ensures
        result == spec_fields_base_len(cx.db, cx.scope(), *fields, fields@.len(), depth as nat),
    decreases depth, 1nat, fields@.len() + 1, fields,
{
    let mut base_len = TypeBaseLen::constant(0);
    let mut i: usize = 0;
    while i < fields.len()
        invariant
            i <= fields.len(),
            Ok::<TypeBaseLen, LayoutError>(base_len) == spec_fields_base_len(
                cx.db,
                cx.scope(),
                *fields,
                i as nat,
                depth as nat,
            ),
        decreases fields.len() - i,
    {
        proof {
            if spec_fields_base_len(cx.db, cx.scope(), *fields, (i + 1) as nat, depth as nat) is Err {
                lemma_fields_error_stays(
                    cx.db,
                    cx.scope(),
                    *fields,
                    (i + 1) as nat,
                    fields@.len(),
                    depth as nat,
                );
            }
        }
        let field_len = type_base_len_within(cx, &fields[i].ty, depth)?;
        base_len = base_len.checked_merge(field_len)?;
        i = i + 1;
    }
    Ok(base_len)
}

/// Where some of the fields have no length together, neither have more of
/// them, for the same reason.
pub proof fn lemma_fields_error_stays(
    db: &Database,
    scope: Scope,
    fields: Vec<NamedField>,
    fewer: nat,
    more: nat,
    depth: nat,
)
    requires
        fewer <= more <= fields@.len(),
        spec_fields_base_len(db, scope, fields, fewer, depth) is Err,
    ensures
        spec_fields_base_len(db, scope, fields, more, depth) == spec_fields_base_len(
            db,
            scope,
            fields,
            fewer,
            depth,
        ),
    decreases more,
{
    if fewer < more {
        lemma_fields_error_stays(db, scope, fields, fewer, (more - 1) as nat, depth);
    }
}

/// Where some of the variants have no largest length, neither have more
/// of them, for the same reason.
pub proof fn lemma_variants_error_stays(
    db: &Database,
    scope: Scope,
    e: Enum,
    fewer: nat,
    more: nat,
    depth: nat,
)
    requires
        fewer <= more <= e.variants@.len(),
        spec_variants_max(db, scope, e, fewer, depth) is Err,
    ensures
        spec_variants_max(db, scope, e, more, depth) == spec_variants_max(
            db,
            scope,
            e,
            fewer,
            depth,
        ),
    decreases more,
{
    if fewer < more {
        lemma_variants_error_stays(db, scope, e, fewer, (more - 1) as nat, depth);
    }
}

pub fn struct_base_len_within(cx: &CodegenCx, s: &Struct, depth: usize) -> (result: Result<
    TypeBaseLen,
    LayoutError,
>)
    ensures
        result == spec_struct_base_len(cx.db, cx.scope(), *s, depth as nat),
    decreases depth, 1nat, s.fields@.len() + 2, s,
{
    fields_base_len_within(cx, &s.fields, depth)
}

pub fn enum_variant_base_len_within(cx: &CodegenCx, variant: &EnumVariant, depth: usize) -> (result:
    Result<TypeBaseLen, LayoutError>)
    ensures
        result == spec_enum_variant_base_len(cx.db, cx.scope(), *variant, depth as nat),
    decreases depth, 2nat, 0nat, variant,
{
    match variant {
        EnumVariant::Empty => Ok(TypeBaseLen::constant(0)),
        EnumVariant::NamedFields { fields } => fields_base_len_within(cx, fields, depth),
    }
}

pub fn enum_base_len_within(cx: &CodegenCx, e: &Enum, depth: usize) -> (result: Result<
    TypeBaseLen,
    LayoutError,
>)
    ensures
        result == spec_enum_base_len(cx.db, cx.scope(), *e, depth as nat),
    decreases depth, 4nat, 0nat, e,
{
    let mut base_len = TypeBaseLen::constant(0);
    let mut i: usize = 0;
    while i < e.variants.len()
        invariant
            i <= e.variants.len(),
            Ok::<TypeBaseLen, LayoutError>(base_len) == spec_variants_max(
                cx.db,
                cx.scope(),
                *e,
                i as nat,
                depth as nat,
            ),
        decreases e.variants.len() - i,
    {
        proof {
            if spec_variants_max(cx.db, cx.scope(), *e, (i + 1) as nat, depth as nat) is Err {
                lemma_variants_error_stays(
                    cx.db,
                    cx.scope(),
                    *e,
                    (i + 1) as nat,
                    e.variants@.len(),
                    depth as nat,
                );
            }
        }
        let variant_base_len = enum_variant_base_len_within(cx, &e.variants[i].1, depth)?;
        base_len = TypeBaseLen::tokens(
            LenTokens::Max(Box::new(base_len), Box::new(variant_base_len)),
        );
        i = i + 1;
    }
    // 1 extra byte for the enum tag
    TypeBaseLen::constant(1).checked_merge(base_len)
}

/// The base length of `ty` in the context `cx`. Definitions and bound
/// parameters are followed at most `MAX_NESTING` deep, beyond which the
/// answer is `TooDeep`; `type_base_len_within` takes any depth, and more
/// depth changes no other answer (`lemma_type_depth`).
pub fn type_base_len(cx: &CodegenCx, ty: &Type) -> (result: Result<TypeBaseLen, LayoutError>)
    ensures
        result == spec_type_base_len(cx.db, cx.scope(), *ty, MAX_NESTING as nat),
{
    type_base_len_within(cx, ty, MAX_NESTING)
}

/// The base length of the struct `s` in the context `cx`: what it comes
/// to is the sum of what the base lengths of the fields come to, whatever
/// the type parameters stand for. Definitions are followed at most
/// `MAX_NESTING` deep; `struct_base_len_within` takes any depth.
pub fn struct_base_len(cx: &CodegenCx, s: &Struct) -> (result: Result<TypeBaseLen, LayoutError>)
    ensures
        result == spec_struct_base_len(cx.db, cx.scope(), *s, MAX_NESTING as nat),
        forall|env: spec_fn(Seq<char>) -> nat|
            result is Ok ==> #[trigger] len_value(result->Ok_0, env) == fields_value_sum(
                cx.db,
                cx.scope(),
                s.fields,
                s.fields@.len(),
                MAX_NESTING as nat,
                env,
            ),
{
    let result = struct_base_len_within(cx, s, MAX_NESTING);
    proof {
        if result is Ok {
            assert forall|env: spec_fn(Seq<char>) -> nat|
                #[trigger] len_value(result->Ok_0, env) == fields_value_sum(
                    cx.db,
                    cx.scope(),
                    s.fields,
                    s.fields@.len(),
                    MAX_NESTING as nat,
                    env,
                ) by {
                lemma_struct_base_len_is_sum(cx.db, cx.scope(), *s, MAX_NESTING as nat, env);
            }
        }
    }
    result
}

/// The base length of the enum `e` in the context `cx`: what it comes to
/// is one byte for the tag and the largest of what the base lengths of
/// the variants come to, whatever the type parameters stand for.
/// Definitions are followed at most `MAX_NESTING` deep;
/// `enum_base_len_within` takes any depth.
pub fn enum_base_len(cx: &CodegenCx, e: &Enum) -> (result: Result<TypeBaseLen, LayoutError>)
    ensures
        result == spec_enum_base_len(cx.db, cx.scope(), *e, MAX_NESTING as nat),
        forall|env: spec_fn(Seq<char>) -> nat|
            result is Ok ==> #[trigger] len_value(result->Ok_0, env) == 1 + variants_value_max(
                cx.db,
                cx.scope(),
                *e,
                e.variants@.len(),
                MAX_NESTING as nat,
                env,
            ),
{
    let result = enum_base_len_within(cx, e, MAX_NESTING);
    proof {
        if result is Ok {
            assert forall|env: spec_fn(Seq<char>) -> nat|
                #[trigger] len_value(result->Ok_0, env) == 1 + variants_value_max(
                    cx.db,
                    cx.scope(),
                    *e,
                    e.variants@.len(),
                    MAX_NESTING as nat,
                    env,
                ) by {
                lemma_enum_base_len_is_tag_and_max(cx.db, cx.scope(), *e, MAX_NESTING as nat, env);
            }
        }
    }
    result
}

/// The base length of the variant `variant` in the context `cx`.
/// Definitions are followed at most `MAX_NESTING` deep;
/// `enum_variant_base_len_within` takes any depth.
pub fn enum_variant_base_len(cx: &CodegenCx, variant: &EnumVariant) -> (result: Result<
    TypeBaseLen,
    LayoutError,
>)
    ensures
        result == spec_enum_variant_base_len(cx.db, cx.scope(), *variant, MAX_NESTING as nat),
{
    enum_variant_base_len_within(cx, variant, MAX_NESTING)
}

/// The sum of what the base lengths of the first `count` of `fields` come
/// to.
pub open spec fn fields_value_sum(
    db: &Database,
    scope: Scope,
    fields: Vec<NamedField>,
    count: nat,
    depth: nat,
    env: spec_fn(Seq<char>) -> nat,
) -> nat
    decreases count,
{
    if count == 0 || count > fields@.len() {
        0
    } else {
        fields_value_sum(db, scope, fields, (count - 1) as nat, depth, env) + len_value(
            spec_type_base_len(db, scope, fields@[count - 1].ty, depth).unwrap(),
            env,
        )
    }
}

/// The largest of what the base lengths of the first `count` variants of
/// `e` come to.
pub open spec fn variants_value_max(
    db: &Database,
    scope: Scope,
    e: Enum,
    count: nat,
    depth: nat,
    env: spec_fn(Seq<char>) -> nat,
) -> nat
    decreases count,
{
    if count == 0 || count > e.variants@.len() {
        0
    } else {
        let front = variants_value_max(db, scope, e, (count - 1) as nat, depth, env);
        let variant = len_value(
            spec_enum_variant_base_len(db, scope, e.variants@[count - 1].1, depth).unwrap(),
            env,
        );
        if front < variant {
            variant
        } else {
            front
        }
    }
}

/// The base length of fields together comes to the sum of what the base
/// length of each comes to, and each of them has one.
pub proof fn lemma_fields_base_len_is_sum(
    db: &Database,
    scope: Scope,
    fields: Vec<NamedField>,
    count: nat,
    depth: nat,
    env: spec_fn(Seq<char>) -> nat,
)
    requires
        count <= fields@.len(),
        spec_fields_base_len(db, scope, fields, count, depth) is Ok,
    ensures
        forall|i: int|
            0 <= i < count ==> spec_type_base_len(db, scope, #[trigger] fields@[i].ty, depth) is Ok,
        len_value(spec_fields_base_len(db, scope, fields, count, depth).unwrap(), env)
            == fields_value_sum(db, scope, fields, count, depth, env),
    decreases count,
{
    if count > 0 {
        lemma_fields_base_len_is_sum(db, scope, fields, (count - 1) as nat, depth, env);
        let front = spec_fields_base_len(db, scope, fields, (count - 1) as nat, depth).unwrap();
        let field = spec_type_base_len(db, scope, fields@[count - 1].ty, depth).unwrap();
        lemma_merged_value(front, field, env);
    }
}

/// The base length of a struct comes to the sum of what the base lengths
/// of its fields come to.
pub proof fn lemma_struct_base_len_is_sum(
    db: &Database,
    scope: Scope,
    s: Struct,
    depth: nat,
    env: spec_fn(Seq<char>) -> nat,
)
    requires
        spec_struct_base_len(db, scope, s, depth) is Ok,
    ensures
        forall|i: int|
            0 <= i < s.fields@.len() ==> spec_type_base_len(
                db,
                scope,
                #[trigger] s.fields@[i].ty,
                depth,
            ) is Ok,
        len_value(spec_struct_base_len(db, scope, s, depth).unwrap(), env) == fields_value_sum(
            db,
            scope,
            s.fields,
            s.fields@.len(),
            depth,
            env,
        ),
{
    lemma_fields_base_len_is_sum(db, scope, s.fields, s.fields@.len(), depth, env);
}

/// The largest length among variants comes to the largest of what the
/// base length of each comes to, and each of them has one.
pub proof fn lemma_variants_max_value(
    db: &Database,
    scope: Scope,
    e: Enum,
    count: nat,
    depth: nat,
    env: spec_fn(Seq<char>) -> nat,
)
    requires
        count <= e.variants@.len(),
        spec_variants_max(db, scope, e, count, depth) is Ok,
    ensures
        forall|i: int|
            0 <= i < count ==> spec_enum_variant_base_len(
                db,
                scope,
                #[trigger] e.variants@[i].1,
                depth,
            ) is Ok,
        len_value(spec_variants_max(db, scope, e, count, depth).unwrap(), env)
            == variants_value_max(db, scope, e, count, depth, env),
    decreases count,
{
    if count > 0 {
        lemma_variants_max_value(db, scope, e, (count - 1) as nat, depth, env);
    }
}

/// The base length of an enum comes to one byte for the tag and the
/// largest of what the base lengths of its variants come to.
pub proof fn lemma_enum_base_len_is_tag_and_max(
    db: &Database,
    scope: Scope,
    e: Enum,
    depth: nat,
    env: spec_fn(Seq<char>) -> nat,
)
    requires
        spec_enum_base_len(db, scope, e, depth) is Ok,
    ensures
        forall|i: int|
            0 <= i < e.variants@.len() ==> spec_enum_variant_base_len(
                db,
                scope,
                #[trigger] e.variants@[i].1,
                depth,
            ) is Ok,
        len_value(spec_enum_base_len(db, scope, e, depth).unwrap(), env) == 1 + variants_value_max(
            db,
            scope,
            e,
            e.variants@.len(),
            depth,
            env,
        ),
{
    lemma_variants_max_value(db, scope, e, e.variants@.len(), depth, env);
    let largest = spec_variants_max(db, scope, e, e.variants@.len(), depth).unwrap();
    lemma_merged_value(constant_len(1), largest, env);
}

/// The offset of each field of a record from its start: for each field
/// the base length of the fields before it together. Fails where the
/// fields have no base length together. Definitions are followed at most
/// `MAX_NESTING` deep.
///
/// A lazy view reads a field at the offset of the view plus the offset of
/// the field.
pub fn field_offsets(cx: &CodegenCx, fields: &Vec<NamedField>) -> (result: Result<
    Vec<TypeBaseLen>,
    LayoutError,
>)
    ensures
        match result {
            Ok(offsets) => offsets@.len() == fields@.len() && forall|i: int|
                0 <= i < fields@.len() ==> Ok::<TypeBaseLen, LayoutError>(#[trigger] offsets@[i])
                    == spec_fields_base_len(
                    cx.db,
                    cx.scope(),
                    *fields,
                    i as nat,
                    MAX_NESTING as nat,
                ),
            Err(e) => spec_fields_base_len(
                cx.db,
                cx.scope(),
                *fields,
                fields@.len(),
                MAX_NESTING as nat,
            ) == Err::<TypeBaseLen, LayoutError>(e),
        },
{
    let mut offsets: Vec<TypeBaseLen> = Vec::new();
    let mut field_offset = TypeBaseLen::constant(0);
    let mut i: usize = 0;
    while i < fields.len()
        invariant
            i <= fields.len(),
            offsets@.len() == i,
            forall|j: int|
                0 <= j < i ==> Ok::<TypeBaseLen, LayoutError>(#[trigger] offsets@[j])
                    == spec_fields_base_len(
                    cx.db,
                    cx.scope(),
                    *fields,
                    j as nat,
                    MAX_NESTING as nat,
                ),
            Ok::<TypeBaseLen, LayoutError>(field_offset) == spec_fields_base_len(
                cx.db,
                cx.scope(),
                *fields,
                i as nat,
                MAX_NESTING as nat,
            ),
        decreases fields.len() - i,
    {
        offsets.push(copy_len(&field_offset));
        proof {
            if spec_fields_base_len(
                cx.db,
                cx.scope(),
                *fields,
                (i + 1) as nat,
                MAX_NESTING as nat,
            ) is Err {
                lemma_fields_error_stays(
                    cx.db,
                    cx.scope(),
                    *fields,
                    (i + 1) as nat,
                    fields@.len(),
                    MAX_NESTING as nat,
                );
            }
        }
        let field_len = type_base_len(cx, &fields[i].ty)?;
        field_offset = field_offset.checked_merge(field_len)?;
        i = i + 1;
    }
    Ok(offsets)
}

/// A copy of a term.
pub fn copy_tokens(tokens: &LenTokens) -> (copy: LenTokens)
    ensures
        copy == *tokens,
    decreases tokens,
{
    match tokens {
        LenTokens::Empty => LenTokens::Empty,
        LenTokens::Param(name) => LenTokens::Param(name.clone()),
        LenTokens::Max(a, b) => LenTokens::Max(Box::new(copy_len(a)), Box::new(copy_len(b))),
        LenTokens::Sum(a, b) => LenTokens::Sum(Box::new(copy_tokens(a)), Box::new(copy_tokens(b))),
    }
}

/// A copy of a length.
pub fn copy_len(len: &TypeBaseLen) -> (copy: TypeBaseLen)
    ensures
        copy == *len,
    decreases len,
{
    TypeBaseLen { constant: len.constant, tokens: copy_tokens(&len.tokens) }
}

impl Clone for TypeBaseLen {
    fn clone(&self) -> (copy: Self)
        ensures
            copy == *self,
    {
        copy_len(self)
    }
}

impl Clone for LenTokens {
    fn clone(&self) -> (copy: Self)
        ensures
            copy == *self,
    {
        copy_tokens(self)
    }
}

/// Whether a result is one that does not come from the limit on depth.
pub open spec fn settled(result: Result<TypeBaseLen, LayoutError>) -> bool {
    !(result matches Err(LayoutError::TooDeep))
}

/// The limit on depth only cuts off: a type that has a base length, or has
/// none for another reason than depth, has the same with any more depth.
pub proof fn lemma_type_depth(db: &Database, scope: Scope, ty: Type, depth: nat)
    requires
        settled(spec_type_base_len(db, scope, ty, depth)),
    ensures
        spec_type_base_len(db, scope, ty, depth + 1) == spec_type_base_len(db, scope, ty, depth),
    decreases depth, 0nat, 0nat, ty,
{
    match ty {
        Type::Primitive(PrimitiveType::Option(item)) => {
            lemma_type_depth(db, scope, *item, depth);
        },
        Type::Primitive(PrimitiveType::Result(ok, err)) => {
            lemma_type_depth(db, scope, *ok, depth);
            if spec_type_base_len(db, scope, *ok, depth) is Ok {
                lemma_type_depth(db, scope, *err, depth);
            }
        },
        Type::Primitive(_) => {},
        Type::Defined { ident, args } => match resolve_in(db, scope, ident) {
            Some(ResolvedView::Defined(def)) => {
                if depth > 0 {
                    let inner = bound_scope(scope, def.params@, args@);
                    match def.body {
                        TypeBody::Struct(s) => lemma_fields_depth(
                            db,
                            inner,
                            s.fields,
                            s.fields@.len(),
                            (depth - 1) as nat,
                        ),
                        TypeBody::Enum(e) => lemma_enum_depth(db, inner, e, (depth - 1) as nat),
                    }
                }
            },
            Some(ResolvedView::BoundParam { value, scope: binding_scope }) => {
                if depth > 0 {
                    lemma_type_depth(db, binding_scope, value, (depth - 1) as nat);
                }
            },
            _ => {},
        },
    }
}

/// The limit on depth only cuts off the base length of fields together.
pub proof fn lemma_fields_depth(
    db: &Database,
    scope: Scope,
    fields: Vec<NamedField>,
    count: nat,
    depth: nat,
)
    requires
        settled(spec_fields_base_len(db, scope, fields, count, depth)),
    ensures
        spec_fields_base_len(db, scope, fields, count, depth + 1) == spec_fields_base_len(
            db,
            scope,
            fields,
            count,
            depth,
        ),
    decreases depth, 1nat, count, fields,
{
    if !(count == 0 || count > fields@.len()) {
        lemma_fields_depth(db, scope, fields, (count - 1) as nat, depth);
        if spec_fields_base_len(db, scope, fields, (count - 1) as nat, depth) is Ok {
            lemma_type_depth(db, scope, fields@[count - 1].ty, depth);
        }
    }
}

/// The limit on depth only cuts off the largest length among variants.
pub proof fn lemma_variants_depth(db: &Database, scope: Scope, e: Enum, count: nat, depth: nat)
    requires
        settled(spec_variants_max(db, scope, e, count, depth)),
    ensures
        spec_variants_max(db, scope, e, count, depth + 1) == spec_variants_max(
            db,
            scope,
            e,
            count,
            depth,
        ),
    decreases depth, 3nat, count, e,
{
    if !(count == 0 || count > e.variants@.len()) {
        lemma_variants_depth(db, scope, e, (count - 1) as nat, depth);
        if spec_variants_max(db, scope, e, (count - 1) as nat, depth) is Ok {
            let variant = e.variants@[count - 1].1;
            match variant {
                EnumVariant::Empty => {
                    assert(spec_enum_variant_base_len(db, scope, variant, depth) == Ok::<
                        TypeBaseLen,
                        LayoutError,
                    >(constant_len(0)));
                    assert(spec_enum_variant_base_len(db, scope, variant, depth + 1) == Ok::<
                        TypeBaseLen,
                        LayoutError,
                    >(constant_len(0)));
                },
                EnumVariant::NamedFields { fields } => {
                    assert(spec_enum_variant_base_len(db, scope, variant, depth)
                        == spec_fields_base_len(db, scope, fields, fields@.len(), depth));
                    assert(spec_enum_variant_base_len(db, scope, variant, depth + 1)
                        == spec_fields_base_len(db, scope, fields, fields@.len(), depth + 1));
                    lemma_fields_depth(db, scope, fields, fields@.len(), depth);
                },
            }
        }
    }
}

/// The limit on depth only cuts off the base length of an enum.
pub proof fn lemma_enum_depth(db: &Database, scope: Scope, e: Enum, depth: nat)
    requires
        settled(spec_enum_base_len(db, scope, e, depth)),
    ensures
        spec_enum_base_len(db, scope, e, depth + 1) == spec_enum_base_len(db, scope, e, depth),
    decreases depth, 4nat, 0nat, e,
{
    lemma_variants_depth(db, scope, e, e.variants@.len(), depth);
}

/// The largest among variants is at least what each of them comes to.
pub proof fn lemma_variants_value_max_bounds(
    db: &Database,
    scope: Scope,
    e: Enum,
    count: nat,
    depth: nat,
    env: spec_fn(Seq<char>) -> nat,
    i: int,
)
    requires
        0 <= i < count <= e.variants@.len(),
    ensures
        len_value(
            spec_enum_variant_base_len(db, scope, e.variants@[i].1, depth).unwrap(),
            env,
        ) <= variants_value_max(db, scope, e, count, depth, env),
    decreases count,
{
    if i < count - 1 {
        lemma_variants_value_max_bounds(db, scope, e, (count - 1) as nat, depth, env, i);
    }
}

/// Each variant fits behind the tag of its enum: what is left of the base
/// region behind the fields of a variant, and is filled with zeros, is no
/// negative number of bytes.
pub proof fn lemma_variant_fits_enum(
    db: &Database,
    scope: Scope,
    e: Enum,
    depth: nat,
    env: spec_fn(Seq<char>) -> nat,
    i: int,
)
    requires
        0 <= i < e.variants@.len(),
        spec_enum_base_len(db, scope, e, depth) is Ok,
    ensures
        spec_enum_variant_base_len(db, scope, e.variants@[i].1, depth) is Ok,
        1 + len_value(
            spec_enum_variant_base_len(db, scope, e.variants@[i].1, depth).unwrap(),
            env,
        ) <= len_value(spec_enum_base_len(db, scope, e, depth).unwrap(), env),
{
    lemma_enum_base_len_is_tag_and_max(db, scope, e, depth, env);
    lemma_variants_value_max_bounds(db, scope, e, e.variants@.len(), depth, env, i);
}

/// The offset of a field and its base length come to the offset of the
/// next field; behind the last field, to the base length of the record.
pub proof fn lemma_field_offset_step(
    db: &Database,
    scope: Scope,
    fields: Vec<NamedField>,
    i: nat,
    depth: nat,
    env: spec_fn(Seq<char>) -> nat,
)
    requires
        i < fields@.len(),
        spec_fields_base_len(db, scope, fields, i + 1, depth) is Ok,
    ensures
        spec_fields_base_len(db, scope, fields, i, depth) is Ok,
        spec_type_base_len(db, scope, fields@[i as int].ty, depth) is Ok,
        len_value(spec_fields_base_len(db, scope, fields, i + 1, depth).unwrap(), env)
            == len_value(spec_fields_base_len(db, scope, fields, i, depth).unwrap(), env)
            + len_value(spec_type_base_len(db, scope, fields@[i as int].ty, depth).unwrap(), env),
{
    let front = spec_fields_base_len(db, scope, fields, i, depth).unwrap();
    let field = spec_type_base_len(db, scope, fields@[i as int].ty, depth).unwrap();
    lemma_merged_value(front, field, env);
}

/// A struct without fields has the base length 0.
pub proof fn lemma_empty_struct_base_len(db: &Database, scope: Scope, s: Struct, depth: nat)
    requires
        s.fields@.len() == 0,
    ensures
        spec_struct_base_len(db, scope, s, depth) == Ok::<TypeBaseLen, LayoutError>(constant_len(0)),
{
}

/// An enum without variants has the base length 1: its tag.
pub proof fn lemma_empty_enum_base_len(db: &Database, scope: Scope, e: Enum, depth: nat)
    requires
        e.variants@.len() == 0,
    ensures
        spec_enum_base_len(db, scope, e, depth) == Ok::<TypeBaseLen, LayoutError>(constant_len(1)),
{
    assert(spec_variants_max(db, scope, e, 0, depth) == Ok::<TypeBaseLen, LayoutError>(
        constant_len(0),
    ));
}

} // verus!
