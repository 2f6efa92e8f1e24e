//! Which traits and bounds a generated type can have: whether its owned
//! form needs the heap, whether its lazy form borrows, whether it holds a
//! float.
use vstd::prelude::*;

use crate::ast::{Enum, EnumVariant, NamedField, PrimitiveType, QualifiedIdentifier, Struct, Type, TypeBody};
use crate::codegen::codegen_cx::{
    bound_scope, resolve_in, BindingView, CodegenCx, ResolvedType, ResolvedView, Scope,
};
use crate::codegen::type_base_len::{LayoutError, MAX_NESTING};
use crate::db::Database;
use crate::text::str_eq;

verus! {

/// What is asked of a type.
#[derive(Copy, Clone, Debug, PartialEq, Eq, Structural)]
pub enum Question {
    /// Whether the owned form of the type needs the heap.
    Heap,
    /// Whether the lazy form of the type borrows its buffer.
    Lifetime,
}

/// Whether `ty`, read in `scope` over `db`, needs what `question` asks,
/// following definitions and bound parameters at most `depth` deep.
///
/// Text, boxes and lists need both. An option needs what its payload
/// needs, a result what either payload needs. A definition is read with
/// its parameters bound to the arguments: it needs the heap where one of
/// its fields does, and a parameter needs the heap where its argument
/// does. In its lazy form a struct always borrows, an enum borrows where
/// one of its fields does, and a parameter borrows whatever it stands
/// for, as the lazy form of the definition is declared once for all
/// arguments. A parameter bound to nothing, and a local name that is
/// neither parameter nor definition, stands for any type: it needs no
/// heap and borrows. The parts are read in order, and reading stops at the
/// first that needs it.
pub open spec fn spec_type_needs(
    db: &Database,
    scope: Scope,
    ty: Type,
    question: Question,
    depth: nat,
) -> Result<bool, LayoutError>
    decreases depth, 0nat, 0nat, ty,
{
    match ty {
        Type::Primitive(PrimitiveType::String) => Ok(true),
        Type::Primitive(PrimitiveType::Box(_)) => Ok(true),
        Type::Primitive(PrimitiveType::List(_)) => Ok(true),
        Type::Primitive(PrimitiveType::Option(item)) => spec_type_needs(
            db,
            scope,
            *item,
            question,
            depth,
        ),
        Type::Primitive(PrimitiveType::Result(ok, err)) => match spec_type_needs(
            db,
            scope,
            *ok,
            question,
            depth,
        ) {
            Ok(false) => spec_type_needs(db, scope, *err, question, depth),
            decided => decided,
        },
        Type::Primitive(_) => Ok(false),
        Type::Defined { ident, args } => match resolve_in(db, scope, ident) {
            Some(ResolvedView::Defined(def)) => match def.body {
                TypeBody::Struct(s) => if question == Question::Lifetime {
                    Ok(true)
                } else if depth == 0 {
                    Err(LayoutError::TooDeep)
                } else {
                    spec_fields_need(
                        db,
                        bound_scope(scope, def.params@, args@),
                        s.fields,
                        0,
                        question,
                        (depth - 1) as nat,
                    )
                },
                TypeBody::Enum(e) => if depth == 0 {
                    Err(LayoutError::TooDeep)
                } else {
                    spec_variants_need(
                        db,
                        bound_scope(scope, def.params@, args@),
                        e,
                        0,
                        question,
                        (depth - 1) as nat,
                    )
                },
            },
            Some(ResolvedView::UnboundParam) => Ok(question == Question::Lifetime),
            Some(ResolvedView::BoundParam { value, scope: binding_scope }) => if question
                == Question::Lifetime {
                Ok(true)
            } else if depth == 0 {
                Err(LayoutError::TooDeep)
            } else {
                spec_type_needs(db, binding_scope, value, question, (depth - 1) as nat)
            },
            None => if ident.module is None {
                Ok(question == Question::Lifetime)
            } else {
                Err(LayoutError::Unresolved(ident))
            },
        },
    }
}

/// Whether one of `fields`, from the field at `from` on, needs what
/// `question` asks.
pub open spec fn spec_fields_need(
    db: &Database,
    scope: Scope,
    fields: Vec<NamedField>,
    from: nat,
    question: Question,
    depth: nat,
) -> Result<bool, LayoutError>
    decreases depth, 1nat, fields@.len() - from, fields,
{
    if from >= fields@.len() {
        Ok(false)
    } else {
        match spec_type_needs(db, scope, fields@[from as int].ty, question, depth) {
            Ok(false) => spec_fields_need(db, scope, fields, from + 1, question, depth),
            decided => decided,
        }
    }
}

/// Whether a field of one of the variants of `e`, from the variant at
/// `from` on, needs what `question` asks.
pub open spec fn spec_variants_need(
    db: &Database,
    scope: Scope,
    e: Enum,
    from: nat,
    question: Question,
    depth: nat,
) -> Result<bool, LayoutError>
    decreases depth, 2nat, e.variants@.len() - from, e,
{
    if from >= e.variants@.len() {
        Ok(false)
    } else {
        match e.variants@[from as int].1 {
            EnumVariant::Empty => spec_variants_need(db, scope, e, from + 1, question, depth),
            EnumVariant::NamedFields { fields } => match spec_fields_need(
                db,
                scope,
                fields,
                0,
                question,
                depth,
            ) {
                Ok(false) => spec_variants_need(db, scope, e, from + 1, question, depth),
                decided => decided,
            },
        }
    }
}

/// Whether `ty` needs what `question` asks in the context `cx`, following
/// definitions and bound parameters at most `depth` deep.
pub fn type_needs(cx: &CodegenCx, ty: &Type, question: Question, depth: usize) -> (result: Result<
    bool,
    LayoutError,
>)
    ensures
        result == spec_type_needs(cx.db, cx.scope(), *ty, question, depth as nat),
    decreases depth, 0nat, 0nat, ty,
{
    match ty {
        Type::Primitive(PrimitiveType::String) => Ok(true),
        Type::Primitive(PrimitiveType::Box(_)) => Ok(true),
        Type::Primitive(PrimitiveType::List(_)) => Ok(true),
        Type::Primitive(PrimitiveType::Option(item_ty)) => type_needs(cx, item_ty, question, depth),
        Type::Primitive(PrimitiveType::Result(ok_ty, err_ty)) => {
            if type_needs(cx, ok_ty, question, depth)? {
                Ok(true)
            } else {
                type_needs(cx, err_ty, question, depth)
            }
        },
        Type::Primitive(_) => Ok(false),
        Type::Defined { ident, args } => {
            match cx.resolve_type(ident) {
                Some(ResolvedType::Defined(type_def)) => {
                    match &type_def.body {
                        TypeBody::Struct(s) => {
                            if question == Question::Lifetime {
                                Ok(true)
                            } else if depth == 0 {
                                Err(LayoutError::TooDeep)
                            } else {
                                let inner_cx = cx.with_type_args(
                                    type_def.params.as_slice(),
                                    args.as_slice(),
                                );
                                fields_need(&inner_cx, &s.fields, question, depth - 1)
                            }
                        },
                        TypeBody::Enum(e) => {
                            if depth == 0 {
                                Err(LayoutError::TooDeep)
                            } else {
                                let inner_cx = cx.with_type_args(
                                    type_def.params.as_slice(),
                                    args.as_slice(),
                                );
                                variants_need(&inner_cx, e, question, depth - 1)
                            }
                        },
                    }
                },
                Some(ResolvedType::UnboundParam) => Ok(question == Question::Lifetime),
                Some(ResolvedType::BoundParam { value, binding_cx }) => {
                    if question == Question::Lifetime {
                        Ok(true)
                    } else if depth == 0 {
                        Err(LayoutError::TooDeep)
                    } else {
                        let binding = cx.with_type_param_bindings(binding_cx);
                        type_needs(&binding, value, question, depth - 1)
                    }
                },
                None => {
                    if ident.module.is_none() {
                        // Must be a generic type
                        Ok(question == Question::Lifetime)
                    } else {
                        Err(LayoutError::Unresolved(ident.clone()))
                    }
                },
            }
        },
    }
}

/// Whether one of `fields` needs what `question` asks in the context
/// `cx`, following definitions at most `depth` deep.
pub fn fields_need(cx: &CodegenCx, fields: &Vec<NamedField>, question: Question, depth: usize) -> (result:
    Result<bool, LayoutError>)
    ensures
        result == spec_fields_need(cx.db, cx.scope(), *fields, 0, question, depth as nat),
    decreases depth, 1nat, fields@.len() + 1, fields,
{
    let mut i: usize = 0;
    while i < fields.len()
        invariant
            i <= fields.len(),
            spec_fields_need(cx.db, cx.scope(), *fields, 0, question, depth as nat)
                == spec_fields_need(cx.db, cx.scope(), *fields, i as nat, question, depth as nat),
        decreases fields.len() - i,
    {
        if type_needs(cx, &fields[i].ty, question, depth)? {
            return Ok(true);
        }
        i = i + 1;
    }
    Ok(false)
}

/// Whether a field of one of the variants of `e` needs what `question`
/// asks in the context `cx`, following definitions at most `depth` deep.
pub fn variants_need(cx: &CodegenCx, e: &Enum, question: Question, depth: usize) -> (result: Result<
    bool,
    LayoutError,
>)
    ensures
        result == spec_variants_need(cx.db, cx.scope(), *e, 0, question, depth as nat),
    decreases depth, 2nat, e.variants@.len() + 1, e,
{
    let mut i: usize = 0;
    while i < e.variants.len()
        invariant
            i <= e.variants.len(),
            spec_variants_need(cx.db, cx.scope(), *e, 0, question, depth as nat)
                == spec_variants_need(cx.db, cx.scope(), *e, i as nat, question, depth as nat),
        decreases e.variants.len() - i,
    {
        match &e.variants[i].1 {
            EnumVariant::Empty => {},
            EnumVariant::NamedFields { fields } => {
                if fields_need(cx, fields, question, depth)? {
                    return Ok(true);
                }
            },
        }
        i = i + 1;
    }
    Ok(false)
}

/// Whether an answer is one that does not come from the limit on depth.
pub open spec fn decided(answer: Result<bool, LayoutError>) -> bool {
    !(answer matches Err(LayoutError::TooDeep))
}

/// The limit on depth only cuts off: an answer that does not come from
/// the limit is the answer with any more depth.
pub proof fn lemma_type_needs_depth(
    db: &Database,
    scope: Scope,
    ty: Type,
    question: Question,
    depth: nat,
)
    requires
        decided(spec_type_needs(db, scope, ty, question, depth)),
    ensures
        spec_type_needs(db, scope, ty, question, depth + 1) == spec_type_needs(
            db,
            scope,
            ty,
            question,
            depth,
        ),
    decreases depth, 0nat, 0nat, ty,
{
    match ty {
        Type::Primitive(PrimitiveType::Option(item)) => {
            lemma_type_needs_depth(db, scope, *item, question, depth);
        },
        Type::Primitive(PrimitiveType::Result(ok, err)) => {
            lemma_type_needs_depth(db, scope, *ok, question, depth);
            if spec_type_needs(db, scope, *ok, question, depth) == Ok::<bool, LayoutError>(false) {
                lemma_type_needs_depth(db, scope, *err, question, depth);
            }
        },
        Type::Primitive(_) => {},
        Type::Defined { ident, args } => match resolve_in(db, scope, ident) {
            Some(ResolvedView::Defined(def)) => {
                if depth > 0 {
                    let inner = bound_scope(scope, def.params@, args@);
                    match def.body {
                        TypeBody::Struct(s) => {
                            if question != Question::Lifetime {
                                lemma_fields_need_depth(
                                    db,
                                    inner,
                                    s.fields,
                                    0,
                                    question,
                                    (depth - 1) as nat,
                                );
                            }
                        },
                        TypeBody::Enum(e) => lemma_variants_need_depth(
                            db,
                            inner,
                            e,
                            0,
                            question,
                            (depth - 1) as nat,
                        ),
                    }
                }
            },
            Some(ResolvedView::BoundParam { value, scope: binding_scope }) => {
                if depth > 0 && question != Question::Lifetime {
                    lemma_type_needs_depth(db, binding_scope, value, question, (depth - 1) as nat);
                }
            },
            _ => {},
        },
    }
}

/// The limit on depth only cuts off what is asked of fields.
pub proof fn lemma_fields_need_depth(
    db: &Database,
    scope: Scope,
    fields: Vec<NamedField>,
    from: nat,
    question: Question,
    depth: nat,
)
    requires
        decided(spec_fields_need(db, scope, fields, from, question, depth)),
    ensures
        spec_fields_need(db, scope, fields, from, question, depth + 1) == spec_fields_need(
            db,
            scope,
            fields,
            from,
            question,
            depth,
        ),
    decreases depth, 1nat, fields@.len() - from, fields,
{
    if from < fields@.len() {
        lemma_type_needs_depth(db, scope, fields@[from as int].ty, question, depth);
        if spec_type_needs(db, scope, fields@[from as int].ty, question, depth) == Ok::<
            bool,
            LayoutError,
        >(false) {
            lemma_fields_need_depth(db, scope, fields, from + 1, question, depth);
        }
    }
}

/// The limit on depth only cuts off what is asked of variants.
pub proof fn lemma_variants_need_depth(
    db: &Database,
    scope: Scope,
    e: Enum,
    from: nat,
    question: Question,
    depth: nat,
)
    requires
        decided(spec_variants_need(db, scope, e, from, question, depth)),
    ensures
        spec_variants_need(db, scope, e, from, question, depth + 1) == spec_variants_need(
            db,
            scope,
            e,
            from,
            question,
            depth,
        ),
    decreases depth, 2nat, e.variants@.len() - from, e,
{
    if from < e.variants@.len() {
        match e.variants@[from as int].1 {
            EnumVariant::Empty => lemma_variants_need_depth(
                db,
                scope,
                e,
                from + 1,
                question,
                depth,
            ),
            EnumVariant::NamedFields { fields } => {
                lemma_fields_need_depth(db, scope, fields, 0, question, depth);
                if spec_fields_need(db, scope, fields, 0, question, depth) == Ok::<
                    bool,
                    LayoutError,
                >(false) {
                    lemma_variants_need_depth(db, scope, e, from + 1, question, depth);
                }
            },
        }
    }
}

/// The context over `db` with no type parameter in scope.
fn top_level(db: &Database) -> (cx: CodegenCx<'_>)
    ensures
        cx.db == db,
        cx.scope() == Seq::<(Seq<char>, BindingView)>::empty(),
{
    let cx = CodegenCx::new(db, None, false);
    proof {
        assert(cx.scope() =~= Seq::<(Seq<char>, BindingView)>::empty());
    }
    cx
}

/// Whether the owned form of `ty` needs the heap, itself or through a
/// definition or a type argument. Definitions are followed at most
/// `MAX_NESTING` deep; `type_needs` takes any depth.
pub fn type_requires_heap(db: &Database, ty: &Type) -> (result: Result<bool, LayoutError>)
    ensures
        result == spec_type_needs(db, Seq::empty(), *ty, Question::Heap, MAX_NESTING as nat),
{
    type_needs(&top_level(db), ty, Question::Heap, MAX_NESTING)
}

/// Whether the owned form of the struct `s` needs the heap: whether one of
/// its fields does. Definitions are followed at most `MAX_NESTING` deep;
/// `fields_need` takes any depth.
pub fn struct_requires_heap(db: &Database, s: &Struct) -> (result: Result<bool, LayoutError>)
    ensures
        result == spec_fields_need(
            db,
            Seq::empty(),
            s.fields,
            0,
            Question::Heap,
            MAX_NESTING as nat,
        ),
{
    fields_need(&top_level(db), &s.fields, Question::Heap, MAX_NESTING)
}

/// Whether the owned form of the enum `e` needs the heap: whether a field
/// of one of its variants does. Definitions are followed at most
/// `MAX_NESTING` deep; `variants_need` takes any depth.
pub fn enum_requires_heap(db: &Database, e: &Enum) -> (result: Result<bool, LayoutError>)
    ensures
        result == spec_variants_need(db, Seq::empty(), *e, 0, Question::Heap, MAX_NESTING as nat),
{
    variants_need(&top_level(db), e, Question::Heap, MAX_NESTING)
}

/// Whether the lazy form of `ty` borrows its buffer. Definitions are
/// followed at most `MAX_NESTING` deep; `type_needs` takes any depth.
pub fn lazy_type_requires_lifetime(db: &Database, ty: &Type) -> (result: Result<bool, LayoutError>)
    ensures
        result == spec_type_needs(db, Seq::empty(), *ty, Question::Lifetime, MAX_NESTING as nat),
{
    type_needs(&top_level(db), ty, Question::Lifetime, MAX_NESTING)
}

/// Whether the lazy form of the enum `e` borrows its buffer: whether a
/// field of one of its variants does. Definitions are followed at most
/// `MAX_NESTING` deep; `variants_need` takes any depth.
pub fn lazy_enum_requires_lifetime(db: &Database, e: &Enum) -> (result: Result<bool, LayoutError>)
    ensures
        result == spec_variants_need(
            db,
            Seq::empty(),
            *e,
            0,
            Question::Lifetime,
            MAX_NESTING as nat,
        ),
{
    variants_need(&top_level(db), e, Question::Lifetime, MAX_NESTING)
}

/// A test on the built-in types without parts that a walk meets.
pub trait VisitLeaf {
    /// Whether the test holds of `leaf`.
    spec fn hits(&self, leaf: PrimitiveType) -> bool;

    fn visit_leaf(&self, leaf: &PrimitiveType) -> (hit: bool)
        ensures
            hit == self.hits(*leaf),
    ;
}

/// The test for the floating-point types.
pub struct FloatLeaf;

impl VisitLeaf for FloatLeaf {
    open spec fn hits(&self, leaf: PrimitiveType) -> bool {
        leaf is F32 || leaf is F64
    }

    fn visit_leaf(&self, leaf: &PrimitiveType) -> (hit: bool) {
        match leaf {
            PrimitiveType::F32 => true,
            PrimitiveType::F64 => true,
            _ => false,
        }
    }
}

/// Whether two names are the same name of the same module.
pub open spec fn same_ident(a: QualifiedIdentifier, b: QualifiedIdentifier) -> bool {
    a.name@ == b.name@ && match (a.module, b.module) {
        (Some(x), Some(y)) => x@ == y@,
        (None, None) => true,
        _ => false,
    }
}

/// Whether `ident` is among `seen`.
pub open spec fn seen_has(seen: Seq<QualifiedIdentifier>, ident: QualifiedIdentifier) -> bool
    decreases seen.len(),
{
    if seen.len() == 0 {
        false
    } else {
        same_ident(seen.last(), ident) || seen_has(seen.drop_last(), ident)
    }
}

/// Whether two names are the same name of the same module.
pub fn ident_eq(a: &QualifiedIdentifier, b: &QualifiedIdentifier) -> (same: bool)
    ensures
        same == same_ident(*a, *b),
{
    if !str_eq(a.name.as_str(), b.name.as_str()) {
        return false;
    }
    match (&a.module, &b.module) {
        (Some(x), Some(y)) => str_eq(x.as_str(), y.as_str()),
        (None, None) => true,
        _ => false,
    }
}

/// What a walk over `ty` finds, and the names it has seen afterwards,
/// where it starts with the names `seen` and follows definitions at most
/// `depth` deep.
///
/// The walk looks for a built-in type without parts of which `hits`
/// holds. It reads the parts of a type in order and stops at the first
/// find. Of a reference to a definition it reads the type arguments, then
/// the definition. It enters each definition once: a name seen before
/// finds nothing. A local name that is no definition is taken for a type
/// parameter.
pub open spec fn spec_walk_type(
    db: &Database,
    seen: Seq<QualifiedIdentifier>,
    ty: Type,
    hits: spec_fn(PrimitiveType) -> bool,
    depth: nat,
) -> (Result<bool, LayoutError>, Seq<QualifiedIdentifier>)
    decreases depth, 1nat, 0nat, ty,
{
    match ty {
        Type::Primitive(PrimitiveType::Box(inner)) => spec_walk_type(db, seen, *inner, hits, depth),
        Type::Primitive(PrimitiveType::List(item)) => spec_walk_type(db, seen, *item, hits, depth),
        Type::Primitive(PrimitiveType::Option(inner)) => spec_walk_type(
            db,
            seen,
            *inner,
            hits,
            depth,
        ),
        Type::Primitive(PrimitiveType::Result(ok, err)) => {
            let first = spec_walk_type(db, seen, *ok, hits, depth);
            match first.0 {
                Ok(false) => spec_walk_type(db, first.1, *err, hits, depth),
                _ => first,
            }
        },
        Type::Primitive(leaf) => (Ok(hits(leaf)), seen),
        Type::Defined { ident, args } => {
            let first = spec_walk_args(db, seen, args@, hits, depth);
            match first.0 {
                Ok(false) => spec_walk_def(db, first.1, ident, hits, depth),
                _ => first,
            }
        },
    }
}

/// What a walk over the type arguments `args` finds, in order.
pub open spec fn spec_walk_args(
    db: &Database,
    seen: Seq<QualifiedIdentifier>,
    args: Seq<Type>,
    hits: spec_fn(PrimitiveType) -> bool,
    depth: nat,
) -> (Result<bool, LayoutError>, Seq<QualifiedIdentifier>)
    decreases depth, 1nat, 0nat, args,
{
    if args.len() == 0 {
        (Ok(false), seen)
    } else {
        let first = spec_walk_type(db, seen, args[0], hits, depth);
        match first.0 {
            Ok(false) => spec_walk_args(db, first.1, args.drop_first(), hits, depth),
            _ => first,
        }
    }
}

/// What a walk into the definition that `ident` names finds: nothing
/// where the name was seen before; else the name is seen from now on, and
/// the fields of its definition are walked.
pub open spec fn spec_walk_def(
    db: &Database,
    seen: Seq<QualifiedIdentifier>,
    ident: QualifiedIdentifier,
    hits: spec_fn(PrimitiveType) -> bool,
    depth: nat,
) -> (Result<bool, LayoutError>, Seq<QualifiedIdentifier>)
    decreases depth, 0nat, 0nat, ident,
{
    if seen_has(seen, ident) {
        (Ok(false), seen)
    } else {
        match db.def_of(ident) {
            Some(def) => if depth == 0 {
                (Err(LayoutError::TooDeep), seen.push(ident))
            } else {
                match def.body {
                    TypeBody::Struct(s) => spec_walk_fields(
                        db,
                        seen.push(ident),
                        s.fields,
                        0,
                        hits,
                        (depth - 1) as nat,
                    ),
                    TypeBody::Enum(e) => spec_walk_variants(
                        db,
                        seen.push(ident),
                        e,
                        0,
                        hits,
                        (depth - 1) as nat,
                    ),
                }
            },
            None => if ident.module is None {
                (Ok(false), seen.push(ident))
            } else {
                (Err(LayoutError::Unresolved(ident)), seen.push(ident))
            },
        }
    }
}

/// What a walk over `fields`, from the field at `from` on, finds.
pub open spec fn spec_walk_fields(
    db: &Database,
    seen: Seq<QualifiedIdentifier>,
    fields: Vec<NamedField>,
    from: nat,
    hits: spec_fn(PrimitiveType) -> bool,
    depth: nat,
) -> (Result<bool, LayoutError>, Seq<QualifiedIdentifier>)
    decreases depth, 2nat, fields@.len() - from, fields,
{
    if from >= fields@.len() {
        (Ok(false), seen)
    } else {
        let first = spec_walk_type(db, seen, fields@[from as int].ty, hits, depth);
        match first.0 {
            Ok(false) => spec_walk_fields(db, first.1, fields, from + 1, hits, depth),
            _ => first,
        }
    }
}

/// What a walk over the fields of the variants of `e`, from the variant
/// at `from` on, finds.
pub open spec fn spec_walk_variants(
    db: &Database,
    seen: Seq<QualifiedIdentifier>,
    e: Enum,
    from: nat,
    hits: spec_fn(PrimitiveType) -> bool,
    depth: nat,
) -> (Result<bool, LayoutError>, Seq<QualifiedIdentifier>)
    decreases depth, 3nat, e.variants@.len() - from, e,
{
    if from >= e.variants@.len() {
        (Ok(false), seen)
    } else {
        match e.variants@[from as int].1 {
            EnumVariant::Empty => spec_walk_variants(db, seen, e, from + 1, hits, depth),
            EnumVariant::NamedFields { fields } => {
                let first = spec_walk_fields(db, seen, fields, 0, hits, depth);
                match first.0 {
                    Ok(false) => spec_walk_variants(db, first.1, e, from + 1, hits, depth),
                    _ => first,
                }
            },
        }
    }
}

/// A walk over the parts of types that enters each definition once.
pub struct TypeWalker {
    seen: Vec<QualifiedIdentifier>,
}

impl TypeWalker {
    /// The names that the walk has seen, in the order met.
    pub closed spec fn seen_names(&self) -> Seq<QualifiedIdentifier> {
        self.seen@
    }

    pub fn new() -> (walker: Self)
        ensures
            walker.seen_names().len() == 0,
    {
        Self { seen: Vec::new() }
    }

    /// Whether `ident` was seen.
    fn has_seen(&self, ident: &QualifiedIdentifier) -> (seen: bool)
        ensures
            seen == seen_has(self.seen_names(), *ident),
    {
        let mut i: usize = self.seen.len();
        proof {
            assert(self.seen@.take(i as int) =~= self.seen@);
        }
        while i > 0
            invariant
                i <= self.seen.len(),
                seen_has(self.seen@, *ident) == seen_has(self.seen@.take(i as int), *ident),
            decreases i,
        {
            i = i - 1;
            proof {
                let upto = self.seen@.take(i + 1);
                assert(upto.drop_last() =~= self.seen@.take(i as int));
                assert(upto.last() == self.seen@[i as int]);
            }
            if ident_eq(&self.seen[i], ident) {
                return true;
            }
        }
        false
    }

    /// Stops the walk and returns early if any of the leaf visits returns true.
    ///
    /// Returns true if any of the leaf visitors triggered an early return.
    /// Definitions are followed at most `MAX_NESTING` deep;
    /// `walk_type_within` takes any depth.
    pub fn walk_type<V: VisitLeaf>(&mut self, db: &Database, ty: &Type, visit_leaf: &V) -> (result:
        Result<bool, LayoutError>)
        ensures
            (result, final(self).seen_names()) == spec_walk_type(
                db,
                old(self).seen_names(),
                *ty,
                |leaf: PrimitiveType| visit_leaf.hits(leaf),
                MAX_NESTING as nat,
            ),
    {
        self.walk_type_within(db, ty, visit_leaf, MAX_NESTING)
    }

    /// The walk of `walk_type`, following definitions at most `depth` deep.
    pub fn walk_type_within<V: VisitLeaf>(
        &mut self,
        db: &Database,
        ty: &Type,
        visit_leaf: &V,
        depth: usize,
    ) -> (result: Result<bool, LayoutError>)
        ensures
            (result, final(self).seen_names()) == spec_walk_type(
                db,
                old(self).seen_names(),
                *ty,
                |leaf: PrimitiveType| visit_leaf.hits(leaf),
                depth as nat,
            ),
        decreases depth, 1nat, 0nat, ty,
    {
        match ty {
            Type::Primitive(PrimitiveType::Box(inner_ty)) => self.walk_type_within(
                db,
                inner_ty,
                visit_leaf,
                depth,
            ),
            Type::Primitive(PrimitiveType::List(item_ty)) => self.walk_type_within(
                db,
                item_ty,
                visit_leaf,
                depth,
            ),
            Type::Primitive(PrimitiveType::Option(inner_ty)) => self.walk_type_within(
                db,
                inner_ty,
                visit_leaf,
                depth,
            ),
            Type::Primitive(PrimitiveType::Result(ok_ty, err_ty)) => {
                if self.walk_type_within(db, ok_ty, visit_leaf, depth)? {
                    Ok(true)
                } else {
                    self.walk_type_within(db, err_ty, visit_leaf, depth)
                }
            },
            Type::Primitive(leaf) => Ok(visit_leaf.visit_leaf(leaf)),
            Type::Defined { ident, args } => {
                let ghost hits = |leaf: PrimitiveType| visit_leaf.hits(leaf);
                let mut i: usize = 0;
                proof {
                    assert(args@.skip(0) =~= args@);
                }
                while i < args.len()
                    invariant
                        i <= args.len(),
                        *ty matches Type::Defined { args: own, .. } && own == args,
                        hits == |leaf: PrimitiveType| visit_leaf.hits(leaf),
                        spec_walk_args(db, old(self).seen_names(), args@, hits, depth as nat)
                            == spec_walk_args(
                            db,
                            self.seen_names(),
                            args@.skip(i as int),
                            hits,
                            depth as nat,
                        ),
                    decreases args.len() - i,
                {
                    proof {
                        assert(args@.skip(i as int)[0] == args@[i as int]);
                        assert(args@.skip(i as int).drop_first() =~= args@.skip(i + 1));
                    }
                    if self.walk_type_within(db, &args[i], visit_leaf, depth)? {
                        return Ok(true);
                    }
                    i = i + 1;
                }
                let ghost mid = self.seen_names();
                proof {
                    assert(args@.skip(i as int).len() == 0);
                    assert(spec_walk_args(db, old(self).seen_names(), args@, hits, depth as nat) == (
                        Ok::<bool, LayoutError>(false),
                        mid,
                    ));
                    assert(spec_walk_type(db, old(self).seen_names(), *ty, hits, depth as nat)
                        == spec_walk_def(db, mid, *ident, hits, depth as nat));
                }
                if self.has_seen(ident) {
                    // Don't recurse into already-seen types.
                    proof {
                        assert(spec_walk_def(db, mid, *ident, hits, depth as nat) == (
                            Ok::<bool, LayoutError>(false),
                            mid,
                        ));
                    }
                    return Ok(false);
                }
                self.seen.push(ident.clone());
                if let Some(type_def) = db.lookup_type_def(ident) {
                    if depth == 0 {
                        proof {
                            assert(spec_walk_def(db, mid, *ident, hits, depth as nat) == (
                                Err::<bool, LayoutError>(LayoutError::TooDeep),
                                mid.push(*ident),
                            ));
                        }
                        return Err(LayoutError::TooDeep);
                    }
                    match &type_def.body {
                        TypeBody::Struct(s) => self.walk_fields_within(
                            db,
                            &s.fields,
                            visit_leaf,
                            depth - 1,
                        ),
                        TypeBody::Enum(e) => self.walk_enum_within(db, e, visit_leaf, depth - 1),
                    }
                } else if ident.module.is_none() {
                    // Must be a generic type
                    Ok(false)
                } else {
                    Err(LayoutError::Unresolved(ident.clone()))
                }
            },
        }
    }

    fn walk_fields_within<V: VisitLeaf>(
        &mut self,
        db: &Database,
        fields: &Vec<NamedField>,
        visit_leaf: &V,
        depth: usize,
    ) -> (result: Result<bool, LayoutError>)
        ensures
            (result, final(self).seen_names()) == spec_walk_fields(
                db,
                old(self).seen_names(),
                *fields,
                0,
                |leaf: PrimitiveType| visit_leaf.hits(leaf),
                depth as nat,
            ),
        decreases depth, 2nat, fields@.len() + 1, fields,
    {
        let ghost hits = |leaf: PrimitiveType| visit_leaf.hits(leaf);
        let mut i: usize = 0;
        while i < fields.len()
            invariant
                i <= fields.len(),
                hits == |leaf: PrimitiveType| visit_leaf.hits(leaf),
                spec_walk_fields(db, old(self).seen_names(), *fields, 0, hits, depth as nat)
                    == spec_walk_fields(
                    db,
                    self.seen_names(),
                    *fields,
                    i as nat,
                    hits,
                    depth as nat,
                ),
            decreases fields.len() - i,
        {
            if self.walk_type_within(db, &fields[i].ty, visit_leaf, depth)? {
                return Ok(true);
            }
            i = i + 1;
        }
        Ok(false)
    }

    /// The walk over the fields of `s`. Definitions are followed at most
    /// `MAX_NESTING` deep.
    pub fn walk_struct<V: VisitLeaf>(&mut self, db: &Database, s: &Struct, visit_leaf: &V) -> (result:
        Result<bool, LayoutError>)
        ensures
            (result, final(self).seen_names()) == spec_walk_fields(
                db,
                old(self).seen_names(),
                s.fields,
                0,
                |leaf: PrimitiveType| visit_leaf.hits(leaf),
                MAX_NESTING as nat,
            ),
    {
        self.walk_fields_within(db, &s.fields, visit_leaf, MAX_NESTING)
    }

    fn walk_enum_within<V: VisitLeaf>(
        &mut self,
        db: &Database,
        e: &Enum,
        visit_leaf: &V,
        depth: usize,
    ) -> (result: Result<bool, LayoutError>)
        ensures
            (result, final(self).seen_names()) == spec_walk_variants(
                db,
                old(self).seen_names(),
                *e,
                0,
                |leaf: PrimitiveType| visit_leaf.hits(leaf),
                depth as nat,
            ),
        decreases depth, 3nat, e.variants@.len() + 1, e,
    {
        let ghost hits = |leaf: PrimitiveType| visit_leaf.hits(leaf);
        let mut i: usize = 0;
        while i < e.variants.len()
            invariant
                i <= e.variants.len(),
                hits == |leaf: PrimitiveType| visit_leaf.hits(leaf),
                spec_walk_variants(db, old(self).seen_names(), *e, 0, hits, depth as nat)
                    == spec_walk_variants(
                    db,
                    self.seen_names(),
                    *e,
                    i as nat,
                    hits,
                    depth as nat,
                ),
            decreases e.variants.len() - i,
        {
            match &e.variants[i].1 {
                EnumVariant::Empty => {},
                EnumVariant::NamedFields { fields } => {
                    if self.walk_fields_within(db, fields, visit_leaf, depth)? {
                        return Ok(true);
                    }
                },
            }
            i = i + 1;
        }
        Ok(false)
    }

    /// The walk over the fields of the variants of `e`. Definitions are
    /// followed at most `MAX_NESTING` deep.
    pub fn walk_enum<V: VisitLeaf>(&mut self, db: &Database, e: &Enum, visit_leaf: &V) -> (result:
        Result<bool, LayoutError>)
        ensures
            (result, final(self).seen_names()) == spec_walk_variants(
                db,
                old(self).seen_names(),
                *e,
                0,
                |leaf: PrimitiveType| visit_leaf.hits(leaf),
                MAX_NESTING as nat,
            ),
    {
        self.walk_enum_within(db, e, visit_leaf, MAX_NESTING)
    }
}

/// Whether the struct `s` holds a float, in a field, in a type argument or
/// in a definition that a field reaches. Definitions are followed at most
/// `MAX_NESTING` deep.
pub fn struct_contains_float(db: &Database, s: &Struct) -> (result: Result<bool, LayoutError>)
    ensures
        result == spec_walk_fields(
            db,
            Seq::empty(),
            s.fields,
            0,
            |leaf: PrimitiveType| leaf is F32 || leaf is F64,
            MAX_NESTING as nat,
        ).0,
{
    let mut walker = TypeWalker::new();
    proof {
        assert(walker.seen_names() =~= Seq::empty());
        let visitor = FloatLeaf;
        assert((|leaf: PrimitiveType| visitor.hits(leaf)) =~= (|leaf: PrimitiveType|
            leaf is F32 || leaf is F64));
    }
    walker.walk_struct(db, s, &FloatLeaf)
}

/// Whether the enum `e` holds a float, in a field of a variant, in a type
/// argument or in a definition that a field reaches. Definitions are
/// followed at most `MAX_NESTING` deep.
pub fn enum_contains_float(db: &Database, e: &Enum) -> (result: Result<bool, LayoutError>)
    ensures
        result == spec_walk_variants(
            db,
            Seq::empty(),
            *e,
            0,
            |leaf: PrimitiveType| leaf is F32 || leaf is F64,
            MAX_NESTING as nat,
        ).0,
{
    let mut walker = TypeWalker::new();
    proof {
        assert(walker.seen_names() =~= Seq::empty());
        let visitor = FloatLeaf;
        assert((|leaf: PrimitiveType| visitor.hits(leaf)) =~= (|leaf: PrimitiveType|
            leaf is F32 || leaf is F64));
    }
    walker.walk_enum(db, e, &FloatLeaf)
}

/// Which traits the owned form of a generated type derives, and whether
/// it is kept for builds that have a heap.
#[derive(Copy, Clone, Debug, PartialEq, Eq, Structural)]
pub struct OwnedTraits {
    /// The type is compiled only where a heap is available: a package
    /// whose type needs the heap.
    pub heap_only: bool,
    /// `Copy`: the type needs no heap.
    pub copy: bool,
    /// `Eq`, `Ord` and `Hash`: the type holds no float.
    pub total_order: bool,
    /// `Default`: a struct without fields.
    pub default: bool,
}

/// The traits of a type, from what is known of it.
pub open spec fn owned_traits(is_package: bool, heap: bool, float: bool, empty: bool) -> OwnedTraits {
    OwnedTraits {
        heap_only: is_package && heap,
        copy: !heap,
        total_order: !float,
        default: empty,
    }
}

/// The traits of the owned form of the struct `s`.
pub fn struct_owned_traits(db: &Database, is_package: bool, s: &Struct) -> (result: Result<
    OwnedTraits,
    LayoutError,
>)
    ensures
        match spec_fields_need(db, Seq::empty(), s.fields, 0, Question::Heap, MAX_NESTING as nat) {
            Ok(heap) => match spec_walk_fields(
                db,
                Seq::empty(),
                s.fields,
                0,
                |leaf: PrimitiveType| leaf is F32 || leaf is F64,
                MAX_NESTING as nat,
            ).0 {
                Ok(float) => result == Ok::<OwnedTraits, LayoutError>(
                    owned_traits(is_package, heap, float, s.fields@.len() == 0),
                ),
                Err(e) => result == Err::<OwnedTraits, LayoutError>(e),
            },
            Err(e) => result == Err::<OwnedTraits, LayoutError>(e),
        },
{
    let heap = struct_requires_heap(db, s)?;
    let float = struct_contains_float(db, s)?;
    Ok(
        OwnedTraits {
            heap_only: is_package && heap,
            copy: !heap,
            total_order: !float,
            default: s.fields.len() == 0,
        },
    )
}

/// The traits of the owned form of the enum `e`. An enum derives no
/// `Default`.
pub fn enum_owned_traits(db: &Database, is_package: bool, e: &Enum) -> (result: Result<
    OwnedTraits,
    LayoutError,
>)
    ensures
        match spec_variants_need(db, Seq::empty(), *e, 0, Question::Heap, MAX_NESTING as nat) {
            Ok(heap) => match spec_walk_variants(
                db,
                Seq::empty(),
                *e,
                0,
                |leaf: PrimitiveType| leaf is F32 || leaf is F64,
                MAX_NESTING as nat,
            ).0 {
                Ok(float) => result == Ok::<OwnedTraits, LayoutError>(
                    owned_traits(is_package, heap, float, false),
                ),
                Err(e) => result == Err::<OwnedTraits, LayoutError>(e),
            },
            Err(e) => result == Err::<OwnedTraits, LayoutError>(e),
        },
{
    let heap = enum_requires_heap(db, e)?;
    let float = enum_contains_float(db, e)?;
    Ok(OwnedTraits { heap_only: is_package && heap, copy: !heap, total_order: !float, default: false })
}

} // verus!
