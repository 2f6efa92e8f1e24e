//! The context in which a type expression is read: the database of
//! definitions and what the type parameters in scope stand for.
use vstd::prelude::*;

use crate::ast::{PrimitiveType, QualifiedIdentifier, Type, TypeDef};
use crate::db::Database;
use crate::text::str_eq;

verus! {

/// What a type parameter in scope stands for.
#[derive(Copy, Clone)]
pub enum TypeParamBinding<'a> {
    /// The parameter of the definition being generated: any type.
    Unbound,
    /// The argument that a use site gave, read in the scope of that site.
    Bound { value: &'a Type, binding_cx: &'a TypeParamBindings<'a> },
}

/// The type parameters in scope, each with what it stands for.
pub struct TypeParamBindings<'a> {
    bindings: Vec<(&'a str, TypeParamBinding<'a>)>,
}

/// What a type parameter in scope stands for, as a value of its own: an
/// argument carries the scope that it is read in.
pub enum BindingView {
    Unbound,
    Bound { value: Type, scope: Seq<(Seq<char>, BindingView)> },
}

/// The type parameters in scope, by name, each with what it stands for.
pub type Scope = Seq<(Seq<char>, BindingView)>;

/// The binding of the first entry of `scope` that has the name `name`.
pub open spec fn find_binding(scope: Scope, name: Seq<char>) -> Option<BindingView>
    decreases scope.len(),
{
    if scope.len() == 0 {
        None
    } else if scope[0].0 == name {
        Some(scope[0].1)
    } else {
        find_binding(scope.drop_first(), name)
    }
}

/// The scope that binds each of `type_params` to nothing.
pub open spec fn unbound_scope(type_params: Seq<String>) -> Scope {
    Seq::new(type_params.len(), |i: int| (type_params[i]@, BindingView::Unbound))
}

/// The scope that binds each of `type_params` to the argument at its
/// place, read in the scope `parent`, as far as both lists go.
pub open spec fn bound_scope(parent: Scope, type_params: Seq<String>, type_args: Seq<Type>) -> Scope {
    Seq::new(
        if type_params.len() < type_args.len() {
            type_params.len()
        } else {
            type_args.len()
        },
        |i: int| (type_params[i]@, BindingView::Bound { value: type_args[i], scope: parent }),
    )
}

impl<'a> TypeParamBinding<'a> {
    /// The binding as a value of its own.
    pub closed spec fn view(&self) -> BindingView
        decreases self,
    {
        match self {
            TypeParamBinding::Unbound => BindingView::Unbound,
            TypeParamBinding::Bound { value, binding_cx } => BindingView::Bound {
                value: **value,
                scope: binding_cx.scope(),
            },
        }
    }

    pub proof fn lemma_view(&self)
        ensures
            self.view() == match self {
                TypeParamBinding::Unbound => BindingView::Unbound,
                TypeParamBinding::Bound { value, binding_cx } => BindingView::Bound {
                    value: **value,
                    scope: binding_cx.scope(),
                },
            },
    {
    }
}

impl<'a> Clone for TypeParamBindings<'a> {
    fn clone(&self) -> (copy: Self)
        ensures
            copy.scope() == self.scope(),
    {
        let mut bindings: Vec<(&'a str, TypeParamBinding<'a>)> = Vec::new();
        let mut i: usize = 0;
        while i < self.bindings.len()
            invariant
                i <= self.bindings.len(),
                bindings@ == self.bindings@.take(i as int),
            decreases self.bindings.len() - i,
        {
            let (name, binding) = self.bindings[i];
            bindings.push((name, binding));
            proof {
                assert(bindings@ =~= self.bindings@.take(i + 1));
            }
            i = i + 1;
        }
        proof {
            assert(self.bindings@.take(self.bindings@.len() as int) =~= self.bindings@);
        }
        let copy = Self { bindings };
        proof {
            assert(copy.scope() =~= self.scope());
        }
        copy
    }
}

impl<'a> TypeParamBindings<'a> {
    /// The parameters in scope with their bindings, in the order given.
    pub closed spec fn scope(&self) -> Scope
        decreases self,
    {
        Seq::new(
            self.bindings@.len(),
            |i: int|
                if 0 <= i < self.bindings@.len() {
                    (self.bindings[i].0@, self.bindings[i].1.view())
                } else {
                    (Seq::empty(), BindingView::Unbound)
                },
        )
    }

    /// What `name` stands for: the binding of the first parameter of that
    /// name.
    pub open spec fn binding_of(&self, name: Seq<char>) -> Option<BindingView> {
        find_binding(self.scope(), name)
    }

    pub fn empty() -> (bindings: Self)
        ensures
            bindings.scope().len() == 0,
    {
        Self { bindings: Vec::new() }
    }

    pub fn from_type_params(type_params: &'a [String]) -> (bindings: Self)
        ensures
            bindings.scope() == unbound_scope(type_params@),
    {
        let mut bindings: Vec<(&'a str, TypeParamBinding<'a>)> = Vec::new();
        let mut i: usize = 0;
        while i < type_params.len()
            invariant
                i <= type_params.len(),
                bindings@.len() == i,
                forall|j: int|
                    0 <= j < i ==> bindings@[j].0@ == type_params@[j]@ && bindings@[j].1
                        == TypeParamBinding::<'a>::Unbound,
            decreases type_params.len() - i,
        {
            bindings.push((type_params[i].as_str(), TypeParamBinding::Unbound));
            i = i + 1;
        }
        let made = Self { bindings };
        proof {
            assert(made.scope() =~= unbound_scope(type_params@));
        }
        made
    }

    pub fn from_type_args(
        parent_bindings: &'a TypeParamBindings<'a>,
        type_params: &'a [String],
        type_args: &'a [Type],
    ) -> (bindings: Self)
        ensures
            bindings.scope() == bound_scope(parent_bindings.scope(), type_params@, type_args@),
    {
        let ghost all = bound_scope(parent_bindings.scope(), type_params@, type_args@);
        let mut bindings: Vec<(&'a str, TypeParamBinding<'a>)> = Vec::new();
        let mut i: usize = 0;
        while i < type_params.len() && i < type_args.len()
            invariant
                i <= type_params.len(),
                i <= type_args.len(),
                bindings@.len() == i,
                forall|j: int|
                    0 <= j < i ==> bindings@[j].0@ == type_params@[j]@ && bindings@[j].1 == (
                    TypeParamBinding::Bound {
                        value: &type_args@[j],
                        binding_cx: parent_bindings,
                    }),
            decreases type_params.len() - i,
        {
            bindings.push(
                (
                    type_params[i].as_str(),
                    TypeParamBinding::Bound { value: &type_args[i], binding_cx: parent_bindings },
                ),
            );
            i = i + 1;
        }
        let made = Self { bindings };
        proof {
            assert(made.scope() =~= all);
        }
        made
    }

    pub fn resolve(&self, name: &str) -> (binding: Option<TypeParamBinding<'a>>)
        ensures
            match binding {
                Some(binding) => self.binding_of(name@) == Some(binding.view()),
                None => self.binding_of(name@) is None,
            },
    {
        let mut i: usize = 0;
        proof {
            assert(self.scope().skip(0) =~= self.scope());
        }
        while i < self.bindings.len()
            invariant
                i <= self.bindings.len(),
                find_binding(self.scope(), name@) == find_binding(
                    self.scope().skip(i as int),
                    name@,
                ),
            decreases self.bindings.len() - i,
        {
            let (binding_name, binding) = self.bindings[i];
            proof {
                let rest = self.scope().skip(i as int);
                assert(rest[0] == self.scope()[i as int]);
                assert(rest.drop_first() =~= self.scope().skip(i + 1));
            }
            if str_eq(binding_name, name) {
                return Some(binding);
            }
            i = i + 1;
        }
        None
    }
}

/// What a name in a type expression refers to.
pub enum ResolvedType<'a> {
    /// Defined type
    Defined(&'a TypeDef),
    /// Unbound type parameter
    UnboundParam,
    /// Bound type parameter
    BoundParam { value: &'a Type, binding_cx: &'a TypeParamBindings<'a> },
}

/// What a name in a type expression refers to, as a value of its own.
pub enum ResolvedView {
    Defined(TypeDef),
    UnboundParam,
    BoundParam { value: Type, scope: Scope },
}

impl<'a> ResolvedType<'a> {
    pub open spec fn view(&self) -> ResolvedView {
        match self {
            ResolvedType::Defined(def) => ResolvedView::Defined(**def),
            ResolvedType::UnboundParam => ResolvedView::UnboundParam,
            ResolvedType::BoundParam { value, binding_cx } => ResolvedView::BoundParam {
                value: **value,
                scope: binding_cx.scope(),
            },
        }
    }
}

pub struct CodegenCx<'a> {
    pub db: &'a Database,
    pub local_def_source: Option<&'a str>,
    pub is_package: bool,
    pub type_param_bindings: TypeParamBindings<'a>,
}

/// What `ident` refers to where `scope` is in scope over `db`: a type
/// parameter where it names no module and a parameter has its name, else
/// the definition that the database finds.
pub open spec fn resolve_in(db: &Database, scope: Scope, ident: QualifiedIdentifier) -> Option<
    ResolvedView,
> {
    if ident.module is None && find_binding(scope, ident.name@) is Some {
        match find_binding(scope, ident.name@).unwrap() {
            BindingView::Unbound => Some(ResolvedView::UnboundParam),
            BindingView::Bound { value, scope } => Some(ResolvedView::BoundParam { value, scope }),
        }
    } else {
        match db.def_of(ident) {
            Some(def) => Some(ResolvedView::Defined(def)),
            None => None,
        }
    }
}

impl<'a> CodegenCx<'a> {
    /// The type parameters in scope.
    pub open spec fn scope(&self) -> Scope {
        self.type_param_bindings.scope()
    }

    /// What `ident` refers to in this context.
    pub open spec fn resolved(&self, ident: QualifiedIdentifier) -> Option<ResolvedView> {
        resolve_in(self.db, self.scope(), ident)
    }

    /// Whether `other` differs from this context in its bindings at most.
    pub open spec fn same_place(&self, other: &CodegenCx<'a>) -> bool {
        &&& other.db == self.db
        &&& other.local_def_source == self.local_def_source
        &&& other.is_package == self.is_package
    }

    pub fn new(db: &'a Database, local_def_source: Option<&'a str>, is_package: bool) -> (cx: Self)
        ensures
            cx.db == db,
            cx.local_def_source == local_def_source,
            cx.is_package == is_package,
            cx.scope().len() == 0,
    {
        Self {
            db,
            local_def_source,
            is_package,
            type_param_bindings: TypeParamBindings::empty(),
        }
    }

    pub fn new_with_type_params(
        db: &'a Database,
        local_def_source: Option<&'a str>,
        is_package: bool,
        type_params: &'a [String],
    ) -> (cx: Self)
        ensures
            cx.db == db,
            cx.local_def_source == local_def_source,
            cx.is_package == is_package,
            cx.scope() == unbound_scope(type_params@),
    {
        Self {
            db,
            local_def_source,
            is_package,
            type_param_bindings: TypeParamBindings::from_type_params(type_params),
        }
    }

    /// This context with `type_param_bindings` in place of its own.
    pub fn with_type_param_bindings(&self, type_param_bindings: &TypeParamBindings<'a>) -> (cx:
        Self)
        ensures
            self.same_place(&cx),
            cx.scope() == type_param_bindings.scope(),
    {
        Self {
            db: self.db,
            local_def_source: self.local_def_source,
            is_package: self.is_package,
            type_param_bindings: type_param_bindings.clone(),
        }
    }

    /// This context with `type_params` in scope, bound to nothing.
    pub fn with_type_params(&self, type_params: &'a [String]) -> (cx: Self)
        ensures
            self.same_place(&cx),
            cx.scope() == unbound_scope(type_params@),
    {
        Self {
            db: self.db,
            local_def_source: self.local_def_source,
            is_package: self.is_package,
            type_param_bindings: TypeParamBindings::from_type_params(type_params),
        }
    }

    /// The context inside a definition with parameters `type_params` that
    /// is used here with the arguments `type_args`.
    pub fn with_type_args(&'a self, type_params: &'a [String], type_args: &'a [Type]) -> (cx: Self)
        ensures
            self.same_place(&cx),
            cx.scope() == bound_scope(self.scope(), type_params@, type_args@),
    {
        Self {
            db: self.db,
            local_def_source: self.local_def_source,
            is_package: self.is_package,
            type_param_bindings: TypeParamBindings::from_type_args(
                &self.type_param_bindings,
                type_params,
                type_args,
            ),
        }
    }

    pub fn resolve_type_param_binding(&self, name: &str) -> (binding: Option<
        TypeParamBinding<'a>,
    >)
        ensures
            match binding {
                Some(binding) => find_binding(self.scope(), name@) == Some(binding.view()),
                None => find_binding(self.scope(), name@) is None,
            },
    {
        self.type_param_bindings.resolve(name)
    }

    pub fn resolve_type(&self, ident: &QualifiedIdentifier) -> (resolved: Option<ResolvedType<'a>>)
        ensures
            match resolved {
                Some(resolved) => self.resolved(*ident) == Some(resolved.view()),
                None => self.resolved(*ident) is None,
            },
    {
        if ident.module.is_none() {
            if let Some(type_param_binding) = self.resolve_type_param_binding(
                ident.name.as_str(),
            ) {
                proof {
                    type_param_binding.lemma_view();
                }
                return match type_param_binding {
                    TypeParamBinding::Unbound => Some(ResolvedType::UnboundParam),
                    TypeParamBinding::Bound { value, binding_cx } => Some(
                        ResolvedType::BoundParam { value, binding_cx },
                    ),
                };
            }
        }
        if let Some(type_def) = self.db.lookup_type_def(ident) {
            Some(ResolvedType::Defined(type_def))
        } else {
            None
        }
    }
}

/// A name in a type expression that refers to nothing.
#[derive(Debug)]
pub struct Unresolved {
    pub ident: QualifiedIdentifier,
}

/// The first of `args`, in order, for which `uses` is `Ok(true)` or an
/// error decides; `Ok(false)` if there is none.
pub open spec fn any_arg(results: Seq<Result<bool, QualifiedIdentifier>>) -> Result<
    bool,
    QualifiedIdentifier,
>
    decreases results.len(),
{
    if results.len() == 0 {
        Ok(false)
    } else {
        match results[0] {
            Ok(false) => any_arg(results.drop_first()),
            decided => decided,
        }
    }
}

/// Whether `ty`, read in `scope` over `db`, mentions the
/// unbound type parameter `param_name`; the name that refers to nothing, if
/// one is met first. The parts of `ty` are read in order, and reading stops
/// at the first that mentions the parameter.
pub open spec fn uses_param(
    db: &Database,
    scope: Scope,
    ty: Type,
    param_name: Seq<char>,
) -> Result<bool, QualifiedIdentifier>
    decreases ty, 1int,
{
    match ty {
        Type::Primitive(PrimitiveType::Box(inner)) => uses_param(db, scope, *inner, param_name),
        Type::Primitive(PrimitiveType::List(item)) => uses_param(db, scope, *item, param_name),
        Type::Primitive(PrimitiveType::Option(inner)) => uses_param(db, scope,
            *inner,
            param_name,
        ),
        Type::Primitive(PrimitiveType::Result(ok, err)) => match uses_param(db, scope,
            *ok,
            param_name,
        ) {
            Ok(false) => uses_param(db, scope, *err, param_name),
            decided => decided,
        },
        Type::Primitive(_) => Ok(false),
        Type::Defined { ident, args } => match resolve_in(db, scope, ident) {
            Some(ResolvedView::Defined(_)) => any_arg(args_use_param(db, scope, args, param_name)),
            Some(ResolvedView::UnboundParam) => Ok(ident.module is None && ident.name@ == param_name),
            Some(ResolvedView::BoundParam { .. }) => Ok(false),
            None => Err(ident),
        },
    }
}

/// `uses_param` of each of `args`, in order.
pub open spec fn args_use_param(
    db: &Database,
    scope: Scope,
    args: Vec<Type>,
    param_name: Seq<char>,
) -> Seq<Result<bool, QualifiedIdentifier>>
    decreases args, 0int,
{
    Seq::new(
        args@.len(),
        |i: int|
            if 0 <= i < args@.len() {
                uses_param(db, scope, args[i], param_name)
            } else {
                Ok(false)
            },
    )
}

/// `uses_type_param` of each of `args`, in order.
pub open spec fn args_use_type_param(
    db: &Database,
    scope: Scope,
    args: Vec<Type>,
) -> Seq<Result<bool, QualifiedIdentifier>>
    decreases args, 0int,
{
    Seq::new(
        args@.len(),
        |i: int|
            if 0 <= i < args@.len() {
                uses_type_param(db, scope, args[i])
            } else {
                Ok(false)
            },
    )
}

/// Whether `ty`, read in `scope` over `db`, mentions any
/// unbound type parameter; the name that refers to nothing, if one is met
/// first.
pub open spec fn uses_type_param(
    db: &Database,
    scope: Scope,
    ty: Type,
) -> Result<bool, QualifiedIdentifier>
    decreases ty, 1int,
{
    match ty {
        Type::Primitive(PrimitiveType::Box(inner)) => uses_type_param(db, scope, *inner),
        Type::Primitive(PrimitiveType::List(item)) => uses_type_param(db, scope, *item),
        Type::Primitive(PrimitiveType::Option(inner)) => uses_type_param(db, scope, *inner),
        Type::Primitive(PrimitiveType::Result(ok, err)) => match uses_type_param(db, scope,
            *ok,
        ) {
            Ok(false) => uses_type_param(db, scope, *err),
            decided => decided,
        },
        Type::Primitive(_) => Ok(false),
        Type::Defined { ident, args } => match resolve_in(db, scope, ident) {
            Some(ResolvedView::Defined(_)) => any_arg(args_use_type_param(db, scope, args)),
            Some(ResolvedView::UnboundParam) => Ok(true),
            Some(ResolvedView::BoundParam { .. }) => Ok(false),
            None => Err(ident),
        },
    }
}

/// `any_arg` over the first `n + 1` results, where the first `n` are all
/// `Ok(false)`, is decided by result `n` and what follows it.
pub proof fn lemma_any_arg_skip(results: Seq<Result<bool, QualifiedIdentifier>>, n: int)
    requires
        0 <= n <= results.len(),
        forall|j: int| 0 <= j < n ==> results[j] == Ok::<bool, QualifiedIdentifier>(false),
    ensures
        any_arg(results) == any_arg(results.skip(n)),
    decreases n,
{
    if n > 0 {
        lemma_any_arg_skip(results.drop_first(), n - 1);
        assert(results.drop_first().skip(n - 1) =~= results.skip(n));
    } else {
        assert(results.skip(0) =~= results);
    }
}

pub fn type_uses_param(cx: &CodegenCx, ty: &Type, param_name: &str) -> (result: Result<
    bool,
    Unresolved,
>)
    ensures
        match result {
            Ok(uses) => uses_param(cx.db, cx.scope(), *ty, param_name@) == Ok::<
                bool,
                QualifiedIdentifier,
            >(uses),
            Err(unresolved) => uses_param(cx.db, cx.scope(), *ty, param_name@)
                matches Err(ident) && ident == unresolved.ident,
        },
    decreases ty,
{
    match ty {
        Type::Primitive(PrimitiveType::Box(inner_ty)) => type_uses_param(cx, inner_ty, param_name),
        Type::Primitive(PrimitiveType::List(item_ty)) => type_uses_param(cx, item_ty, param_name),
        Type::Primitive(PrimitiveType::Option(inner_ty)) => type_uses_param(
            cx,
            inner_ty,
            param_name,
        ),
        Type::Primitive(PrimitiveType::Result(ok_ty, err_ty)) => {
            if type_uses_param(cx, ok_ty, param_name)? {
                Ok(true)
            } else {
                type_uses_param(cx, err_ty, param_name)
            }
        },
        Type::Defined { ident, args } => match cx.resolve_type(ident) {
            Some(ResolvedType::Defined(_)) => {
                let ghost results = args_use_param(
                    cx.db,
                    cx.scope(),
                    *args,
                    param_name@,
                );
                let mut i: usize = 0;
                while i < args.len()
                    invariant
                        i <= args.len(),
                        *ty matches Type::Defined { args: own, .. } && own == args,
                        results.len() == args@.len(),
                        uses_param(cx.db, cx.scope(), *ty, param_name@) == any_arg(
                            results,
                        ),
                        forall|j: int|
                            0 <= j < args@.len() ==> results[j] == uses_param(
                                cx.db,
                                cx.scope(),
                                args@[j],
                                param_name@,
                            ),
                        forall|j: int|
                            0 <= j < i ==> results[j] == Ok::<bool, QualifiedIdentifier>(false),
                    decreases args.len() - i,
                {
                    proof {
                        lemma_any_arg_skip(results, i as int);
                        assert(results.skip(i as int)[0] == results[i as int]);
                    }
                    if type_uses_param(cx, &args[i], param_name)? {
                        return Ok(true);
                    }
                    i = i + 1;
                }
                proof {
                    lemma_any_arg_skip(results, i as int);
                    assert(results.skip(i as int).len() == 0);
                }
                Ok(false)
            },
            Some(ResolvedType::UnboundParam) => Ok(
                ident.module.is_none() && str_eq(ident.name.as_str(), param_name),
            ),
            Some(ResolvedType::BoundParam { .. }) => Ok(false),
            None => Err(Unresolved { ident: ident.clone() }),
        },
        _ => Ok(false),
    }
}

pub fn type_uses_type_param(cx: &CodegenCx, ty: &Type) -> (result: Result<bool, Unresolved>)
    ensures
        match result {
            Ok(uses) => uses_type_param(cx.db, cx.scope(), *ty) == Ok::<
                bool,
                QualifiedIdentifier,
            >(uses),
            Err(unresolved) => uses_type_param(cx.db, cx.scope(), *ty) matches Err(
                ident,
            ) && ident == unresolved.ident,
        },
    decreases ty,
{
    match ty {
        Type::Primitive(PrimitiveType::Box(inner_ty)) => type_uses_type_param(cx, inner_ty),
        Type::Primitive(PrimitiveType::List(item_ty)) => type_uses_type_param(cx, item_ty),
        Type::Primitive(PrimitiveType::Option(inner_ty)) => type_uses_type_param(cx, inner_ty),
        Type::Primitive(PrimitiveType::Result(ok_ty, err_ty)) => {
            if type_uses_type_param(cx, ok_ty)? {
                Ok(true)
            } else {
                type_uses_type_param(cx, err_ty)
            }
        },
        Type::Defined { ident, args } => match cx.resolve_type(ident) {
            Some(ResolvedType::Defined(_)) => {
                let ghost results = args_use_type_param(cx.db, cx.scope(), *args);
                let mut i: usize = 0;
                while i < args.len()
                    invariant
                        i <= args.len(),
                        *ty matches Type::Defined { args: own, .. } && own == args,
                        results.len() == args@.len(),
                        uses_type_param(cx.db, cx.scope(), *ty) == any_arg(results),
                        forall|j: int|
                            0 <= j < args@.len() ==> results[j] == uses_type_param(
                                cx.db,
                                cx.scope(),
                                args@[j],
                            ),
                        forall|j: int|
                            0 <= j < i ==> results[j] == Ok::<bool, QualifiedIdentifier>(false),
                    decreases args.len() - i,
                {
                    proof {
                        lemma_any_arg_skip(results, i as int);
                        assert(results.skip(i as int)[0] == results[i as int]);
                    }
                    if type_uses_type_param(cx, &args[i])? {
                        return Ok(true);
                    }
                    i = i + 1;
                }
                proof {
                    lemma_any_arg_skip(results, i as int);
                    assert(results.skip(i as int).len() == 0);
                }
                Ok(false)
            },
            Some(ResolvedType::UnboundParam) => Ok(true),
            Some(ResolvedType::BoundParam { .. }) => Ok(false),
            None => Err(Unresolved { ident: ident.clone() }),
        },
        _ => Ok(false),
    }
}

} // verus!
