//! The schema as data: type definitions, their fields and variants, and the
//! type expressions that they are built from.
use vstd::prelude::*;

verus! {

/// The index of a type definition in its module.
#[derive(Copy, Clone, Debug, Eq, PartialEq, Hash)]
pub struct TypeDefId(pub usize);

/// A record: named fields, encoded in the order written.
#[derive(Clone, Debug, Eq, PartialEq, Hash)]
pub struct Struct {
    pub fields: Vec<NamedField>,
}

#[derive(Clone, Debug, Eq, PartialEq, Hash)]
pub struct NamedField {
    pub name: String,
    pub ty: Type,
}

/// A tagged union: the tag of a variant is its index in `variants`.
#[derive(Clone, Debug, Eq, PartialEq, Hash)]
pub struct Enum {
    pub variants: Vec<(String, EnumVariant)>,
}

#[derive(Clone, Debug, Eq, PartialEq, Hash)]
pub enum EnumVariant {
    Empty,
    NamedFields { fields: Vec<NamedField> },
}

#[derive(Debug, Eq, PartialEq, Hash)]
pub enum PrimitiveType {
    Void,
    U8,
    U16,
    U32,
    U64,
    U128,
    I8,
    I16,
    I32,
    I64,
    I128,
    Bool,
    F32,
    F64,
    String,
    Box(Box<Type>),
    List(Box<Type>),
    Option(Box<Type>),
    Result(Box<Type>, Box<Type>),
}

/// A type expression: a built-in type, or a reference to a definition or
/// to a type parameter, with its arguments.
#[derive(Debug, Eq, PartialEq, Hash)]
pub enum Type {
    Primitive(PrimitiveType),
    Defined { ident: QualifiedIdentifier, args: Vec<Type> },
}

impl Clone for PrimitiveType {
    fn clone(&self) -> (copy: Self)
        ensures
            copy.view() == self.view(),
        decreases self,
    {
        match self {
            PrimitiveType::Void => PrimitiveType::Void,
            PrimitiveType::U8 => PrimitiveType::U8,
            PrimitiveType::U16 => PrimitiveType::U16,
            PrimitiveType::U32 => PrimitiveType::U32,
            PrimitiveType::U64 => PrimitiveType::U64,
            PrimitiveType::U128 => PrimitiveType::U128,
            PrimitiveType::I8 => PrimitiveType::I8,
            PrimitiveType::I16 => PrimitiveType::I16,
            PrimitiveType::I32 => PrimitiveType::I32,
            PrimitiveType::I64 => PrimitiveType::I64,
            PrimitiveType::I128 => PrimitiveType::I128,
            PrimitiveType::Bool => PrimitiveType::Bool,
            PrimitiveType::F32 => PrimitiveType::F32,
            PrimitiveType::F64 => PrimitiveType::F64,
            PrimitiveType::String => PrimitiveType::String,
            PrimitiveType::Box(inner) => PrimitiveType::Box(Box::new((**inner).clone())),
            PrimitiveType::List(item) => PrimitiveType::List(Box::new((**item).clone())),
            PrimitiveType::Option(inner) => PrimitiveType::Option(Box::new((**inner).clone())),
            PrimitiveType::Result(ok, err) => PrimitiveType::Result(
                Box::new((**ok).clone()),
                Box::new((**err).clone()),
            ),
        }
    }
}

impl Clone for Type {
    fn clone(&self) -> (copy: Self)
        ensures
            copy.view() == self.view(),
        decreases self,
    {
        match self {
            Type::Primitive(primitive) => Type::Primitive(primitive.clone()),
            Type::Defined { ident, args } => {
                let mut copies: Vec<Type> = Vec::new();
                let mut i: usize = 0;
                while i < args.len()
                    invariant
                        i <= args.len(),
                        *self matches Type::Defined { args: own, .. } && own == args,
                        copies@.len() == i,
                        forall|j: int| 0 <= j < i ==> copies@[j].view() == args@[j].view(),
                    decreases args.len() - i,
                {
                    copies.push(args[i].clone());
                    i = i + 1;
                }
                let copy = Type::Defined { ident: ident.clone(), args: copies };
                proof {
                    lemma_defined_view(copy);
                    lemma_defined_view(*self);
                    assert(type_views(copy->args@) =~= type_views(args@));
                }
                copy
            },
        }
    }
}

impl Type {
    /// A reference without arguments to the name `name` of this module.
    pub fn local(name: &str) -> (ty: Self)
        ensures
            ty matches Type::Defined { ident, args } && ident.name@ == name@ && ident.module is None
                && args@.len() == 0,
    {
        Self::Defined { ident: QualifiedIdentifier::local(name), args: Vec::new() }
    }
}

#[derive(Clone, Debug, Eq, PartialEq, Hash)]
pub enum TypeBody {
    Struct(Struct),
    Enum(Enum),
}

impl TypeBody {
    pub fn is_struct(&self) -> (b: bool)
        ensures
            b == (self is Struct),
    {
        if let Self::Struct(_) = self {
            true
        } else {
            false
        }
    }

    pub fn is_enum(&self) -> (b: bool)
        ensures
            b == (self is Enum),
    {
        if let Self::Enum(_) = self {
            true
        } else {
            false
        }
    }
}

/// A definition: its name, the names of its type parameters, its body.
#[derive(Clone, Debug, Eq, PartialEq, Hash)]
pub struct TypeDef {
    pub name: String,
    pub params: Vec<String>,
    pub body: TypeBody,
}

/// A name, with the module it is imported from if it is not local.
#[derive(Debug, Eq, PartialEq, Hash)]
pub struct QualifiedIdentifier {
    pub name: String,
    pub module: Option<String>,
}

impl Clone for QualifiedIdentifier {
    fn clone(&self) -> (copy: Self)
        ensures
            copy == *self,
    {
        Self {
            name: self.name.clone(),
            module: match &self.module {
                Some(module) => Some(module.clone()),
                None => None,
            },
        }
    }
}

impl QualifiedIdentifier {
    pub fn local(name: &str) -> (ident: Self)
        ensures
            ident.name@ == name@,
            ident.module is None,
    {
        Self { name: name.to_owned(), module: None }
    }
}

/// A name as text: what a `QualifiedIdentifier` stands for.
pub struct IdentView {
    pub name: Seq<char>,
    pub module: Option<Seq<char>>,
}

/// A type expression as a value of its own, names as text.
pub enum TypeView {
    Void,
    U8,
    U16,
    U32,
    U64,
    U128,
    I8,
    I16,
    I32,
    I64,
    I128,
    Bool,
    F32,
    F64,
    String,
    Box(Box<TypeView>),
    List(Box<TypeView>),
    Option(Box<TypeView>),
    Result(Box<TypeView>, Box<TypeView>),
    Defined { ident: IdentView, args: Seq<TypeView> },
}

pub struct FieldView {
    pub name: Seq<char>,
    pub ty: TypeView,
}

pub enum VariantView {
    Empty,
    NamedFields(Seq<FieldView>),
}

pub enum BodyView {
    Struct(Seq<FieldView>),
    Enum(Seq<(Seq<char>, VariantView)>),
}

pub struct TypeDefView {
    pub name: Seq<char>,
    pub params: Seq<Seq<char>>,
    pub body: BodyView,
}

impl View for QualifiedIdentifier {
    type V = IdentView;

    open spec fn view(&self) -> IdentView {
        IdentView {
            name: self.name@,
            module: match self.module {
                Some(module) => Some(module@),
                None => None,
            },
        }
    }
}

impl PrimitiveType {
    pub open spec fn view(&self) -> TypeView
        decreases self,
    {
        match self {
            PrimitiveType::Void => TypeView::Void,
            PrimitiveType::U8 => TypeView::U8,
            PrimitiveType::U16 => TypeView::U16,
            PrimitiveType::U32 => TypeView::U32,
            PrimitiveType::U64 => TypeView::U64,
            PrimitiveType::U128 => TypeView::U128,
            PrimitiveType::I8 => TypeView::I8,
            PrimitiveType::I16 => TypeView::I16,
            PrimitiveType::I32 => TypeView::I32,
            PrimitiveType::I64 => TypeView::I64,
            PrimitiveType::I128 => TypeView::I128,
            PrimitiveType::Bool => TypeView::Bool,
            PrimitiveType::F32 => TypeView::F32,
            PrimitiveType::F64 => TypeView::F64,
            PrimitiveType::String => TypeView::String,
            PrimitiveType::Box(inner) => TypeView::Box(Box::new(inner.view())),
            PrimitiveType::List(item) => TypeView::List(Box::new(item.view())),
            PrimitiveType::Option(inner) => TypeView::Option(Box::new(inner.view())),
            PrimitiveType::Result(ok, err) => TypeView::Result(
                Box::new(ok.view()),
                Box::new(err.view()),
            ),
        }
    }
}

impl Type {
    pub open spec fn view(&self) -> TypeView
        decreases self,
    {
        match self {
            Type::Primitive(primitive) => primitive.view(),
            Type::Defined { ident, args } => TypeView::Defined {
                ident: ident@,
                args: Seq::new(
                    args@.len(),
                    |i: int|
                        if 0 <= i < args@.len() {
                            args[i].view()
                        } else {
                            TypeView::Void
                        },
                ),
            },
        }
    }
}

/// What each of `types` stands for.
pub open spec fn type_views(types: Seq<Type>) -> Seq<TypeView> {
    Seq::new(types.len(), |i: int| types[i].view())
}

/// The view of a reference to a definition is made of the views of its
/// parts.
pub proof fn lemma_defined_view(ty: Type)
    requires
        ty is Defined,
    ensures
        ty.view() == (TypeView::Defined { ident: ty->ident@, args: type_views(ty->args@) }),
{
    assert(ty.view()->args =~= type_views(ty->args@));
}

impl View for NamedField {
    type V = FieldView;

    open spec fn view(&self) -> FieldView {
        FieldView { name: self.name@, ty: self.ty.view() }
    }
}

/// What each of `fields` stands for.
pub open spec fn field_views(fields: Seq<NamedField>) -> Seq<FieldView> {
    Seq::new(fields.len(), |i: int| fields[i]@)
}

/// The text of each of `names`.
pub open spec fn name_views(names: Seq<String>) -> Seq<Seq<char>> {
    Seq::new(names.len(), |i: int| names[i]@)
}

impl View for EnumVariant {
    type V = VariantView;

    open spec fn view(&self) -> VariantView {
        match self {
            EnumVariant::Empty => VariantView::Empty,
            EnumVariant::NamedFields { fields } => VariantView::NamedFields(field_views(fields@)),
        }
    }
}

/// What each of `variants` stands for, with its name.
pub open spec fn variant_views(variants: Seq<(String, EnumVariant)>) -> Seq<
    (Seq<char>, VariantView),
> {
    Seq::new(variants.len(), |i: int| (variants[i].0@, variants[i].1@))
}

impl View for TypeBody {
    type V = BodyView;

    open spec fn view(&self) -> BodyView {
        match self {
            TypeBody::Struct(s) => BodyView::Struct(field_views(s.fields@)),
            TypeBody::Enum(e) => BodyView::Enum(variant_views(e.variants@)),
        }
    }
}

impl View for TypeDef {
    type V = TypeDefView;

    open spec fn view(&self) -> TypeDefView {
        TypeDefView { name: self.name@, params: name_views(self.params@), body: self.body@ }
    }
}

/// What each of `defs` stands for.
pub open spec fn type_def_views(defs: Seq<TypeDef>) -> Seq<TypeDefView> {
    Seq::new(defs.len(), |i: int| defs[i]@)
}

} // verus!
