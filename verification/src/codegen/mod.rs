//! What the code generators decide: how names resolve, how long base
//! regions are, which traits a generated type can have.
pub use codegen_cx::{
    type_uses_param, type_uses_type_param, CodegenCx, ResolvedType, TypeParamBinding,
    TypeParamBindings, Unresolved,
};

pub mod codegen_cx;
pub mod lang;
pub mod name_util;
pub mod rust;
pub mod type_base_len;
