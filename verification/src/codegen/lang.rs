//! What differs between the target languages where names are resolved.
use vstd::prelude::*;
use vstd::string::StringExecFns;

use crate::ast::QualifiedIdentifier;
use crate::db::Database;
use crate::text::push_char;

verus! {

/// A language that code is generated for.
#[derive(Copy, Clone, Debug, PartialEq, Eq, Structural)]
pub enum Target {
    /// The systems target.
    Rust,
    /// The scripting target.
    Js,
}

impl Target {
    /// What stands between the name of a module and the suffix of its
    /// library.
    pub open spec fn spec_separator(&self) -> char {
        match self {
            Target::Rust => '_',
            Target::Js => '-',
        }
    }

    pub fn separator(&self) -> (c: char)
        ensures
            c == self.spec_separator(),
    {
        match self {
            Target::Rust => '_',
            Target::Js => '-',
        }
    }
}

/// Where generated code takes a name from.
#[derive(Debug, PartialEq, Eq)]
pub enum ImportSource {
    /// The library of an imported module: the name of the module, the
    /// separator of the target, the suffix registered for the module.
    Library(String),
    /// The source of the local definitions, in a package.
    Local(String),
    /// Nowhere: the name is defined in the same file.
    Bare,
}

/// A module that a name refers to and the database does not know.
#[derive(Debug, PartialEq, Eq)]
pub struct UnknownModule {
    pub module: String,
}

/// The name of the library of the module `module` with the suffix `suffix`.
pub open spec fn library_name(module: Seq<char>, target: Target, suffix: Seq<char>) -> Seq<char> {
    module.push(target.spec_separator()) + suffix
}

/// Where code generated for `target` takes the name `qualified_identifier`
/// from.
pub fn import_qualified(
    db: &Database,
    local_def_source: Option<&str>,
    qualified_identifier: &QualifiedIdentifier,
    target: Target,
) -> (result: Result<ImportSource, UnknownModule>)
    ensures
        match result {
            Ok(ImportSource::Library(library)) => qualified_identifier.module matches Some(module)
                && db.import_named(module@) matches Some(import) && library@ == library_name(
                module@,
                target,
                import.lib_suffix@,
            ),
            Ok(ImportSource::Local(source)) => qualified_identifier.module is None && (
            local_def_source matches Some(given) && source@ == given@),
            Ok(ImportSource::Bare) => qualified_identifier.module is None
                && local_def_source is None,
            Err(unknown) => qualified_identifier.module matches Some(module) && db.import_named(
                module@,
            ) is None && unknown.module@ == module@,
        },
{
    match &qualified_identifier.module {
        Some(module) => {
            // Import from some other library.
            match db.lookup_module_lib_suffix(module.as_str()) {
                Some(lib_suffix) => {
                    let mut library = module.clone();
                    push_char(&mut library, target.separator());
                    library.append(lib_suffix);
                    Ok(ImportSource::Library(library))
                },
                None => Err(UnknownModule { module: module.clone() }),
            }
        },
        None => {
            match local_def_source {
                // Import from a module in the same package.
                Some(source) => Ok(ImportSource::Local(source.to_owned())),
                // No import required.
                None => Ok(ImportSource::Bare),
            }
        },
    }
}

#[verifier::external_type_specification]
#[verifier::external_body]
pub struct ExRustImport(genco::lang::rust::Import);

#[verifier::external_type_specification]
#[verifier::external_body]
pub struct ExJsImport(genco::lang::js::Import);

/// The module that `import` takes its name from.
pub uninterp spec fn rust_import_module(import: genco::lang::rust::Import) -> Seq<char>;

/// The name that `import` imports.
pub uninterp spec fn rust_import_name(import: genco::lang::rust::Import) -> Seq<char>;

/// Whether the mode set in `import` is the qualified one, in which the
/// module is imported and the item named through it. An import in which
/// no mode is set is rendered as the configuration of the formatter says.
pub uninterp spec fn rust_import_is_qualified(import: genco::lang::rust::Import) -> bool;

/// The module that `import` takes its name from.
pub uninterp spec fn js_import_module(import: genco::lang::js::Import) -> Seq<char>;

/// The name that `import` imports.
pub uninterp spec fn js_import_name(import: genco::lang::js::Import) -> Seq<char>;

/// `genco::lang::rust::import`: the import of `name` from `module`, with
/// no alias and no mode set.
#[verifier::external_body]
fn rust_import(module: &str, name: &str) -> (import: genco::lang::rust::Import)
    ensures
        rust_import_module(import) == module@,
        rust_import_name(import) == name@,
        !rust_import_is_qualified(import),
{
    genco::lang::rust::import(module, name)
}

/// `genco::lang::rust::Import::qualified`: the same import, with the
/// qualified mode set.
#[verifier::external_body]
fn rust_qualified(import: genco::lang::rust::Import) -> (qualified: genco::lang::rust::Import)
    ensures
        rust_import_module(qualified) == rust_import_module(import),
        rust_import_name(qualified) == rust_import_name(import),
        rust_import_is_qualified(qualified),
{
    import.qualified()
}

/// `genco::lang::js::import`: the import of `name` from the module
/// `module`, with no alias.
#[verifier::external_body]
fn js_import(module: &str, name: &str) -> (import: genco::lang::js::Import)
    ensures
        js_import_module(import) == module@,
        js_import_name(import) == name@,
{
    genco::lang::js::import(module, name)
}

/// The import through which code for the systems target names
/// `qualified_identifier`; none where the name is defined in the same
/// file. A name of another library is named through its module.
pub fn rust_import_qualified(
    db: &Database,
    local_def_source: Option<&str>,
    qualified_identifier: &QualifiedIdentifier,
) -> (result: Result<Option<genco::lang::rust::Import>, UnknownModule>)
    ensures
        match result {
            Ok(Some(import)) => rust_import_name(import) == qualified_identifier.name@
                && match qualified_identifier.module {
                Some(module) => db.import_named(module@) matches Some(found)
                    && rust_import_module(import) == library_name(
                    module@,
                    Target::Rust,
                    found.lib_suffix@,
                ) && rust_import_is_qualified(import),
                None => local_def_source matches Some(source) && rust_import_module(import)
                    == source@ && !rust_import_is_qualified(import),
            },
            Ok(None) => qualified_identifier.module is None && local_def_source is None,
            Err(unknown) => qualified_identifier.module matches Some(module) && db.import_named(
                module@,
            ) is None && unknown.module@ == module@,
        },
{
    match import_qualified(db, local_def_source, qualified_identifier, Target::Rust)? {
        ImportSource::Library(library) => Ok(
            Some(
                rust_qualified(rust_import(library.as_str(), qualified_identifier.name.as_str())),
            ),
        ),
        ImportSource::Local(source) => Ok(
            Some(rust_import(source.as_str(), qualified_identifier.name.as_str())),
        ),
        ImportSource::Bare => Ok(None),
    }
}

/// The import through which code for the scripting target names
/// `qualified_identifier`; none where the name is defined in the same
/// file.
pub fn js_import_qualified(
    db: &Database,
    local_def_source: Option<&str>,
    qualified_identifier: &QualifiedIdentifier,
) -> (result: Result<Option<genco::lang::js::Import>, UnknownModule>)
    ensures
        match result {
            Ok(Some(import)) => js_import_name(import) == qualified_identifier.name@
                && match qualified_identifier.module {
                Some(module) => db.import_named(module@) matches Some(found) && js_import_module(
                    import,
                ) == library_name(module@, Target::Js, found.lib_suffix@),
                None => local_def_source matches Some(source) && js_import_module(import)
                    == source@,
            },
            Ok(None) => qualified_identifier.module is None && local_def_source is None,
            Err(unknown) => qualified_identifier.module matches Some(module) && db.import_named(
                module@,
            ) is None && unknown.module@ == module@,
        },
{
    match import_qualified(db, local_def_source, qualified_identifier, Target::Js)? {
        ImportSource::Library(library) => Ok(
            Some(js_import(library.as_str(), qualified_identifier.name.as_str())),
        ),
        ImportSource::Local(source) => Ok(
            Some(js_import(source.as_str(), qualified_identifier.name.as_str())),
        ),
        ImportSource::Bare => Ok(None),
    }
}

} // verus!
