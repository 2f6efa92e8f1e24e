//! Where type definitions are kept and found: a module holds definitions
//! in the order they were added, a database holds the local module and the
//! modules imported by name.
use vstd::prelude::*;

use crate::ast::{QualifiedIdentifier, TypeDef, TypeDefId};
use crate::text::str_eq;

verus! {

/// The definitions of one schema file, in the order written.
pub struct Module {
    type_defs: Vec<TypeDef>,
}

/// The index of the definition that `name` refers to among `defs`: where
/// several have the name, the one added last.
pub open spec fn find_def(defs: Seq<TypeDef>, name: Seq<char>) -> Option<int>
    decreases defs.len(),
{
    if defs.len() == 0 {
        None
    } else if defs.last().name@ == name {
        Some(defs.len() - 1)
    } else {
        find_def(defs.drop_last(), name)
    }
}

impl Module {
    /// The definitions of the module, in the order they were added.
    pub closed spec fn defs(&self) -> Seq<TypeDef> {
        self.type_defs@
    }

    /// The definition that `name` refers to in this module.
    pub open spec fn def_named(&self, name: Seq<char>) -> Option<TypeDef> {
        match find_def(self.defs(), name) {
            Some(i) => Some(self.defs()[i]),
            None => None,
        }
    }

    pub fn new() -> (module: Self)
        ensures
            module.defs() == Seq::<TypeDef>::empty(),
    {
        Self { type_defs: Vec::new() }
    }

    pub fn type_defs(&self) -> (defs: &Vec<TypeDef>)
        ensures
            defs@ == self.defs(),
    {
        &self.type_defs
    }

    pub fn from_type_defs(type_defs: Vec<TypeDef>) -> (module: Self)
        ensures
            module.defs() == type_defs@,
    {
        Self { type_defs }
    }

    /// Adds a definition behind those that are there and returns its index.
    /// A name used before refers to the new definition from now on.
    pub fn new_type_def(&mut self, type_def: TypeDef) -> (id: TypeDefId)
        ensures
            final(self).defs() == old(self).defs().push(type_def),
            id.0 == old(self).defs().len(),
    {
        let id = TypeDefId(self.type_defs.len());
        self.type_defs.push(type_def);
        id
    }

    pub fn type_def(&self, id: TypeDefId) -> (def: &TypeDef)
        requires
            id.0 < self.defs().len(),
        ensures
            *def == self.defs()[id.0 as int],
    {
        &self.type_defs[id.0]
    }

    pub fn type_def_by_name<'a>(&'a self, name: &str) -> (def: Option<&'a TypeDef>)
        ensures
            match def {
                Some(def) => self.def_named(name@) == Some(*def),
                None => self.def_named(name@) is None,
            },
    {
        let mut i: usize = self.type_defs.len();
        proof {
            assert(self.defs().take(i as int) =~= self.defs());
        }
        while i > 0
            invariant
                i <= self.type_defs.len(),
                find_def(self.defs(), name@) == find_def(self.defs().take(i as int), name@),
            decreases i,
        {
            i = i - 1;
            proof {
                let upto = self.defs().take(i + 1);
                assert(upto.drop_last() =~= self.defs().take(i as int));
                assert(upto.last() == self.defs()[i as int]);
            }
            if str_eq(self.type_defs[i].name.as_str(), name) {
                return Some(&self.type_defs[i]);
            }
        }
        None
    }
}

/// A module that was imported, and the suffix of the library that holds it.
pub struct DatabaseImport {
    pub name: String,
    pub lib_suffix: String,
    pub module: Module,
}

/// The index of the import that `name` refers to among `imports`: where
/// several have the name, the one added last.
pub open spec fn find_import(imports: Seq<DatabaseImport>, name: Seq<char>) -> Option<int>
    decreases imports.len(),
{
    if imports.len() == 0 {
        None
    } else if imports.last().name@ == name {
        Some(imports.len() - 1)
    } else {
        find_import(imports.drop_last(), name)
    }
}

/// The local module and the imported modules.
pub struct Database {
    imports: Vec<DatabaseImport>,
    local: Module,
}

impl Database {
    /// The imports, in the order they were added.
    pub closed spec fn imported(&self) -> Seq<DatabaseImport> {
        self.imports@
    }

    /// The local module.
    pub closed spec fn local_module(&self) -> Module {
        self.local
    }

    /// The import that `name` refers to.
    pub open spec fn import_named(&self, name: Seq<char>) -> Option<DatabaseImport> {
        match find_import(self.imported(), name) {
            Some(i) => Some(self.imported()[i]),
            None => None,
        }
    }

    /// The definition that `ident` refers to: by its name in the local
    /// module where it names no module, in the import of that name where
    /// it names one.
    pub open spec fn def_of(&self, ident: QualifiedIdentifier) -> Option<TypeDef> {
        match ident.module {
            Some(module_name) => match self.import_named(module_name@) {
                Some(import) => import.module.def_named(ident.name@),
                None => None,
            },
            None => self.local_module().def_named(ident.name@),
        }
    }

    pub fn new(local: Module) -> (db: Self)
        ensures
            db.local_module() == local,
            db.imported() == Seq::<DatabaseImport>::empty(),
    {
        Self { imports: Vec::new(), local }
    }

    pub fn local(&self) -> (module: &Module)
        ensures
            *module == self.local_module(),
    {
        &self.local
    }

    pub fn local_mut(&mut self) -> (module: &mut Module)
        ensures
            *module == old(self).local_module(),
            final(self).local_module() == *final(module),
            final(self).imported() == old(self).imported(),
    {
        &mut self.local
    }

    /// Adds an import. A module name used before refers to the new import
    /// from now on.
    pub fn add_module(&mut self, name: String, lib_suffix: String, module: Module)
        ensures
            final(self).local_module() == old(self).local_module(),
            final(self).imported() == old(self).imported().push(
                (DatabaseImport { name, lib_suffix, module }),
            ),
    {
        self.imports.push(DatabaseImport { name, lib_suffix, module });
    }

    /// The index of the import that `module_name` refers to.
    fn import_index(&self, module_name: &str) -> (found: Option<usize>)
        ensures
            match found {
                Some(i) => find_import(self.imported(), module_name@) == Some(i as int) && i
                    < self.imported().len(),
                None => find_import(self.imported(), module_name@) is None,
            },
    {
        let mut i: usize = self.imports.len();
        proof {
            assert(self.imported().take(i as int) =~= self.imported());
        }
        while i > 0
            invariant
                i <= self.imports.len(),
                find_import(self.imported(), module_name@) == find_import(
                    self.imported().take(i as int),
                    module_name@,
                ),
            decreases i,
        {
            i = i - 1;
            proof {
                let upto = self.imported().take(i + 1);
                assert(upto.drop_last() =~= self.imported().take(i as int));
                assert(upto.last() == self.imported()[i as int]);
            }
            if str_eq(self.imports[i].name.as_str(), module_name) {
                return Some(i);
            }
        }
        None
    }

    pub fn imported_module_mut(&mut self, module_name: &str) -> (module: Option<&mut Module>)
        ensures
            final(self).local_module() == old(self).local_module(),
            match module {
                Some(module) => match find_import(old(self).imported(), module_name@) {
                    Some(i) => *module == old(self).imported()[i].module && final(self).imported() == old(self).imported().update(
                        i,
                        (DatabaseImport {
                            name: old(self).imported()[i].name,
                            lib_suffix: old(self).imported()[i].lib_suffix,
                            module: *final(module),
                        }),
                    ),
                    None => false,
                },
                None => find_import(old(self).imported(), module_name@) is None && final(self).imported() == old(self).imported(),
            },
    {
        match self.import_index(module_name) {
            Some(i) => Some(&mut self.imports[i].module),
            None => None,
        }
    }

    pub fn lookup_module_lib_suffix<'a>(&'a self, module_name: &str) -> (suffix: Option<&'a str>)
        ensures
            match suffix {
                Some(suffix) => self.import_named(module_name@) matches Some(import)
                    && import.lib_suffix@ == suffix@,
                None => self.import_named(module_name@) is None,
            },
    {
        match self.import_index(module_name) {
            Some(i) => Some(self.imports[i].lib_suffix.as_str()),
            None => None,
        }
    }

    pub fn lookup_type_def<'a>(&'a self, identifier: &QualifiedIdentifier) -> (def: Option<
        &'a TypeDef,
    >)
        ensures
            match def {
                Some(def) => self.def_of(*identifier) == Some(*def),
                None => self.def_of(*identifier) is None,
            },
    {
        match &identifier.module {
            Some(module_name) => {
                match self.import_index(module_name.as_str()) {
                    Some(i) => self.imports[i].module.type_def_by_name(identifier.name.as_str()),
                    None => None,
                }
            },
            None => self.local.type_def_by_name(identifier.name.as_str()),
        }
    }
}

} // verus!
