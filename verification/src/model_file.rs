//! One loaded model namespace: its declarations and imports.

use vstd::prelude::*;
use crate::declaration::{Declaration, DeclarationView};
use crate::text::str_eq;

verus! {

/// Import data for one model file.
#[derive(Debug, Clone)]
pub struct Imports {
    /// Explicit short-name to fully-qualified-name mappings, one per name.
    pub explicit: Vec<(String, String)>,
    /// Wildcard imported namespaces.
    pub wildcard_namespaces: Vec<String>,
}

/// One parsed Concerto model file.
#[derive(Debug, Clone)]
pub struct ModelFile {
    /// Namespace declared by the model.
    pub namespace: String,
    /// Recorded imports for the model.
    pub imports: Imports,
    /// Declarations, one per short name.
    pub declarations: Vec<Declaration>,
}

/// The position of the first declaration named `name`.
pub open spec fn decl_index(ds: Seq<Declaration>, name: Seq<char>) -> Option<int>
    decreases ds.len(),
{
    if ds.len() == 0 {
        None
    } else {
        match decl_index(ds.drop_last(), name) {
            Some(i) => Some(i),
            None => if ds.last().spec_name() == name { Some(ds.len() - 1) } else { None },
        }
    }
}

/// The first declaration named `name`.
pub open spec fn decl_lookup(ds: Seq<Declaration>, name: Seq<char>) -> Option<Declaration> {
    match decl_index(ds, name) {
        Some(i) => Some(ds[i]),
        None => None,
    }
}

/// `ds` with `d` in place of the declaration of the same name, or with `d`
/// added at the end where there is none.
pub open spec fn decl_insert(ds: Seq<Declaration>, d: Declaration) -> Seq<Declaration> {
    match decl_index(ds, d.spec_name()) {
        Some(i) => ds.update(i, d),
        None => ds.push(d),
    }
}

/// The position of the first import entry for `name`.
pub open spec fn import_index(es: Seq<(String, String)>, name: Seq<char>) -> Option<int>
    decreases es.len(),
{
    if es.len() == 0 {
        None
    } else {
        match import_index(es.drop_last(), name) {
            Some(i) => Some(i),
            None => if es.last().0@ == name { Some(es.len() - 1) } else { None },
        }
    }
}

/// The fully-qualified name that `name` is imported as.
pub open spec fn import_lookup(es: Seq<(String, String)>, name: Seq<char>) -> Option<Seq<char>> {
    match import_index(es, name) {
        Some(i) => Some(es[i].1@),
        None => None,
    }
}

/// The position `decl_index` gives holds a declaration of that name; where
/// it gives none, no declaration has that name.
pub proof fn lemma_decl_index_bounds(ds: Seq<Declaration>, name: Seq<char>)
    ensures
        decl_index(ds, name) matches Some(i) ==> 0 <= i < ds.len() && ds[i].spec_name() == name,
        decl_index(ds, name) is None ==> forall|j: int| 0 <= j < ds.len() ==> ds[j].spec_name() != name,
    decreases ds.len(),
{
    if ds.len() > 0 {
        lemma_decl_index_bounds(ds.drop_last(), name);
        assert forall|j: int| 0 <= j < ds.len() - 1 implies ds[j] == ds.drop_last()[j] by {}
    }
}

proof fn lemma_decl_index_prefix(ds: Seq<Declaration>, name: Seq<char>, i: int)
    requires
        0 <= i < ds.len(),
    ensures
        decl_index(ds.take(i + 1), name) == (match decl_index(ds.take(i), name) {
            Some(k) => Some(k),
            None => if ds[i].spec_name() == name { Some(i) } else { None },
        }),
{
    assert(ds.take(i + 1).drop_last() =~= ds.take(i));
}

/// The position `import_index` gives holds an entry for that name.
pub proof fn lemma_import_index_bounds(es: Seq<(String, String)>, name: Seq<char>)
    ensures
        import_index(es, name) matches Some(i) ==> 0 <= i < es.len() && es[i].0@ == name,
    decreases es.len(),
{
    if es.len() > 0 {
        lemma_import_index_bounds(es.drop_last(), name);
        assert forall|j: int| 0 <= j < es.len() - 1 implies es[j] == es.drop_last()[j] by {}
    }
}

/// Position of the first declaration named `name`, by a scan.
pub(crate) fn find_decl(ds: &Vec<Declaration>, name: &str) -> (r: Option<usize>)
    ensures
        match r {
            Some(i) => decl_index(ds@, name@) == Some(i as int),
            None => decl_index(ds@, name@) is None,
        },
{
    let n = ds.len();
    let mut i: usize = 0;
    while i < n
        invariant
            n == ds@.len(),
            i <= n,
            decl_index(ds@.take(i as int), name@) is None,
        decreases n - i,
    {
        proof { lemma_decl_index_prefix(ds@, name@, i as int); }
        if str_eq(ds[i].name(), name) {
            proof {
                assert(decl_index(ds@.take(i + 1), name@) == Some(i as int));
                lemma_index_extends(ds@, name@, i + 1);
            }
            return Some(i);
        }
        i = i + 1;
    }
    assert(ds@.take(n as int) =~= ds@);
    None
}

/// Once the first match lies in a prefix, the whole sequence has it too.
proof fn lemma_index_extends(ds: Seq<Declaration>, name: Seq<char>, k: int)
    requires
        0 <= k <= ds.len(),
        decl_index(ds.take(k), name) is Some,
    ensures
        decl_index(ds, name) == decl_index(ds.take(k), name),
    decreases ds.len() - k,
{
    if k < ds.len() {
        lemma_decl_index_prefix(ds, name, k);
        lemma_index_extends(ds, name, k + 1);
    } else {
        assert(ds.take(k) =~= ds);
    }
}

/// Position of the first import entry for `name`, by a scan.
pub(crate) fn find_import(es: &Vec<(String, String)>, name: &str) -> (r: Option<usize>)
    ensures
        match r {
            Some(i) => import_index(es@, name@) == Some(i as int),
            None => import_index(es@, name@) is None,
        },
{
    let n = es.len();
    let mut i: usize = 0;
    while i < n
        invariant
            n == es@.len(),
            i <= n,
            import_index(es@.take(i as int), name@) is None,
        decreases n - i,
    {
        assert(es@.take(i + 1).drop_last() =~= es@.take(i as int));
        if str_eq(es[i].0.as_str(), name) {
            proof { lemma_import_extends(es@, name@, i + 1); }
            return Some(i);
        }
        i = i + 1;
    }
    assert(es@.take(n as int) =~= es@);
    None
}

proof fn lemma_import_extends(es: Seq<(String, String)>, name: Seq<char>, k: int)
    requires
        0 <= k <= es.len(),
        import_index(es.take(k), name) is Some,
    ensures
        import_index(es, name) == import_index(es.take(k), name),
    decreases es.len() - k,
{
    if k < es.len() {
        assert(es.take(k + 1).drop_last() =~= es.take(k));
        lemma_import_extends(es, name, k + 1);
    } else {
        assert(es.take(k) =~= es);
    }
}

impl Imports {
    /// No imports.
    pub fn new() -> (r: Imports)
        ensures
            r.explicit@.len() == 0,
            r.wildcard_namespaces@.len() == 0,
    {
        Imports { explicit: Vec::new(), wildcard_namespaces: Vec::new() }
    }

    /// Records that `name` stands for `fqn`, in place of an earlier entry
    /// for `name`.
    pub fn insert_explicit(&mut self, name: String, fqn: String)
        ensures
            final(self).wildcard_namespaces@ == old(self).wildcard_namespaces@,
            import_lookup(final(self).explicit@, name@) == Some(fqn@),
            forall|k: Seq<char>| k != name@ ==> import_lookup(final(self).explicit@, k)
                == import_lookup(old(self).explicit@, k),
            final(self)@.explicit == old(self)@.explicit.insert(name@, fqn@),
            final(self)@.wildcard_namespaces == old(self)@.wildcard_namespaces,
    {
        let ghost old_es = self.explicit@;
        match find_import(&self.explicit, name.as_str()) {
            Some(i) => {
                proof { lemma_import_index_bounds(old_es, name@); }
                self.explicit.set(i, (name, fqn));
                proof { lemma_import_update(old_es, i as int, self.explicit@[i as int]); }
            }
            None => {
                self.explicit.push((name, fqn));
                proof { lemma_import_push(old_es, self.explicit@.last()); }
            }
        }
        assert(imports_map(self.explicit@) =~= imports_map(old_es).insert(name@, fqn@));
    }

    /// The fully-qualified name that `name` is explicitly imported as.
    pub fn explicit_lookup(&self, name: &str) -> (r: Option<&str>)
        ensures
            match r {
                Some(f) => import_lookup(self.explicit@, name@) == Some(f@),
                None => import_lookup(self.explicit@, name@) is None,
            },
    {
        match find_import(&self.explicit, name) {
            Some(i) => {
                proof { lemma_import_index_bounds(self.explicit@, name@); }
                Some(self.explicit[i].1.as_str())
            }
            None => None,
        }
    }
}

proof fn lemma_import_index_update(es: Seq<(String, String)>, i: int, e: (String, String), k: Seq<char>)
    requires
        0 <= i < es.len(),
        es[i].0@ == e.0@,
    ensures
        import_index(es.update(i, e), k) == import_index(es, k),
    decreases es.len(),
{
    let es2 = es.update(i, e);
    if i < es.len() - 1 {
        assert(es2.drop_last() =~= es.drop_last().update(i, e));
        lemma_import_index_update(es.drop_last(), i, e, k);
    } else {
        assert(es2.drop_last() =~= es.drop_last());
    }
}

proof fn lemma_import_update(es: Seq<(String, String)>, i: int, e: (String, String))
    requires
        0 <= i < es.len(),
        import_index(es, e.0@) == Some(i),
    ensures
        import_lookup(es.update(i, e), e.0@) == Some(e.1@),
        forall|k: Seq<char>| k != e.0@ ==> import_lookup(es.update(i, e), k) == import_lookup(es, k),
{
    lemma_import_index_bounds(es, e.0@);
    lemma_import_index_update(es, i, e, e.0@);
    assert forall|k: Seq<char>| k != e.0@ implies import_lookup(es.update(i, e), k) == import_lookup(es, k) by {
        lemma_import_index_update(es, i, e, k);
        lemma_import_index_bounds(es, k);
    }
}

proof fn lemma_import_push(es: Seq<(String, String)>, e: (String, String))
    requires
        import_index(es, e.0@) is None,
    ensures
        import_lookup(es.push(e), e.0@) == Some(e.1@),
        forall|k: Seq<char>| k != e.0@ ==> import_lookup(es.push(e), k) == import_lookup(es, k),
{
    assert(es.push(e).drop_last() =~= es);
    assert forall|k: Seq<char>| k != e.0@ implies import_lookup(es.push(e), k) == import_lookup(es, k) by {
        lemma_import_index_bounds(es, k);
    }
}

proof fn lemma_decl_index_update(ds: Seq<Declaration>, i: int, d: Declaration, k: Seq<char>)
    requires
        0 <= i < ds.len(),
        ds[i].spec_name() == d.spec_name(),
    ensures
        decl_index(ds.update(i, d), k) == decl_index(ds, k),
    decreases ds.len(),
{
    let ds2 = ds.update(i, d);
    if i < ds.len() - 1 {
        assert(ds2.drop_last() =~= ds.drop_last().update(i, d));
        lemma_decl_index_update(ds.drop_last(), i, d, k);
    } else {
        assert(ds2.drop_last() =~= ds.drop_last());
    }
}

proof fn lemma_decl_update(ds: Seq<Declaration>, i: int, d: Declaration)
    requires
        0 <= i < ds.len(),
        decl_index(ds, d.spec_name()) == Some(i),
    ensures
        decl_lookup(ds.update(i, d), d.spec_name()) == Some(d),
        forall|k: Seq<char>| k != d.spec_name() ==> decl_lookup(ds.update(i, d), k) == decl_lookup(ds, k),
{
    lemma_decl_index_bounds(ds, d.spec_name());
    lemma_decl_index_update(ds, i, d, d.spec_name());
    assert forall|k: Seq<char>| k != d.spec_name() implies decl_lookup(ds.update(i, d), k) == decl_lookup(ds, k) by {
        lemma_decl_index_update(ds, i, d, k);
        lemma_decl_index_bounds(ds, k);
    }
}

proof fn lemma_decl_push(ds: Seq<Declaration>, d: Declaration)
    requires
        decl_index(ds, d.spec_name()) is None,
    ensures
        decl_lookup(ds.push(d), d.spec_name()) == Some(d),
        forall|k: Seq<char>| k != d.spec_name() ==> decl_lookup(ds.push(d), k) == decl_lookup(ds, k),
{
    assert(ds.push(d).drop_last() =~= ds);
    assert forall|k: Seq<char>| k != d.spec_name() implies decl_lookup(ds.push(d), k) == decl_lookup(ds, k) by {
        lemma_decl_index_bounds(ds, k);
    }
}

impl ModelFile {
    /// The declaration named `name`.
    pub open spec fn spec_get_declaration(self, name: Seq<char>) -> Option<Declaration> {
        decl_lookup(self.declarations@, name)
    }

    /// Creates an empty model file for one namespace.
    pub fn new(namespace: &str) -> (r: ModelFile)
        ensures
            r.namespace@ == namespace@,
            r.imports.explicit@.len() == 0,
            r.imports.wildcard_namespaces@.len() == 0,
            r.declarations@.len() == 0,
    {
        ModelFile { namespace: String::from_str(namespace), imports: Imports::new(), declarations: Vec::new() }
    }

    /// Adds or replaces one declaration.
    pub fn add_declaration(&mut self, decl: Declaration)
        ensures
            final(self).namespace == old(self).namespace,
            final(self).imports == old(self).imports,
            final(self).declarations@ == decl_insert(old(self).declarations@, decl),
            final(self).spec_get_declaration(decl.spec_name()) == Some(decl),
            forall|k: Seq<char>| k != decl.spec_name() ==> final(self).spec_get_declaration(k)
                == old(self).spec_get_declaration(k),
            decls_map(final(self).declarations@) == decls_map(old(self).declarations@).insert(decl.spec_name(), decl@),
    {
        let ghost old_ds = self.declarations@;
        match find_decl(&self.declarations, decl.name()) {
            Some(i) => {
                proof { lemma_decl_index_bounds(old_ds, decl.spec_name()); }
                self.declarations.set(i, decl);
                proof { lemma_decl_update(old_ds, i as int, decl); }
            }
            None => {
                self.declarations.push(decl);
                proof { lemma_decl_push(old_ds, decl); }
            }
        }
        assert(decls_map(self.declarations@) =~= decls_map(old_ds).insert(decl.spec_name(), decl@));
    }

    /// Looks up one declaration by short name.
    pub fn get_declaration(&self, name: &str) -> (r: Option<&Declaration>)
        ensures
            match r {
                Some(d) => self.spec_get_declaration(name@) == Some(*d),
                None => self.spec_get_declaration(name@) is None,
            },
    {
        match find_decl(&self.declarations, name) {
            Some(i) => {
                proof { lemma_decl_index_bounds(self.declarations@, name@); }
                Some(&self.declarations[i])
            }
            None => None,
        }
    }
}

/// The explicit imports, as a map from short name to fully-qualified name.
pub open spec fn imports_map(es: Seq<(String, String)>) -> Map<Seq<char>, Seq<char>> {
    Map::new(|k: Seq<char>| import_lookup(es, k) is Some, |k: Seq<char>| import_lookup(es, k).unwrap())
}

/// The declarations of a model, by short name.
pub open spec fn decls_map(ds: Seq<Declaration>) -> Map<Seq<char>, DeclarationView> {
    Map::new(|k: Seq<char>| decl_lookup(ds, k) is Some, |k: Seq<char>| decl_lookup(ds, k).unwrap()@)
}

/// The content of `Imports`.
pub struct ImportsView {
    pub explicit: Map<Seq<char>, Seq<char>>,
    pub wildcard_namespaces: Seq<Seq<char>>,
}

impl View for Imports {
    type V = ImportsView;

    open spec fn view(&self) -> ImportsView {
        ImportsView {
            explicit: imports_map(self.explicit@),
            wildcard_namespaces: self.wildcard_namespaces@.map_values(|s: String| s@),
        }
    }
}

/// The content of a `ModelFile`.
pub struct ModelFileView {
    pub namespace: Seq<char>,
    pub imports: ImportsView,
    pub declarations: Map<Seq<char>, DeclarationView>,
}

impl View for ModelFile {
    type V = ModelFileView;

    open spec fn view(&self) -> ModelFileView {
        ModelFileView { namespace: self.namespace@, imports: self.imports@, declarations: decls_map(self.declarations@) }
    }
}

} // verus!
