//! The registry of loaded models and its name-resolution rules.

use vstd::prelude::*;
use crate::declaration::Declaration;
use crate::error::{ConcertoError, ErrorView};
use crate::model_file::{ModelFile, Imports, import_lookup};
use crate::text::{str_eq, concat3, concat5, first_index_of, find_char, lemma_first_index_bounds};
use crate::validator::type_resolver::{spec_split_fqn, split_fqn};
use crate::parser::json_loader::{spec_load_model_text, load_model_from_json};
use crate::model_file::ModelFileView;
use crate::json::JsonValue;
use crate::validator::report::{ValidationResult, errs_view};
use crate::validator::instance_validator::validation;

verus! {

/// The position of the model loaded under exactly `ns`.
pub open spec fn model_index(ms: Seq<ModelFile>, ns: Seq<char>) -> Option<int>
    decreases ms.len(),
{
    if ms.len() == 0 {
        None
    } else {
        match model_index(ms.drop_last(), ns) {
            Some(i) => Some(i),
            None => if ms.last().namespace@ == ns { Some(ms.len() - 1) } else { None },
        }
    }
}

/// The part of a namespace before its first `@` (its version).
pub open spec fn before_at(ns: Seq<char>) -> Seq<char> {
    match first_index_of(ns, '@') {
        Some(i) => ns.take(i),
        None => ns,
    }
}

/// How many loaded models have `ns` as their namespace without version.
pub open spec fn versionless_count(ms: Seq<ModelFile>, ns: Seq<char>) -> nat
    decreases ms.len(),
{
    if ms.len() == 0 {
        0
    } else {
        versionless_count(ms.drop_last(), ns) + if before_at(ms.last().namespace@) == ns { 1nat } else { 0nat }
    }
}

/// The first loaded model that has `ns` as its namespace without version.
pub open spec fn versionless_first(ms: Seq<ModelFile>, ns: Seq<char>) -> Option<ModelFile>
    decreases ms.len(),
{
    if ms.len() == 0 {
        None
    } else {
        match versionless_first(ms.drop_last(), ns) {
            Some(m) => Some(m),
            None => if before_at(ms.last().namespace@) == ns { Some(ms.last()) } else { None },
        }
    }
}

/// The model that a namespace names: the one loaded under exactly that
/// name, or else, for a name without `@`, the single loaded model whose
/// name without version is that name.
pub open spec fn spec_get_model(ms: Seq<ModelFile>, ns: Seq<char>) -> Option<ModelFile> {
    match model_index(ms, ns) {
        Some(i) => Some(ms[i]),
        None => if first_index_of(ns, '@') is Some {
            None
        } else if versionless_count(ms, ns) == 1 {
            versionless_first(ms, ns)
        } else {
            None
        },
    }
}

/// Resolution of a fully-qualified type name.
pub open spec fn spec_resolve_type(ms: Seq<ModelFile>, fqn: Seq<char>) -> Result<Declaration, ErrorView> {
    match spec_split_fqn(fqn) {
        None => Err(ErrorView::TypeNotFound("can't parse type '"@ + fqn + "'"@)),
        Some((ns, short)) => match spec_get_model(ms, ns) {
            None => Err(ErrorView::NamespaceNotFound("namespace '"@ + ns + "' isn't loaded"@)),
            Some(m) => match m.spec_get_declaration(short) {
                Some(d) => Ok(d),
                None => Err(ErrorView::TypeNotFound("type '"@ + short + "' not found in '"@ + ns + "'"@)),
            },
        },
    }
}

/// The declaration named `name` in the model that `ns` names, if both exist.
pub open spec fn decl_in(ms: Seq<ModelFile>, ns: Seq<char>, name: Seq<char>) -> Option<Declaration> {
    match spec_get_model(ms, ns) {
        Some(m) => m.spec_get_declaration(name),
        None => None,
    }
}

/// How many wildcard-imported namespaces hold a declaration named `name`.
pub open spec fn wildcard_count(ms: Seq<ModelFile>, wild: Seq<String>, name: Seq<char>) -> nat
    decreases wild.len(),
{
    if wild.len() == 0 {
        0
    } else {
        wildcard_count(ms, wild.drop_last(), name) + if decl_in(ms, wild.last()@, name) is Some { 1nat } else { 0nat }
    }
}

/// The declaration named `name` in the first wildcard-imported namespace
/// that holds one.
pub open spec fn wildcard_first(ms: Seq<ModelFile>, wild: Seq<String>, name: Seq<char>) -> Option<Declaration>
    decreases wild.len(),
{
    if wild.len() == 0 {
        None
    } else {
        match wildcard_first(ms, wild.drop_last(), name) {
            Some(d) => Some(d),
            None => decl_in(ms, wild.last()@, name),
        }
    }
}

/// Resolution of a type name seen in namespace `ctx`: a qualified name is
/// resolved as is; a short one is looked up in `ctx`, then in its explicit
/// imports, then in its wildcard imports, where it must be unique.
pub open spec fn spec_resolve_in_context(ms: Seq<ModelFile>, tn: Seq<char>, ctx: Seq<char>) -> Result<Declaration, ErrorView> {
    if spec_split_fqn(tn) is Some {
        spec_resolve_type(ms, tn)
    } else {
        match spec_get_model(ms, ctx) {
            None => Err(ErrorView::NamespaceNotFound("can't resolve '"@ + tn + "' -- namespace '"@ + ctx + "' isn't loaded"@)),
            Some(m) => match m.spec_get_declaration(tn) {
                Some(d) => Ok(d),
                None => match import_lookup(m.imports.explicit@, tn) {
                    Some(f) => spec_resolve_type(ms, f),
                    None => {
                        let c = wildcard_count(ms, m.imports.wildcard_namespaces@, tn);
                        if c == 1 {
                            Ok(wildcard_first(ms, m.imports.wildcard_namespaces@, tn).unwrap())
                        } else if c > 1 {
                            Err(ErrorView::Semantic("'"@ + tn + "' is ambiguous in '"@ + ctx + "'"@))
                        } else {
                            Err(ErrorView::TypeNotFound("can't resolve '"@ + tn + "' in '"@ + ctx + "'"@))
                        }
                    },
                },
            },
        }
    }
}

/// `ms` with `m` in place of the model of the same namespace, or with `m`
/// added where there is none.
pub open spec fn model_insert(ms: Seq<ModelFile>, m: ModelFile) -> Seq<ModelFile> {
    match model_index(ms, m.namespace@) {
        Some(i) => ms.update(i, m),
        None => ms.push(m),
    }
}

/// The position `model_index` gives holds a model of that namespace; where
/// it gives none, no model has that namespace.
pub proof fn lemma_model_index_bounds(ms: Seq<ModelFile>, ns: Seq<char>)
    ensures
        model_index(ms, ns) matches Some(i) ==> 0 <= i < ms.len() && ms[i].namespace@ == ns,
        model_index(ms, ns) is None ==> forall|j: int| 0 <= j < ms.len() ==> ms[j].namespace@ != ns,
    decreases ms.len(),
{
    if ms.len() > 0 {
        lemma_model_index_bounds(ms.drop_last(), ns);
        assert forall|j: int| 0 <= j < ms.len() - 1 implies ms[j] == ms.drop_last()[j] by {}
    }
}

proof fn lemma_model_index_extends(ms: Seq<ModelFile>, ns: Seq<char>, k: int)
    requires
        0 <= k <= ms.len(),
        model_index(ms.take(k), ns) is Some,
    ensures
        model_index(ms, ns) == model_index(ms.take(k), ns),
    decreases ms.len() - k,
{
    if k < ms.len() {
        assert(ms.take(k + 1).drop_last() =~= ms.take(k));
        lemma_model_index_extends(ms, ns, k + 1);
    } else {
        assert(ms.take(k) =~= ms);
    }
}

proof fn lemma_model_index_update(ms: Seq<ModelFile>, i: int, m: ModelFile, k: Seq<char>)
    requires
        0 <= i < ms.len(),
        ms[i].namespace@ == m.namespace@,
    ensures
        model_index(ms.update(i, m), k) == model_index(ms, k),
    decreases ms.len(),
{
    let ms2 = ms.update(i, m);
    if i < ms.len() - 1 {
        assert(ms2.drop_last() =~= ms.drop_last().update(i, m));
        lemma_model_index_update(ms.drop_last(), i, m, k);
    } else {
        assert(ms2.drop_last() =~= ms.drop_last());
    }
}

/// A model is well formed when each of its scalars has a primitive type,
/// as the loader builds them.
pub open spec fn model_wf(m: ModelFile) -> bool {
    forall|i: int| 0 <= i < m.declarations@.len() ==>
        (#[trigger] m.declarations@[i] matches Declaration::Scalar(s) ==> s.scalar_type.is_primitive())
}

/// All models are well formed.
pub open spec fn models_wf(ms: Seq<ModelFile>) -> bool {
    forall|i: int| 0 <= i < ms.len() ==> model_wf(#[trigger] ms[i])
}

/// No two loaded models share a namespace.
pub open spec fn namespaces_distinct(ms: Seq<ModelFile>) -> bool {
    forall|i: int, j: int| 0 <= i < ms.len() && 0 <= j < ms.len() && i != j
        ==> #[trigger] ms[i].namespace@ != #[trigger] ms[j].namespace@
}

/// Storing a model keeps the namespaces distinct.
proof fn lemma_insert_keeps_distinct(ms: Seq<ModelFile>, m: ModelFile)
    requires
        namespaces_distinct(ms),
    ensures
        namespaces_distinct(model_insert(ms, m)),
{
    lemma_model_index_bounds(ms, m.namespace@);
    let r = model_insert(ms, m);
    match model_index(ms, m.namespace@) {
        Some(k) => {
            assert forall|i: int, j: int| 0 <= i < r.len() && 0 <= j < r.len() && i != j
                implies #[trigger] r[i].namespace@ != #[trigger] r[j].namespace@ by {
                assert(r[i].namespace@ == ms[i].namespace@);
                assert(r[j].namespace@ == ms[j].namespace@);
            }
        }
        None => {
            assert forall|i: int, j: int| 0 <= i < r.len() && 0 <= j < r.len() && i != j
                implies #[trigger] r[i].namespace@ != #[trigger] r[j].namespace@ by {
                if i < ms.len() && j < ms.len() {
                    assert(r[i] == ms[i] && r[j] == ms[j]);
                } else if i < ms.len() {
                    assert(r[i] == ms[i] && r[j] == m);
                } else {
                    assert(r[j] == ms[j] && r[i] == m);
                }
            }
        }
    }
}

/// Puts `model` in place of the model of the same namespace, or adds it at
/// the end where there is none.
fn store_model(models: &mut Vec<ModelFile>, model: ModelFile)
    requires
        model_wf(model),
        models_wf(old(models)@),
    ensures
        final(models)@ == model_insert(old(models)@, model),
        models_wf(final(models)@),
{
    let ghost old_ms = models@;
    let n = models.len();
    let mut i: usize = 0;
    while i < n
        invariant
            n == models@.len(),
            models@ == old_ms,
            old(models)@ == old_ms,
            models_wf(old_ms),
            model_wf(model),
            i <= n,
            model_index(old_ms.take(i as int), model.namespace@) is None,
        decreases n - i,
    {
        assert(old_ms.take(i + 1).drop_last() =~= old_ms.take(i as int));
        if str_eq(models[i].namespace.as_str(), model.namespace.as_str()) {
            assert(model_index(old_ms.take(i + 1), model.namespace@) == Some(i as int));
            proof { lemma_model_index_extends(old_ms, model.namespace@, i + 1); }
            models.set(i, model);
            assert(model_index(old_ms, model.namespace@) == Some(i as int));
            assert(models@ == old_ms.update(i as int, model));
            assert(models_wf(models@)) by {
                assert forall|j: int| 0 <= j < models@.len() implies model_wf(#[trigger] models@[j]) by {
                    if j != i { assert(models@[j] == old_ms[j]); }
                }
            }
            return;
        }
        i = i + 1;
    }
    assert(old_ms.take(n as int) =~= old_ms);
    models.push(model);
    assert(models_wf(models@)) by {
        assert forall|j: int| 0 <= j < models@.len() implies model_wf(#[trigger] models@[j]) by {
            if j < old_ms.len() { assert(models@[j] == old_ms[j]); }
        }
    }
}

/// Holds the loaded Concerto models for one validation session.
pub struct ModelManager {
    models: Vec<ModelFile>,
}

impl ModelManager {
    /// The loaded models, in loading order, one per namespace.
    pub closed spec fn spec_models(self) -> Seq<ModelFile> {
        self.models@
    }

    /// Every loaded model is well formed and no two share a namespace:
    /// this holds of every manager.
    #[verifier::type_invariant]
    pub open spec fn wf(self) -> bool {
        models_wf(self.spec_models()) && namespaces_distinct(self.spec_models())
    }

    /// Creates an empty model manager.
    pub fn new() -> (r: ModelManager)
        ensures
            r.spec_models().len() == 0,
    {
        ModelManager { models: Vec::new() }
    }

    /// Stores a loaded model; a model of the same namespace is replaced.
    fn insert_model(&mut self, model: ModelFile)
        requires
            model_wf(model),
        ensures
            final(self).spec_models() == model_insert(old(self).spec_models(), model),
    {
        proof { use_type_invariant(&*self); }
        let mut models: Vec<ModelFile> = Vec::new();
        std::mem::swap(&mut models, &mut self.models);
        let ghost before = models@;
        store_model(&mut models, model);
        proof { lemma_insert_keeps_distinct(before, model); }
        self.models = models;
    }

    /// Loads one Concerto metamodel JSON document. A model of the same
    /// namespace is replaced: the newer one wins. Where the document does
    /// not load, the error is returned and nothing changes.
    pub fn add_model_from_json(&mut self, json: &str) -> (r: Result<(), ConcertoError>)
        ensures
            match spec_load_model_text(json@) {
                Ok(v) => r is Ok && (exists|m: ModelFile| #![trigger model_insert(old(self).spec_models(), m)]
                    m@ == v && model_wf(m) && final(self).spec_models() == model_insert(old(self).spec_models(), m))
                    && replaced_by(final(self).spec_models(), v),
                Err(e) => (r matches Err(x) && x@ == e) && final(self).spec_models() == old(self).spec_models(),
            },
    {
        proof { use_type_invariant(&*self); }
        match load_model_from_json(json) {
            Ok(model_file) => {
                let ghost m = model_file;
                let ghost old_ms = self.spec_models();
                self.insert_model(model_file);
                proof { lemma_stored_model_replaces(old_ms, m); }
                assert(spec_load_model_text(json@) == Ok::<ModelFileView, ErrorView>(m@) && model_wf(m)
                    && self.spec_models() == model_insert(old(self).spec_models(), m));
                Ok(())
            }
            Err(e) => Err(e),
        }
    }

    /// Validates one JSON instance against a named Concerto type, such as
    /// `"org.example@1.0.0.Person"`, collecting every error instead of
    /// stopping at the first. Where the requested type does not resolve, or
    /// a supertype chain loops back on itself, that error is returned.
    pub fn validate_instance(&self, instance: &JsonValue, requested_name: &str) -> (r: Result<ValidationResult, ConcertoError>)
        ensures
            match validation(self.spec_models(), *instance, requested_name@) {
                Ok(es) => r matches Ok(res) && errs_view(res.errors@) == es && res.valid == (es.len() == 0),
                Err(e) => r matches Err(x) && x@ == e,
            },
    {
        crate::validator::instance_validator::validate_instance(self, instance, requested_name)
    }

    fn find_exact(&self, ns: &str) -> (r: Option<&ModelFile>)
        ensures
            match r {
                Some(m) => model_index(self.spec_models(), ns@) matches Some(i) && self.spec_models()[i] == *m,
                None => model_index(self.spec_models(), ns@) is None,
            },
    {
        let n = self.models.len();
        let mut i: usize = 0;
        while i < n
            invariant
                n == self.models@.len(),
                i <= n,
                model_index(self.models@.take(i as int), ns@) is None,
            decreases n - i,
        {
            assert(self.models@.take(i + 1).drop_last() =~= self.models@.take(i as int));
            if str_eq(self.models[i].namespace.as_str(), ns) {
                proof { lemma_model_index_extends(self.models@, ns@, i + 1); }
                return Some(&self.models[i]);
            }
            i = i + 1;
        }
        assert(self.models@.take(n as int) =~= self.models@);
        None
    }

    fn version_stripped<'a>(ns: &'a str) -> (r: &'a str)
        ensures
            r@ == before_at(ns@),
    {
        match find_char(ns, '@') {
            Some(i) => {
                proof { lemma_first_index_bounds(ns@, '@'); }
                let r = ns.substring_char(0, i);
                assert(r@ =~= ns@.take(i as int));
                r
            }
            None => ns,
        }
    }

    fn find_versionless_match(&self, ns: &str) -> (r: Option<&ModelFile>)
        ensures
            match r {
                Some(m) => first_index_of(ns@, '@') is None && versionless_count(self.spec_models(), ns@) == 1
                    && versionless_first(self.spec_models(), ns@) == Some(*m),
                None => !(first_index_of(ns@, '@') is None && versionless_count(self.spec_models(), ns@) == 1),
            },
    {
        if find_char(ns, '@').is_some() {
            return None;
        }
        let n = self.models.len();
        let mut first: Option<&ModelFile> = None;
        let mut i: usize = 0;
        while i < n
            invariant
                n == self.models@.len(),
                i <= n,
                versionless_count(self.models@.take(i as int), ns@) <= 1,
                match first {
                    Some(m) => versionless_count(self.models@.take(i as int), ns@) == 1
                        && versionless_first(self.models@.take(i as int), ns@) == Some(*m),
                    None => versionless_count(self.models@.take(i as int), ns@) == 0
                        && versionless_first(self.models@.take(i as int), ns@) is None,
                },
            decreases n - i,
        {
            assert(self.models@.take(i + 1).drop_last() =~= self.models@.take(i as int));
            let stripped = Self::version_stripped(self.models[i].namespace.as_str());
            if str_eq(stripped, ns) {
                if first.is_some() {
                    proof { lemma_count_grows(self.models@, ns@, i + 1); }
                    return None;
                }
                first = Some(&self.models[i]);
            }
            i = i + 1;
        }
        assert(self.models@.take(n as int) =~= self.models@);
        first
    }

    fn get_model(&self, ns: &str) -> (r: Option<&ModelFile>)
        ensures
            match r {
                Some(m) => spec_get_model(self.spec_models(), ns@) == Some(*m),
                None => spec_get_model(self.spec_models(), ns@) is None,
            },
    {
        match self.find_exact(ns) {
            Some(m) => Some(m),
            None => self.find_versionless_match(ns),
        }
    }

    /// Resolves a fully-qualified type name to a loaded declaration.
    pub fn resolve_type(&self, fqn: &str) -> (r: Result<&Declaration, ConcertoError>)
        ensures
            match r {
                Ok(d) => spec_resolve_type(self.spec_models(), fqn@) == Ok::<Declaration, ErrorView>(*d),
                Err(e) => spec_resolve_type(self.spec_models(), fqn@) == Err::<Declaration, ErrorView>(e@),
            },
    {
        let (namespace, short_name) = match split_fqn(fqn) {
            Some(parts) => parts,
            None => {
                return Err(ConcertoError::TypeNotFound(concat3("can't parse type '", fqn, "'")));
            }
        };
        let model_file = match self.get_model(namespace) {
            Some(m) => m,
            None => {
                return Err(ConcertoError::NamespaceNotFound(concat3("namespace '", namespace, "' isn't loaded")));
            }
        };
        match model_file.get_declaration(short_name) {
            Some(d) => Ok(d),
            None => Err(ConcertoError::TypeNotFound(concat5("type '", short_name, "' not found in '", namespace, "'"))),
        }
    }

    fn decl_in(&self, ns: &str, name: &str) -> (r: Option<&Declaration>)
        ensures
            match r {
                Some(d) => decl_in(self.spec_models(), ns@, name@) == Some(*d),
                None => decl_in(self.spec_models(), ns@, name@) is None,
            },
    {
        match self.get_model(ns) {
            Some(m) => m.get_declaration(name),
            None => None,
        }
    }

    /// Resolves a type name relative to one namespace, including imports:
    /// `TypeNotFound` where nothing visible matches, `NamespaceNotFound`
    /// where the context namespace is not loaded, `Semantic` where wildcard
    /// imports make the name ambiguous.
    pub fn resolve_type_in_context(&self, type_ref_name: &str, context_namespace: &str) -> (r: Result<&Declaration, ConcertoError>)
        ensures
            match r {
                Ok(d) => spec_resolve_in_context(self.spec_models(), type_ref_name@, context_namespace@)
                    == Ok::<Declaration, ErrorView>(*d),
                Err(e) => spec_resolve_in_context(self.spec_models(), type_ref_name@, context_namespace@)
                    == Err::<Declaration, ErrorView>(e@),
            },
    {
        if split_fqn(type_ref_name).is_some() {
            return self.resolve_type(type_ref_name);
        }
        let model_file = match self.get_model(context_namespace) {
            Some(m) => m,
            None => {
                return Err(ConcertoError::NamespaceNotFound(concat5("can't resolve '", type_ref_name,
                    "' -- namespace '", context_namespace, "' isn't loaded")));
            }
        };
        if let Some(local_decl) = model_file.get_declaration(type_ref_name) {
            return Ok(local_decl);
        }
        if let Some(imported_fqn) = model_file.imports.explicit_lookup(type_ref_name) {
            return self.resolve_type(imported_fqn);
        }
        let wild = &model_file.imports.wildcard_namespaces;
        let n = wild.len();
        let mut found: Option<&Declaration> = None;
        let mut count: usize = 0;
        let mut i: usize = 0;
        while i < n
            invariant
                n == wild@.len(),
                i <= n,
                count <= i,
                count == wildcard_count(self.spec_models(), wild@.take(i as int), type_ref_name@),
                match found {
                    Some(d) => wildcard_first(self.spec_models(), wild@.take(i as int), type_ref_name@) == Some(*d),
                    None => wildcard_first(self.spec_models(), wild@.take(i as int), type_ref_name@) is None,
                },
            decreases n - i,
        {
            assert(wild@.take(i + 1).drop_last() =~= wild@.take(i as int));
            match self.decl_in(wild[i].as_str(), type_ref_name) {
                Some(d) => {
                    count = count + 1;
                    if found.is_none() {
                        found = Some(d);
                    }
                }
                None => {}
            }
            i = i + 1;
        }
        assert(wild@.take(n as int) =~= wild@);
        if count == 1 {
            proof { lemma_wildcard_first_some(self.spec_models(), wild@, type_ref_name@); }
            return Ok(found.unwrap());
        }
        if count > 1 {
            return Err(ConcertoError::Semantic(concat5("'", type_ref_name, "' is ambiguous in '", context_namespace, "'")));
        }
        Err(ConcertoError::TypeNotFound(concat5("can't resolve '", type_ref_name, "' in '", context_namespace, "'")))
    }

    /// Returns the imports recorded for one loaded namespace.
    pub fn imports_for(&self, namespace: &str) -> (r: Option<&Imports>)
        ensures
            match r {
                Some(im) => spec_get_model(self.spec_models(), namespace@) matches Some(m) && m.imports == *im,
                None => spec_get_model(self.spec_models(), namespace@) is None,
            },
    {
        match self.get_model(namespace) {
            Some(m) => Some(&m.imports),
            None => None,
        }
    }

    /// All loaded namespace strings, in loading order.
    pub fn namespaces(&self) -> (r: Vec<&str>)
        ensures
            r@.len() == self.spec_models().len(),
            forall|i: int| 0 <= i < r@.len() ==> r@[i]@ == self.spec_models()[i].namespace@,
    {
        let mut out: Vec<&str> = Vec::new();
        let n = self.models.len();
        let mut i: usize = 0;
        while i < n
            invariant
                n == self.models@.len(),
                i <= n,
                out@.len() == i,
                forall|j: int| 0 <= j < i ==> out@[j]@ == self.models@[j].namespace@,
            decreases n - i,
        {
            out.push(self.models[i].namespace.as_str());
            i = i + 1;
        }
        out
    }

    /// Every declaration from every loaded model, model by model.
    pub fn all_declarations(&self) -> (r: Vec<&Declaration>)
        ensures
            r@.len() == all_decls(self.spec_models()).len(),
            forall|i: int| 0 <= i < r@.len() ==> *r@[i] == all_decls(self.spec_models())[i],
    {
        let mut out: Vec<&Declaration> = Vec::new();
        let n = self.models.len();
        let mut i: usize = 0;
        while i < n
            invariant
                n == self.models@.len(),
                i <= n,
                out@.len() == all_decls(self.models@.take(i as int)).len(),
                forall|j: int| 0 <= j < out@.len() ==> *out@[j] == all_decls(self.models@.take(i as int))[j],
            decreases n - i,
        {
            assert(self.models@.take(i + 1).drop_last() =~= self.models@.take(i as int));
            let ds = &self.models[i].declarations;
            let ghost before = out@;
            let m = ds.len();
            let mut k: usize = 0;
            while k < m
                invariant
                    m == ds@.len(),
                    k <= m,
                    out@.len() == before.len() + k,
                    forall|j: int| 0 <= j < before.len() ==> out@[j] == before[j],
                    forall|j: int| 0 <= j < k ==> *out@[before.len() + j] == ds@[j],
                decreases m - k,
            {
                out.push(&ds[k]);
                k = k + 1;
            }
            assert(all_decls(self.models@.take(i + 1)) =~= all_decls(self.models@.take(i as int)) + ds@);
            assert forall|j: int| 0 <= j < out@.len() implies *out@[j] == all_decls(self.models@.take(i + 1))[j] by {
                let a = all_decls(self.models@.take(i as int));
                assert(before.len() == a.len());
                if j >= before.len() {
                    assert(*out@[before.len() + (j - before.len())] == ds@[j - before.len()]);
                    assert((a + ds@)[j] == ds@[j - a.len()]);
                } else {
                    assert(out@[j] == before[j]);
                    assert((a + ds@)[j] == a[j]);
                }
            }
            i = i + 1;
        }
        assert(self.models@.take(n as int) =~= self.models@);
        out
    }
}

/// All declarations of all models, model by model.
pub open spec fn all_decls(ms: Seq<ModelFile>) -> Seq<Declaration>
    decreases ms.len(),
{
    if ms.len() == 0 { Seq::empty() } else { all_decls(ms.drop_last()) + ms.last().declarations@ }
}

proof fn lemma_count_grows(ms: Seq<ModelFile>, ns: Seq<char>, k: int)
    requires
        0 <= k <= ms.len(),
        versionless_count(ms.take(k), ns) >= 2,
    ensures
        versionless_count(ms, ns) >= 2,
    decreases ms.len() - k,
{
    if k < ms.len() {
        assert(ms.take(k + 1).drop_last() =~= ms.take(k));
        lemma_count_grows(ms, ns, k + 1);
    } else {
        assert(ms.take(k) =~= ms);
    }
}

proof fn lemma_wildcard_first_some(ms: Seq<ModelFile>, wild: Seq<String>, name: Seq<char>)
    ensures
        wildcard_count(ms, wild, name) > 0 ==> wildcard_first(ms, wild, name) is Some,
    decreases wild.len(),
{
    if wild.len() > 0 {
        lemma_wildcard_first_some(ms, wild.drop_last(), name);
    }
}


proof fn lemma_versionless_first_in(ms: Seq<ModelFile>, ns: Seq<char>)
    ensures
        versionless_first(ms, ns) matches Some(m) ==> ms.contains(m),
    decreases ms.len(),
{
    if ms.len() > 0 {
        lemma_versionless_first_in(ms.drop_last(), ns);
        if versionless_first(ms.drop_last(), ns) is Some {
            let m = versionless_first(ms.drop_last(), ns).unwrap();
            let j = choose|j: int| 0 <= j < ms.drop_last().len() && ms.drop_last()[j] == m;
            assert(ms[j] == m);
        } else {
            assert(ms[ms.len() - 1] == ms.last());
        }
    }
}

/// A model that a namespace names is one of the loaded models.
pub proof fn lemma_get_model_in(ms: Seq<ModelFile>, ns: Seq<char>)
    ensures
        spec_get_model(ms, ns) matches Some(m) ==> ms.contains(m),
{
    lemma_model_index_bounds(ms, ns);
    lemma_versionless_first_in(ms, ns);
}

/// Every declaration of every loaded model is among `all_decls`.
pub proof fn lemma_all_decls_has(ms: Seq<ModelFile>, i: int, j: int)
    requires
        0 <= i < ms.len(),
        0 <= j < ms[i].declarations@.len(),
    ensures
        all_decls(ms).contains(ms[i].declarations@[j]),
    decreases ms.len(),
{
    let a = all_decls(ms.drop_last());
    let ds = ms.last().declarations@;
    assert(all_decls(ms) == a + ds);
    if i == ms.len() - 1 {
        assert((a + ds)[a.len() + j] == ds[j]);
    } else {
        lemma_all_decls_has(ms.drop_last(), i, j);
        let k = choose|k: int| 0 <= k < a.len() && a[k] == ms.drop_last()[i].declarations@[j];
        assert((a + ds)[k] == a[k]);
    }
}

/// A declaration found in a loaded model is among `all_decls`.
pub proof fn lemma_found_decl_in(ms: Seq<ModelFile>, m: ModelFile, name: Seq<char>)
    requires
        ms.contains(m),
    ensures
        m.spec_get_declaration(name) matches Some(d) ==> all_decls(ms).contains(d),
{
    crate::model_file::lemma_decl_index_bounds(m.declarations@, name);
    if m.spec_get_declaration(name) is Some {
        let i = choose|i: int| 0 <= i < ms.len() && ms[i] == m;
        let j = crate::model_file::decl_index(m.declarations@, name).unwrap();
        lemma_all_decls_has(ms, i, j);
    }
}

proof fn lemma_decl_in_in(ms: Seq<ModelFile>, ns: Seq<char>, name: Seq<char>)
    ensures
        decl_in(ms, ns, name) matches Some(d) ==> all_decls(ms).contains(d),
{
    lemma_get_model_in(ms, ns);
    if spec_get_model(ms, ns) is Some {
        lemma_found_decl_in(ms, spec_get_model(ms, ns).unwrap(), name);
    }
}

proof fn lemma_wildcard_first_in(ms: Seq<ModelFile>, wild: Seq<String>, name: Seq<char>)
    ensures
        wildcard_first(ms, wild, name) matches Some(d) ==> all_decls(ms).contains(d),
    decreases wild.len(),
{
    if wild.len() > 0 {
        lemma_wildcard_first_in(ms, wild.drop_last(), name);
        lemma_decl_in_in(ms, wild.last()@, name);
    }
}

/// What resolution finds is a declaration of a loaded model.
pub proof fn lemma_resolved_in(ms: Seq<ModelFile>, fqn: Seq<char>)
    ensures
        spec_resolve_type(ms, fqn) matches Ok(d) ==> all_decls(ms).contains(d),
{
    if let Some((ns, short)) = spec_split_fqn(fqn) {
        lemma_get_model_in(ms, ns);
        if spec_get_model(ms, ns) is Some {
            lemma_found_decl_in(ms, spec_get_model(ms, ns).unwrap(), short);
        }
    }
}

/// What resolution in a namespace finds is a declaration of a loaded model.
pub proof fn lemma_resolved_in_context_in(ms: Seq<ModelFile>, tn: Seq<char>, ctx: Seq<char>)
    ensures
        spec_resolve_in_context(ms, tn, ctx) matches Ok(d) ==> all_decls(ms).contains(d),
{
    lemma_resolved_in(ms, tn);
    lemma_get_model_in(ms, ctx);
    if spec_split_fqn(tn) is None && spec_get_model(ms, ctx) is Some {
        let m = spec_get_model(ms, ctx).unwrap();
        lemma_found_decl_in(ms, m, tn);
        match import_lookup(m.imports.explicit@, tn) {
            Some(f) => { lemma_resolved_in(ms, f); }
            None => {
                lemma_wildcard_first_in(ms, m.imports.wildcard_namespaces@, tn);
                lemma_wildcard_first_some(ms, m.imports.wildcard_namespaces@, tn);
            }
        }
    }
}


impl Default for ModelManager {
    /// An empty model manager.
    fn default() -> (r: ModelManager)
        ensures
            r.spec_models().len() == 0,
    {
        ModelManager::new()
    }
}

/// Loading a model makes its namespace name it: the newer model wins over
/// one loaded before under the same namespace.
pub proof fn lemma_newer_model_wins(ms: Seq<ModelFile>, m: ModelFile)
    ensures
        spec_get_model(model_insert(ms, m), m.namespace@) == Some(m),
        model_insert(ms, m).contains(m),
{
    let ns = m.namespace@;
    lemma_model_index_bounds(ms, ns);
    match model_index(ms, ns) {
        Some(i) => {
            lemma_model_index_update(ms, i, m, ns);
            assert(ms.update(i, m)[i] == m);
        }
        None => {
            assert(ms.push(m).drop_last() =~= ms);
            assert(ms.push(m)[ms.len() as int] == m);
        }
    }
}

/// Loading a model leaves what the exact name of any other loaded
/// namespace names as it was.
pub proof fn lemma_other_models_kept(ms: Seq<ModelFile>, m: ModelFile, ns: Seq<char>)
    requires
        ns != m.namespace@,
        model_index(ms, ns) is Some,
    ensures
        spec_get_model(model_insert(ms, m), ns) == spec_get_model(ms, ns),
{
    lemma_model_index_bounds(ms, m.namespace@);
    match model_index(ms, m.namespace@) {
        Some(i) => {
            lemma_model_index_bounds(ms, ns);
            lemma_model_index_update(ms, i, m, ns);
            let j = model_index(ms, ns).unwrap();
            assert(j != i);
            assert(ms.update(i, m)[j] == ms[j]);
        }
        None => {
            lemma_model_index_bounds(ms, ns);
            assert(ms.push(m).drop_last() =~= ms);
            let j = model_index(ms, ns).unwrap();
            assert(ms.push(m)[j] == ms[j]);
        }
    }
}

/// A type declared in a loaded model resolves by its fully-qualified name
/// right after the model is loaded (short names hold no `.`).
pub proof fn lemma_resolve_after_load(ms: Seq<ModelFile>, m: ModelFile, name: Seq<char>)
    requires
        m.spec_get_declaration(name) is Some,
        forall|j: int| 0 <= j < name.len() ==> name[j] != '.',
    ensures
        spec_resolve_type(model_insert(ms, m), m.namespace@ + "."@ + name) == Ok::<Declaration, ErrorView>(
            m.spec_get_declaration(name).unwrap(),
        ),
{
    crate::validator::type_resolver::lemma_split_joined(m.namespace@, name);
    lemma_newer_model_wins(ms, m);
}


proof fn lemma_versionless_count_positive(ms: Seq<ModelFile>, m: ModelFile, ns: Seq<char>)
    requires
        ms.contains(m),
        before_at(m.namespace@) == ns,
    ensures
        versionless_count(ms, ns) >= 1,
    decreases ms.len(),
{
    if ms.last() != m {
        let i = choose|i: int| 0 <= i < ms.len() && ms[i] == m;
        assert(i != ms.len() - 1);
        assert(ms.drop_last()[i] == m);
        lemma_versionless_count_positive(ms.drop_last(), m, ns);
    }
}

proof fn lemma_versionless_unique(ms: Seq<ModelFile>, m: ModelFile, ns: Seq<char>)
    requires
        ms.contains(m),
        before_at(m.namespace@) == ns,
        versionless_count(ms, ns) == 1,
    ensures
        versionless_first(ms, ns) == Some(m),
    decreases ms.len(),
{
    let rest = ms.drop_last();
    if before_at(ms.last().namespace@) == ns {
        if ms.last() != m {
            let i = choose|i: int| 0 <= i < ms.len() && ms[i] == m;
            assert(rest[i] == m);
            lemma_versionless_count_positive(rest, m, ns);
        }
        lemma_versionless_none(rest, ns);
    } else {
        let i = choose|i: int| 0 <= i < ms.len() && ms[i] == m;
        assert(i != ms.len() - 1);
        assert(rest[i] == m);
        lemma_versionless_unique(rest, m, ns);
    }
}

proof fn lemma_versionless_none(ms: Seq<ModelFile>, ns: Seq<char>)
    ensures
        versionless_count(ms, ns) == 0 ==> versionless_first(ms, ns) is None,
    decreases ms.len(),
{
    if ms.len() > 0 {
        lemma_versionless_none(ms.drop_last(), ns);
    }
}

/// A namespace written without its version names the one loaded model
/// whose namespace it is, version aside, when no other loaded model has it
/// and none is loaded under that exact name (loaded models have distinct
/// namespaces).
pub proof fn lemma_versionless_name_finds_model(ms: Seq<ModelFile>, m: ModelFile, ns: Seq<char>)
    requires
        ms.contains(m),
        before_at(m.namespace@) == ns,
        first_index_of(ns, '@') is None,
        model_index(ms, ns) is None,
        forall|i: int| 0 <= i < ms.len() && before_at(#[trigger] ms[i].namespace@) == ns ==> ms[i] == m,
        namespaces_distinct(ms),
    ensures
        spec_get_model(ms, ns) == Some(m),
{
    assert(ms.no_duplicates()) by {
        assert forall|a: int, b: int| 0 <= a < ms.len() && 0 <= b < ms.len() && a != b implies ms[a] != ms[b] by {
            assert(ms[a].namespace@ != ms[b].namespace@);
        }
    }
    lemma_versionless_count_one(ms, m, ns);
    lemma_versionless_unique(ms, m, ns);
}

proof fn lemma_versionless_count_one(ms: Seq<ModelFile>, m: ModelFile, ns: Seq<char>)
    requires
        ms.contains(m),
        before_at(m.namespace@) == ns,
        forall|i: int| 0 <= i < ms.len() && before_at(#[trigger] ms[i].namespace@) == ns ==> ms[i] == m,
        ms.no_duplicates(),
    ensures
        versionless_count(ms, ns) == 1,
    decreases ms.len(),
{
    let rest = ms.drop_last();
    assert forall|i: int| 0 <= i < rest.len() && before_at(#[trigger] rest[i].namespace@) == ns implies rest[i] == m by {
        assert(rest[i] == ms[i]);
    }
    assert(rest.no_duplicates()) by {
        assert forall|a: int, b: int| 0 <= a < rest.len() && 0 <= b < rest.len() && a != b implies rest[a] != rest[b] by {
            assert(rest[a] == ms[a] && rest[b] == ms[b]);
        }
    }
    if ms.last() == m {
        assert forall|i: int| 0 <= i < rest.len() implies before_at(#[trigger] rest[i].namespace@) != ns by {
            assert(rest[i] == ms[i]);
            if before_at(rest[i].namespace@) == ns {
                assert(ms[i] == m);
                assert(ms[i] == ms[ms.len() - 1]);
            }
        }
        lemma_versionless_zero(rest, ns);
    } else {
        let i = choose|i: int| 0 <= i < ms.len() && ms[i] == m;
        assert(rest[i] == m);
        assert(before_at(ms.last().namespace@) != ns) by {
            if before_at(ms[ms.len() - 1].namespace@) == ns {
                assert(ms[ms.len() - 1] == m);
            }
        }
        lemma_versionless_count_one(rest, m, ns);
    }
}

proof fn lemma_versionless_zero(ms: Seq<ModelFile>, ns: Seq<char>)
    requires
        forall|i: int| 0 <= i < ms.len() ==> before_at(#[trigger] ms[i].namespace@) != ns,
    ensures
        versionless_count(ms, ns) == 0,
    decreases ms.len(),
{
    if ms.len() > 0 {
        let rest = ms.drop_last();
        assert forall|i: int| 0 <= i < rest.len() implies before_at(#[trigger] rest[i].namespace@) != ns by {
            assert(rest[i] == ms[i]);
        }
        assert(before_at(ms[ms.len() - 1].namespace@) != ns);
        lemma_versionless_zero(rest, ns);
    }
}


/// After loading a model `v`: exactly one loaded model has `v`'s namespace,
/// and a short name (one without a dot) resolves under that namespace
/// exactly when `v` declares it, so a newer model of a namespace replaces
/// the older one wholesale.
pub open spec fn replaced_by(ms: Seq<ModelFile>, v: ModelFileView) -> bool {
    &&& exists|i: int| 0 <= i < ms.len() && #[trigger] ms[i].namespace@ == v.namespace
    &&& forall|i: int, j: int| 0 <= i < ms.len() && 0 <= j < ms.len()
        && #[trigger] ms[i].namespace@ == v.namespace && #[trigger] ms[j].namespace@ == v.namespace ==> i == j
    &&& forall|name: Seq<char>| (forall|j: int| 0 <= j < name.len() ==> name[j] != '.') ==>
        ((spec_resolve_type(ms, v.namespace + "."@ + name) is Ok) == #[trigger] v.declarations.dom().contains(name))
}

/// Storing a model into a list with distinct namespaces gives a list that
/// the model replaces into (see `replaced_by`).
pub proof fn lemma_stored_model_replaces(ms: Seq<ModelFile>, m: ModelFile)
    requires
        namespaces_distinct(ms),
    ensures
        replaced_by(model_insert(ms, m), m@),
        namespaces_distinct(model_insert(ms, m)),
{
    let r = model_insert(ms, m);
    lemma_insert_keeps_distinct(ms, m);
    lemma_newer_model_wins(ms, m);
    let k = choose|k: int| 0 <= k < r.len() && r[k] == m;
    assert(r[k].namespace@ == m.namespace@);
    assert forall|name: Seq<char>| (forall|j: int| 0 <= j < name.len() ==> name[j] != '.') implies
        ((spec_resolve_type(r, m.namespace@ + "."@ + name) is Ok) == #[trigger] m@.declarations.dom().contains(name)) by {
        crate::validator::type_resolver::lemma_split_joined(m.namespace@, name);
    }
}


proof fn lemma_wildcard_none(ms: Seq<ModelFile>, wild: Seq<String>, name: Seq<char>)
    requires
        forall|j: int| 0 <= j < wild.len() ==> decl_in(ms, (#[trigger] wild[j])@, name) is None,
    ensures
        wildcard_count(ms, wild, name) == 0,
        wildcard_first(ms, wild, name) is None,
    decreases wild.len(),
{
    if wild.len() > 0 {
        let rest = wild.drop_last();
        assert forall|j: int| 0 <= j < rest.len() implies decl_in(ms, (#[trigger] rest[j])@, name) is None by {
            assert(rest[j] == wild[j]);
        }
        assert(wild.last() == wild[wild.len() - 1]);
        lemma_wildcard_none(ms, rest, name);
    }
}

proof fn lemma_wildcard_single(ms: Seq<ModelFile>, wild: Seq<String>, name: Seq<char>, k: int, d: Declaration)
    requires
        0 <= k < wild.len(),
        decl_in(ms, wild[k]@, name) == Some(d),
        forall|j: int| 0 <= j < wild.len() && j != k ==> decl_in(ms, (#[trigger] wild[j])@, name) is None,
    ensures
        wildcard_count(ms, wild, name) == 1,
        wildcard_first(ms, wild, name) == Some(d),
    decreases wild.len(),
{
    let rest = wild.drop_last();
    assert(wild.last() == wild[wild.len() - 1]);
    if k == wild.len() - 1 {
        assert forall|j: int| 0 <= j < rest.len() implies decl_in(ms, (#[trigger] rest[j])@, name) is None by {
            assert(rest[j] == wild[j]);
        }
        lemma_wildcard_none(ms, rest, name);
    } else {
        assert(rest[k] == wild[k]);
        assert forall|j: int| 0 <= j < rest.len() && j != k implies decl_in(ms, (#[trigger] rest[j])@, name) is None by {
            assert(rest[j] == wild[j]);
        }
        lemma_wildcard_single(ms, rest, name, k, d);
    }
}

/// A short name that the context namespace neither declares nor imports
/// explicitly, and that exactly one of its wildcard-imported namespaces
/// declares, resolves to that namespace's declaration.
pub proof fn lemma_single_wildcard_resolves(ms: Seq<ModelFile>, tn: Seq<char>, ctx: Seq<char>, k: int, d: Declaration)
    requires
        spec_split_fqn(tn) is None,
        spec_get_model(ms, ctx) matches Some(m) && m.spec_get_declaration(tn) is None
            && import_lookup(m.imports.explicit@, tn) is None
            && 0 <= k < m.imports.wildcard_namespaces@.len()
            && decl_in(ms, m.imports.wildcard_namespaces@[k]@, tn) == Some(d)
            && forall|j: int| 0 <= j < m.imports.wildcard_namespaces@.len() && j != k
                ==> decl_in(ms, (#[trigger] m.imports.wildcard_namespaces@[j])@, tn) is None,
    ensures
        spec_resolve_in_context(ms, tn, ctx) == Ok::<Declaration, ErrorView>(d),
{
    let m = spec_get_model(ms, ctx).unwrap();
    lemma_wildcard_single(ms, m.imports.wildcard_namespaces@, tn, k, d);
}

proof fn lemma_wildcard_two(ms: Seq<ModelFile>, wild: Seq<String>, name: Seq<char>, a: int, b: int)
    requires
        0 <= a < b < wild.len(),
        decl_in(ms, wild[a]@, name) is Some,
        decl_in(ms, wild[b]@, name) is Some,
    ensures
        wildcard_count(ms, wild, name) >= 2,
    decreases wild.len(),
{
    let rest = wild.drop_last();
    assert(wild.last() == wild[wild.len() - 1]);
    if b == wild.len() - 1 {
        assert(rest[a] == wild[a]);
        lemma_wildcard_one(ms, rest, name, a);
    } else {
        assert(rest[a] == wild[a] && rest[b] == wild[b]);
        lemma_wildcard_two(ms, rest, name, a, b);
    }
}

proof fn lemma_wildcard_one(ms: Seq<ModelFile>, wild: Seq<String>, name: Seq<char>, a: int)
    requires
        0 <= a < wild.len(),
        decl_in(ms, wild[a]@, name) is Some,
    ensures
        wildcard_count(ms, wild, name) >= 1,
    decreases wild.len(),
{
    let rest = wild.drop_last();
    assert(wild.last() == wild[wild.len() - 1]);
    if a < wild.len() - 1 {
        assert(rest[a] == wild[a]);
        lemma_wildcard_one(ms, rest, name, a);
    }
}

/// A short name that the context namespace neither declares nor imports
/// explicitly, and that two of its wildcard-imported namespaces declare, is
/// ambiguous there.
pub proof fn lemma_two_wildcards_ambiguous(ms: Seq<ModelFile>, tn: Seq<char>, ctx: Seq<char>, a: int, b: int)
    requires
        spec_split_fqn(tn) is None,
        spec_get_model(ms, ctx) matches Some(m) && m.spec_get_declaration(tn) is None
            && import_lookup(m.imports.explicit@, tn) is None
            && 0 <= a < b < m.imports.wildcard_namespaces@.len()
            && decl_in(ms, m.imports.wildcard_namespaces@[a]@, tn) is Some
            && decl_in(ms, m.imports.wildcard_namespaces@[b]@, tn) is Some,
    ensures
        spec_resolve_in_context(ms, tn, ctx) is Err,
        spec_resolve_in_context(ms, tn, ctx)->Err_0 is Semantic,
{
    let m = spec_get_model(ms, ctx).unwrap();
    lemma_wildcard_two(ms, m.imports.wildcard_namespaces@, tn, a, b);
}

} // verus!
