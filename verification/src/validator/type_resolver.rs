//! Type-name splitting.

use vstd::prelude::*;
use vstd::string::*;
use crate::text::{last_index_of, lemma_last_index_bounds, rfind_char};
use crate::declaration::Declaration;
use crate::error::{ConcertoError, ErrorView};
use crate::model_manager::{ModelManager, spec_resolve_type, spec_resolve_in_context};

verus! {

/// `fqn` split at its last `.` into namespace and short name.
pub open spec fn spec_split_fqn(fqn: Seq<char>) -> Option<(Seq<char>, Seq<char>)> {
    match last_index_of(fqn, '.') {
        Some(i) => Some((fqn.take(i), fqn.skip(i + 1))),
        None => None,
    }
}

/// Splits a fully-qualified name at its last `.`: namespaces may hold dots,
/// short names do not.
pub fn split_fqn(fqn: &str) -> (r: Option<(&str, &str)>)
    ensures
        match r {
            Some((ns, name)) => spec_split_fqn(fqn@) == Some((ns@, name@)),
            None => spec_split_fqn(fqn@) is None,
        },
{
    match rfind_char(fqn, '.') {
        Some(pos) => {
            proof { lemma_last_index_bounds(fqn@, '.'); }
            let n = fqn.unicode_len();
            let ns = fqn.substring_char(0, pos);
            let name = fqn.substring_char(pos + 1, n);
            assert(ns@ =~= fqn@.take(pos as int));
            assert(name@ =~= fqn@.skip(pos + 1));
            Some((ns, name))
        }
        None => None,
    }
}


proof fn lemma_last_dot_is_joint(ns: Seq<char>, name: Seq<char>)
    requires
        forall|j: int| 0 <= j < name.len() ==> name[j] != '.',
    ensures
        last_index_of(ns + "."@ + name, '.') == Some(ns.len() as int),
    decreases name.len(),
{
    reveal_strlit(".");
    let s = ns + "."@ + name;
    if name.len() == 0 {
        assert(s.last() == '.');
    } else {
        assert(s.drop_last() =~= ns + "."@ + name.drop_last());
        assert(s.last() == name.last());
        lemma_last_dot_is_joint(ns, name.drop_last());
    }
}

/// Splitting `namespace.name` gives back the namespace, dots and all, and
/// the short name (which holds no dot).
pub proof fn lemma_split_joined(ns: Seq<char>, name: Seq<char>)
    requires
        forall|j: int| 0 <= j < name.len() ==> name[j] != '.',
    ensures
        spec_split_fqn(ns + "."@ + name) == Some((ns, name)),
{
    reveal_strlit(".");
    lemma_last_dot_is_joint(ns, name);
    let s = ns + "."@ + name;
    assert(s.take(ns.len() as int) =~= ns);
    assert(s.skip(ns.len() as int + 1) =~= name);
}


/// Resolves a fully-qualified type name (see `ModelManager::resolve_type`).
pub fn resolve<'a>(mm: &'a ModelManager, fqn: &str) -> (r: Result<&'a Declaration, ConcertoError>)
    ensures
        match r {
            Ok(d) => spec_resolve_type(mm.spec_models(), fqn@) == Ok::<Declaration, ErrorView>(*d),
            Err(e) => spec_resolve_type(mm.spec_models(), fqn@) == Err::<Declaration, ErrorView>(e@),
        },
{
    mm.resolve_type(fqn)
}

/// Resolves a type name seen in a namespace (see
/// `ModelManager::resolve_type_in_context`).
pub fn resolve_in_context<'a>(mm: &'a ModelManager, type_ref_name: &str, context_namespace: &str) -> (r: Result<&'a Declaration, ConcertoError>)
    ensures
        match r {
            Ok(d) => spec_resolve_in_context(mm.spec_models(), type_ref_name@, context_namespace@)
                == Ok::<Declaration, ErrorView>(*d),
            Err(e) => spec_resolve_in_context(mm.spec_models(), type_ref_name@, context_namespace@)
                == Err::<Declaration, ErrorView>(e@),
        },
{
    mm.resolve_type_in_context(type_ref_name, context_namespace)
}

} // verus!
