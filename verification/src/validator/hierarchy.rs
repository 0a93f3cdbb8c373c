//! Walking the supertype chain: assignability and inherited properties.
//!
//! Both walks remember the fully-qualified names they have passed and stop
//! with `CircularDependency` when one comes round again. Past its starting
//! declaration a chain of distinct names passes only loaded declarations, so
//! a walk given one step more than their number never runs out of steps.

use vstd::prelude::*;
use crate::validator::type_resolver::{resolve, resolve_in_context};
use crate::declaration::{Declaration, prop_index, lemma_prop_index_bounds,
    lemma_prop_index_extends, lemma_prop_index_update};
use crate::error::{ConcertoError, ErrorView};
use crate::model_manager::{ModelManager, all_decls, spec_resolve_in_context, lemma_resolved_in_context_in};
use crate::property::Property;
use crate::text::{str_eq, dotted, concat3};
use crate::validator::report::{ErrView, KindView, ValidationError, ErrorKind, verr, errs_view, new_error,
    push_error, strings_view};

verus! {

/// The fully-qualified names of all loaded declarations.
pub open spec fn all_fqns(ms: Seq<crate::model_file::ModelFile>) -> Seq<Seq<char>> {
    all_decls(ms).map_values(|d: Declaration| d.spec_fqn())
}

/// One step more than the longest chain of distinct declarations.
pub open spec fn walk_fuel(ms: Seq<crate::model_file::ModelFile>) -> nat {
    all_decls(ms).len() + 1
}

/// The names a walk has passed: distinct, and each after the first the
/// name of a loaded declaration (the walk may start anywhere; each step
/// after that resolves a supertype among the loaded models).
pub open spec fn walk_ok(ms: Seq<crate::model_file::ModelFile>, visited: Seq<Seq<char>>) -> bool {
    &&& visited.no_duplicates()
    &&& forall|i: int| 1 <= i < visited.len() ==> all_fqns(ms).contains(#[trigger] visited[i])
}

proof fn lemma_loaded_names_bound(ms: Seq<crate::model_file::ModelFile>, names: Seq<Seq<char>>)
    requires
        names.no_duplicates(),
        forall|i: int| 0 <= i < names.len() ==> all_fqns(ms).contains(#[trigger] names[i]),
    ensures
        names.len() <= all_decls(ms).len(),
{
    let fq = all_fqns(ms);
    names.unique_seq_to_set();
    fq.lemma_cardinality_of_set();
    assert(names.to_set().subset_of(fq.to_set())) by {
        assert forall|x: Seq<char>| names.to_set().contains(x) implies fq.to_set().contains(x) by {
            let i = choose|i: int| 0 <= i < names.len() && names[i] == x;
            assert(all_fqns(ms).contains(names[i]));
        }
    }
    vstd::seq_lib::seq_to_set_is_finite(fq);
    vstd::set_lib::lemma_len_subset(names.to_set(), fq.to_set());
}

/// A walk never passes more names than one more than there are loaded
/// declarations.
pub proof fn lemma_visited_bound(ms: Seq<crate::model_file::ModelFile>, visited: Seq<Seq<char>>)
    requires
        walk_ok(ms, visited),
    ensures
        visited.len() <= all_decls(ms).len() + 1,
{
    if visited.len() > 0 {
        let tail = visited.drop_first();
        assert forall|i: int| 0 <= i < tail.len() implies all_fqns(ms).contains(#[trigger] tail[i]) by {
            assert(tail[i] == visited[i + 1]);
        }
        assert(tail.no_duplicates()) by {
            assert forall|a: int, b: int| 0 <= a < tail.len() && 0 <= b < tail.len() && a != b implies tail[a] != tail[b] by {
                assert(tail[a] == visited[a + 1] && tail[b] == visited[b + 1]);
            }
        }
        lemma_loaded_names_bound(ms, tail);
    }
}

/// A walk that passes one more new name (of a loaded declaration, after the
/// first step) stays within bounds.
proof fn lemma_walk_step(ms: Seq<crate::model_file::ModelFile>, visited: Seq<Seq<char>>, d: Declaration)
    requires
        walk_ok(ms, visited),
        visited.len() == 0 || all_decls(ms).contains(d),
        !visited.contains(d.spec_fqn()),
    ensures
        walk_ok(ms, visited.push(d.spec_fqn())),
        visited.len() + 1 <= all_decls(ms).len() + 1,
{
    let v2 = visited.push(d.spec_fqn());
    if visited.len() > 0 {
        let j = choose|j: int| 0 <= j < all_decls(ms).len() && all_decls(ms)[j] == d;
        assert(all_fqns(ms)[j] == d.spec_fqn());
    }
    assert forall|i: int| 1 <= i < v2.len() implies all_fqns(ms).contains(#[trigger] v2[i]) by {
        if i < visited.len() {
            assert(v2[i] == visited[i]);
        }
    }
    assert(v2.no_duplicates()) by {
        assert forall|a: int, b: int| 0 <= a < v2.len() && 0 <= b < v2.len() && a != b implies v2[a] != v2[b] by {
            if a < visited.len() && b < visited.len() {
                assert(v2[a] == visited[a] && v2[b] == visited[b]);
            } else if a < visited.len() {
                assert(v2[a] == visited[a]);
            } else if b < visited.len() {
                assert(v2[b] == visited[b]);
            }
        }
    }
    lemma_visited_bound(ms, v2);
}

/// The supertype walk from `cur`: `true` once a supertype has the
/// requested namespace and name, `false` where the chain ends (or leaves
/// the class-like declarations), an error where a supertype does not
/// resolve or a name comes round again.
pub open spec fn supertype_walk(
    ms: Seq<crate::model_file::ModelFile>,
    cur: Declaration,
    req: Declaration,
    visited: Seq<Seq<char>>,
    fuel: nat,
) -> Result<bool, ErrorView>
    decreases fuel,
{
    match cur.spec_class() {
        None => Ok(false),
        Some(c) => {
            let f = cur.spec_fqn();
            if visited.contains(f) || fuel == 0 {
                Err(ErrorView::CircularDependency(f))
            } else {
                match c.super_type {
                    None => Ok(false),
                    Some(st) => match spec_resolve_in_context(ms, st@, c.namespace@) {
                        Err(e) => Err(e),
                        Ok(d) => if d.spec_namespace() == req.spec_namespace() && d.spec_name() == req.spec_name() {
                            Ok(true)
                        } else {
                            supertype_walk(ms, d, req, visited.push(f), (fuel - 1) as nat)
                        },
                    },
                }
            }
        }
    }
}

/// Whether an instance of `actual` may stand where `req` is asked for:
/// it is `req`, or `req` is among its supertypes.
pub open spec fn assignable(ms: Seq<crate::model_file::ModelFile>, actual: Declaration, req: Declaration) -> Result<bool, ErrorView> {
    if actual.spec_namespace() == req.spec_namespace() && actual.spec_name() == req.spec_name() {
        Ok(true)
    } else {
        supertype_walk(ms, actual, req, Seq::empty(), walk_fuel(ms))
    }
}

/// Whether `s` is among the strings of `v`.
fn contains_string(v: &Vec<String>, s: &str) -> (r: bool)
    ensures
        r == strings_view(v@).contains(s@),
{
    let n = v.len();
    let mut i: usize = 0;
    while i < n
        invariant
            n == v@.len(),
            i <= n,
            forall|j: int| 0 <= j < i ==> v@[j]@ != s@,
        decreases n - i,
    {
        if str_eq(v[i].as_str(), s) {
            assert(strings_view(v@)[i as int] == s@);
            return true;
        }
        i = i + 1;
    }
    proof {
        if strings_view(v@).contains(s@) {
            let j = choose|j: int| 0 <= j < strings_view(v@).len() && strings_view(v@)[j] == s@;
            assert(v@[j]@ == s@);
        }
    }
    false
}

/// Appends a string to a list of strings.
fn push_string(v: &mut Vec<String>, s: String)
    ensures
        strings_view(final(v)@) == strings_view(old(v)@).push(s@),
{
    let ghost before = v@;
    v.push(s);
    assert(strings_view(v@) =~= strings_view(before).push(s@));
}

/// Whether an instance of `actual` may stand where `requested` is asked
/// for, walking `actual`'s supertypes.
pub fn is_assignable_to(model_manager: &ModelManager, actual: &Declaration, requested: &Declaration) -> (r: Result<bool, ConcertoError>)
    ensures
        match r {
            Ok(b) => assignable(model_manager.spec_models(), *actual, *requested) == Ok::<bool, ErrorView>(b),
            Err(e) => assignable(model_manager.spec_models(), *actual, *requested) == Err::<bool, ErrorView>(e@),
        },
{
    let ghost ms = model_manager.spec_models();
    if str_eq(actual.namespace(), requested.namespace()) && str_eq(actual.name(), requested.name()) {
        return Ok(true);
    }
    let mut current = actual;
    let mut visited: Vec<String> = Vec::new();
    assert(strings_view(visited@) =~= Seq::<Seq<char>>::empty());
    loop
        invariant
            ms == model_manager.spec_models(),
            visited@.len() == 0 || all_decls(ms).contains(*current),
            walk_ok(ms, strings_view(visited@)),
            visited@.len() <= all_decls(ms).len() + 1,
            assignable(ms, *actual, *requested)
                == supertype_walk(ms, *current, *requested, strings_view(visited@), (walk_fuel(ms) - visited@.len()) as nat),
        decreases walk_fuel(ms) - visited@.len(),
    {
        let ghost fuel = (walk_fuel(ms) - visited@.len()) as nat;
        let class_decl = match current.class() {
            Some(c) => c,
            None => return Ok(false),
        };
        let current_fqn = dotted(class_decl.namespace.as_str(), class_decl.name.as_str());
        assert(current_fqn@ == current.spec_fqn());
        if contains_string(&visited, current_fqn.as_str()) {
            return Err(ConcertoError::CircularDependency(current_fqn));
        }
        proof { lemma_walk_step(ms, strings_view(visited@), *current); }
        let ghost old_visited = strings_view(visited@);
        push_string(&mut visited, current_fqn);
        let super_type = match &class_decl.super_type {
            Some(s) => s,
            None => return Ok(false),
        };
        let next = match resolve_in_context(model_manager, super_type.as_str(), class_decl.namespace.as_str()) {
            Ok(d) => d,
            Err(e) => return Err(e),
        };
        proof { lemma_resolved_in_context_in(ms, super_type@, class_decl.namespace@); }
        if str_eq(next.namespace(), requested.namespace()) && str_eq(next.name(), requested.name()) {
            return Ok(true);
        }
        current = next;
        assert(supertype_walk(ms, *current, *requested, old_visited.push(current_fqn@), (fuel - 1) as nat)
            == assignable(ms, *actual, *requested));
    }
}


/// `ps` with `p` in place of the property of the same name, or with `p`
/// added at the end where there is none.
pub open spec fn prop_insert(ps: Seq<Property>, p: Property) -> Seq<Property> {
    match prop_index(ps, p.name@) {
        Some(i) => ps.update(i, p),
        None => ps.push(p),
    }
}

/// `ps` with each of `cs` inserted in turn: a property declared closer
/// wins over an inherited one of the same name.
pub open spec fn props_with(ps: Seq<Property>, cs: Seq<Property>) -> Seq<Property>
    decreases cs.len(),
{
    if cs.len() == 0 {
        ps
    } else {
        prop_insert(props_with(ps, cs.drop_last()), cs.last())
    }
}

/// The properties of `d` with everything it inherits, and the errors met
/// on the way: a supertype that does not resolve is reported (at `$`) and
/// skipped; a name that comes round again ends the walk with an error.
pub open spec fn inherited_props(
    ms: Seq<crate::model_file::ModelFile>,
    d: Declaration,
    visited: Seq<Seq<char>>,
    fuel: nat,
) -> (Seq<ErrView>, Result<Seq<Property>, ErrorView>)
    decreases fuel,
{
    match d.spec_class() {
        None => (Seq::empty(), Ok(Seq::empty())),
        Some(c) => {
            let f = d.spec_fqn();
            if visited.contains(f) || fuel == 0 {
                (Seq::empty(), Err(ErrorView::CircularDependency(f)))
            } else {
                let (errs, base) = match c.super_type {
                    None => (Seq::<ErrView>::empty(), Ok::<Seq<Property>, ErrorView>(Seq::empty())),
                    Some(st) => match spec_resolve_in_context(ms, st@, c.namespace@) {
                        Ok(p) => inherited_props(ms, p, visited.push(f), (fuel - 1) as nat),
                        Err(_) => (
                            seq![verr("$"@, "can't resolve super type '"@ + st@ + "'"@, KindView::UnknownType)],
                            Ok(Seq::empty()),
                        ),
                    },
                };
                (errs, match base {
                    Ok(ps) => Ok(props_with(ps, c.properties@)),
                    Err(e) => Err(e),
                })
            }
        }
    }
}

/// The names the walk of `inherited_props` has passed when it ends: those
/// passed before, then each class of the chain it walks, in order.
pub open spec fn walked_names(
    ms: Seq<crate::model_file::ModelFile>,
    d: Declaration,
    visited: Seq<Seq<char>>,
    fuel: nat,
) -> Seq<Seq<char>>
    decreases fuel,
{
    match d.spec_class() {
        None => visited,
        Some(c) => {
            let f = d.spec_fqn();
            if visited.contains(f) || fuel == 0 {
                visited
            } else {
                match c.super_type {
                    None => visited.push(f),
                    Some(st) => match spec_resolve_in_context(ms, st@, c.namespace@) {
                        Ok(p) => walked_names(ms, p, visited.push(f), (fuel - 1) as nat),
                        Err(_) => visited.push(f),
                    },
                }
            }
        }
    }
}

/// The properties a list of references points at.
pub open spec fn derefs(v: Seq<&Property>) -> Seq<Property> {
    Seq::new(v.len(), |i: int| *v[i])
}

/// Adds `p` to `ps`, in place of the property of the same name if there is
/// one.
fn insert_prop_ref<'a>(ps: &mut Vec<&'a Property>, p: &'a Property)
    ensures
        derefs(final(ps)@) == prop_insert(derefs(old(ps)@), *p),
{
    let ghost old_ps = derefs(ps@);
    let n = ps.len();
    let mut i: usize = 0;
    while i < n
        invariant
            n == ps@.len(),
            old_ps == derefs(ps@),
            old_ps == derefs(old(ps)@),
            i <= n,
            prop_index(old_ps.take(i as int), p.name@) is None,
        decreases n - i,
    {
        assert(old_ps.take(i + 1).drop_last() =~= old_ps.take(i as int));
        if str_eq(ps[i].name.as_str(), p.name.as_str()) {
            assert(prop_index(old_ps.take(i + 1), p.name@) == Some(i as int));
            proof { lemma_prop_index_extends(old_ps, p.name@, i + 1); }
            ps.set(i, p);
            assert(derefs(ps@) =~= old_ps.update(i as int, *p));
            return;
        }
        i = i + 1;
    }
    assert(old_ps.take(n as int) =~= old_ps);
    ps.push(p);
    assert(derefs(ps@) =~= old_ps.push(*p));
}

/// Collects the properties of `decl` and its supertypes (see
/// `inherited_props`); `visited` holds the names already passed.
fn collect_properties_inner<'a>(
    model_manager: &'a ModelManager,
    decl: &'a Declaration,
    errors: &mut Vec<ValidationError>,
    visited: &mut Vec<String>,
    Ghost(fuel): Ghost<nat>,
) -> (r: Result<Vec<&'a Property>, ConcertoError>)
    requires
        old(visited)@.len() == 0 || all_decls(model_manager.spec_models()).contains(*decl),
        walk_ok(model_manager.spec_models(), strings_view(old(visited)@)),
        fuel + old(visited)@.len() == walk_fuel(model_manager.spec_models()),
    ensures
        errs_view(final(errors)@) == errs_view(old(errors)@)
            + inherited_props(model_manager.spec_models(), *decl, strings_view(old(visited)@), fuel).0,
        match r {
            Ok(ps) => inherited_props(model_manager.spec_models(), *decl, strings_view(old(visited)@), fuel).1
                == Ok::<Seq<Property>, ErrorView>(derefs(ps@)),
            Err(e) => inherited_props(model_manager.spec_models(), *decl, strings_view(old(visited)@), fuel).1
                == Err::<Seq<Property>, ErrorView>(e@),
        },
        strings_view(final(visited)@) == walked_names(model_manager.spec_models(), *decl, strings_view(old(visited)@), fuel),
    decreases fuel,
{
    let ghost ms = model_manager.spec_models();
    let ghost vis0 = strings_view(visited@);
    let class_decl = match decl.class() {
        Some(c) => c,
        None => {
            let v: Vec<&Property> = Vec::new();
            assert(derefs(v@) =~= Seq::<Property>::empty());
            assert(errs_view(errors@) =~= errs_view(old(errors)@) + Seq::<ErrView>::empty());
            return Ok(v);
        }
    };
    let current_fqn = dotted(class_decl.namespace.as_str(), class_decl.name.as_str());
    assert(current_fqn@ == decl.spec_fqn());
    if contains_string(visited, current_fqn.as_str()) {
        assert(errs_view(errors@) =~= errs_view(old(errors)@) + Seq::<ErrView>::empty());
        return Err(ConcertoError::CircularDependency(current_fqn));
    }
    proof { lemma_walk_step(ms, vis0, *decl); }
    push_string(visited, current_fqn);
    let ghost errs0 = errs_view(errors@);
    let mut props: Vec<&'a Property> = Vec::new();
    match &class_decl.super_type {
        Some(super_type) => {
            match resolve_in_context(model_manager, super_type.as_str(), class_decl.namespace.as_str()) {
                Ok(parent_decl) => {
                    proof { lemma_resolved_in_context_in(ms, super_type@, class_decl.namespace@); }
                    match collect_properties_inner(model_manager, parent_decl, errors, visited, Ghost((fuel - 1) as nat)) {
                        Ok(parent_props) => { props = parent_props; }
                        Err(e) => { return Err(e); }
                    }
                }
                Err(_) => {
                    let e = new_error(
                        String::from_str("$"),
                        concat3("can't resolve super type '", super_type.as_str(), "'"),
                        ErrorKind::UnknownType,
                    );
                    push_error(errors, e);
                    assert(derefs(props@) =~= Seq::<Property>::empty());
                }
            }
        }
        None => {
            assert(derefs(props@) =~= Seq::<Property>::empty());
            assert(errs_view(errors@) =~= errs0 + Seq::<ErrView>::empty());
        }
    }
    let ghost base = derefs(props@);
    let cs = &class_decl.properties;
    let n = cs.len();
    let mut i: usize = 0;
    while i < n
        invariant
            n == cs@.len(),
            i <= n,
            derefs(props@) == props_with(base, cs@.take(i as int)),
        decreases n - i,
    {
        assert(cs@.take(i + 1).drop_last() =~= cs@.take(i as int));
        insert_prop_ref(&mut props, &cs[i]);
        i = i + 1;
    }
    assert(cs@.take(n as int) =~= cs@);
    Ok(props)
}

/// Collects the properties of `decl` and everything it inherits; errors
/// met on the way are appended to `errors`.
pub fn collect_properties<'a>(
    model_manager: &'a ModelManager,
    decl: &'a Declaration,
    errors: &mut Vec<ValidationError>,
) -> (r: Result<Vec<&'a Property>, ConcertoError>)
    ensures
        errs_view(final(errors)@) == errs_view(old(errors)@)
            + inherited_props(model_manager.spec_models(), *decl, Seq::empty(), walk_fuel(model_manager.spec_models())).0,
        match r {
            Ok(ps) => inherited_props(model_manager.spec_models(), *decl, Seq::empty(), walk_fuel(model_manager.spec_models())).1
                == Ok::<Seq<Property>, ErrorView>(derefs(ps@)),
            Err(e) => inherited_props(model_manager.spec_models(), *decl, Seq::empty(), walk_fuel(model_manager.spec_models())).1
                == Err::<Seq<Property>, ErrorView>(e@),
        },
{
    let mut visited: Vec<String> = Vec::new();
    assert(strings_view(visited@) =~= Seq::<Seq<char>>::empty());
    collect_properties_inner(model_manager, decl, errors, &mut visited, Ghost(walk_fuel(model_manager.spec_models())))
}


/// Every type may stand where it is itself asked for.
pub proof fn lemma_assignable_to_itself(ms: Seq<crate::model_file::ModelFile>, d: Declaration)
    ensures
        assignable(ms, d, d) == Ok::<bool, ErrorView>(true),
{
}

/// A direct subtype may stand where its supertype is asked for.
pub proof fn lemma_subtype_assignable(ms: Seq<crate::model_file::ModelFile>, child: Declaration, parent: Declaration)
    requires
        child.spec_class() matches Some(c) && c.super_type matches Some(st)
            && spec_resolve_in_context(ms, st@, c.namespace@) == Ok::<Declaration, ErrorView>(parent),
    ensures
        assignable(ms, child, parent) == Ok::<bool, ErrorView>(true),
{
}

/// A subtype of a subtype may stand where the grandparent type is asked
/// for (unless the first two share a fully-qualified name, which makes the
/// chain circular).
pub proof fn lemma_grandchild_assignable(
    ms: Seq<crate::model_file::ModelFile>,
    child: Declaration,
    parent: Declaration,
    grand: Declaration,
)
    requires
        child.spec_class() matches Some(c) && c.super_type matches Some(st)
            && spec_resolve_in_context(ms, st@, c.namespace@) == Ok::<Declaration, ErrorView>(parent),
        parent.spec_class() matches Some(p) && p.super_type matches Some(st)
            && spec_resolve_in_context(ms, st@, p.namespace@) == Ok::<Declaration, ErrorView>(grand),
        child.spec_fqn() != parent.spec_fqn(),
    ensures
        assignable(ms, child, grand) == Ok::<bool, ErrorView>(true),
{
    let c = child.spec_class().unwrap();
    lemma_resolved_in_context_in(ms, c.super_type.unwrap()@, c.namespace@);
    assert(all_decls(ms).len() > 0);
    let visited = Seq::<Seq<char>>::empty().push(child.spec_fqn());
    assert(!visited.contains(parent.spec_fqn())) by {
        if visited.contains(parent.spec_fqn()) {
            let j = choose|j: int| 0 <= j < visited.len() && visited[j] == parent.spec_fqn();
            assert(visited[j] == child.spec_fqn());
        }
    }
    assert(!Seq::<Seq<char>>::empty().contains(child.spec_fqn()));
    let n = walk_fuel(ms);
    if !(child.spec_namespace() == grand.spec_namespace() && child.spec_name() == grand.spec_name()) {
        if parent.spec_namespace() == grand.spec_namespace() && parent.spec_name() == grand.spec_name() {
            assert(supertype_walk(ms, child, grand, Seq::empty(), n) == Ok::<bool, ErrorView>(true));
        } else {
            assert(supertype_walk(ms, parent, grand, visited, (n - 1) as nat) == Ok::<bool, ErrorView>(true));
            assert(supertype_walk(ms, child, grand, Seq::empty(), n) == Ok::<bool, ErrorView>(true));
        }
    }
}

proof fn lemma_insert_finds(ps: Seq<Property>, p: Property)
    ensures
        prop_index(prop_insert(ps, p), p.name@) matches Some(k) && 0 <= k < prop_insert(ps, p).len()
            && prop_insert(ps, p)[k] == p,
{
    lemma_prop_index_bounds(ps, p.name@);
    match prop_index(ps, p.name@) {
        Some(i) => {
            lemma_prop_index_update(ps, i, p, p.name@);
        }
        None => {
            assert(ps.push(p).drop_last() =~= ps);
        }
    }
}

proof fn lemma_insert_keeps(ps: Seq<Property>, p: Property, name: Seq<char>, k: int)
    requires
        name != p.name@,
        prop_index(ps, name) == Some(k),
    ensures
        prop_index(prop_insert(ps, p), name) == Some(k),
        prop_insert(ps, p)[k] == ps[k],
{
    lemma_prop_index_bounds(ps, name);
    lemma_prop_index_bounds(ps, p.name@);
    match prop_index(ps, p.name@) {
        Some(i) => {
            lemma_prop_index_update(ps, i, p, name);
        }
        None => {
            assert(ps.push(p).drop_last() =~= ps);
        }
    }
}

/// A property declared on a class wins over an inherited one of the same
/// name (class properties have distinct names).
pub proof fn lemma_declared_property_wins(ps: Seq<Property>, cs: Seq<Property>, j: int)
    requires
        0 <= j < cs.len(),
        forall|a: int, b: int| 0 <= a < cs.len() && 0 <= b < cs.len() && a != b ==> cs[a].name@ != cs[b].name@,
    ensures
        prop_index(props_with(ps, cs), cs[j].name@) matches Some(k) && 0 <= k < props_with(ps, cs).len()
            && props_with(ps, cs)[k] == cs[j],
    decreases cs.len(),
{
    let rest = cs.drop_last();
    assert(props_with(ps, cs) == prop_insert(props_with(ps, rest), cs.last()));
    if j == cs.len() - 1 {
        lemma_insert_finds(props_with(ps, rest), cs.last());
    } else {
        assert(rest[j] == cs[j]);
        assert forall|a: int, b: int| 0 <= a < rest.len() && 0 <= b < rest.len() && a != b implies rest[a].name@ != rest[b].name@ by {
            assert(rest[a] == cs[a] && rest[b] == cs[b]);
        }
        lemma_declared_property_wins(ps, rest, j);
        let k = prop_index(props_with(ps, rest), cs[j].name@).unwrap();
        assert(cs.last() == cs[cs.len() - 1]);
        assert(cs[j].name@ != cs[cs.len() - 1].name@);
        lemma_insert_keeps(props_with(ps, rest), cs.last(), cs[j].name@, k);
    }
    lemma_prop_index_bounds(props_with(ps, cs), cs[j].name@);
}

} // verus!
