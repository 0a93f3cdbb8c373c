//! Parsed declaration shapes.

use vstd::prelude::*;
use crate::text::str_eq;
use crate::property::{Property, PropertyType, PropertyView, PropertyTypeView};

verus! {

/// One parsed Concerto declaration.
#[derive(Debug, Clone)]
pub enum Declaration {
    /// A `concept` declaration.
    Concept(ClassDeclaration),
    /// An `asset` declaration.
    Asset(ClassDeclaration),
    /// A `participant` declaration.
    Participant(ClassDeclaration),
    /// A `transaction` declaration.
    Transaction(ClassDeclaration),
    /// An `event` declaration.
    Event(ClassDeclaration),
    /// An `enum` declaration.
    Enum(EnumDeclaration),
    /// A scalar declaration.
    Scalar(ScalarDeclaration),
    /// A map declaration.
    MapDecl(MapDeclaration),
}

/// Shared data for concept-like declarations.
#[derive(Debug, Clone)]
pub struct ClassDeclaration {
    /// Short type name, like `"Person"`.
    pub name: String,
    /// Namespace that owns the type.
    pub namespace: String,
    /// Whether the type is abstract.
    pub is_abstract: bool,
    /// Supertype name, if one exists.
    pub super_type: Option<String>,
    /// Properties declared directly on this type, one per name.
    pub properties: Vec<Property>,
}

/// Enum declaration with a fixed set of values.
#[derive(Debug, Clone)]
pub struct EnumDeclaration {
    /// Short enum name.
    pub name: String,
    /// Namespace that owns the enum.
    pub namespace: String,
    /// Valid enum values in declaration order.
    pub values: Vec<String>,
}

/// Scalar declaration: a named primitive rule.
#[derive(Debug, Clone)]
pub struct ScalarDeclaration {
    /// Short scalar name.
    pub name: String,
    /// Namespace that owns the scalar.
    pub namespace: String,
    /// Underlying scalar rule.
    pub scalar_type: PropertyType,
}

/// Map declaration.
#[derive(Debug, Clone)]
pub struct MapDeclaration {
    /// Short map name.
    pub name: String,
    /// Namespace that owns the map.
    pub namespace: String,
    /// Key type rule.
    pub key_type: PropertyType,
    /// Value type rule.
    pub value_type: PropertyType,
}

impl Declaration {
    /// The short declaration name.
    pub open spec fn spec_name(self) -> Seq<char> {
        match self {
            Declaration::Concept(c) => c.name@,
            Declaration::Asset(c) => c.name@,
            Declaration::Participant(c) => c.name@,
            Declaration::Transaction(c) => c.name@,
            Declaration::Event(c) => c.name@,
            Declaration::Enum(e) => e.name@,
            Declaration::Scalar(s) => s.name@,
            Declaration::MapDecl(m) => m.name@,
        }
    }

    /// The namespace the declaration belongs to.
    pub open spec fn spec_namespace(self) -> Seq<char> {
        match self {
            Declaration::Concept(c) => c.namespace@,
            Declaration::Asset(c) => c.namespace@,
            Declaration::Participant(c) => c.namespace@,
            Declaration::Transaction(c) => c.namespace@,
            Declaration::Event(c) => c.namespace@,
            Declaration::Enum(e) => e.namespace@,
            Declaration::Scalar(s) => s.namespace@,
            Declaration::MapDecl(m) => m.namespace@,
        }
    }

    /// The class data, where this is a concept-like declaration.
    pub open spec fn spec_class(self) -> Option<ClassDeclaration> {
        match self {
            Declaration::Concept(c) => Some(c),
            Declaration::Asset(c) => Some(c),
            Declaration::Participant(c) => Some(c),
            Declaration::Transaction(c) => Some(c),
            Declaration::Event(c) => Some(c),
            _ => None,
        }
    }

    /// `namespace.name`, the fully-qualified name.
    pub open spec fn spec_fqn(self) -> Seq<char> {
        self.spec_namespace() + "."@ + self.spec_name()
    }

    /// Returns the short declaration name, such as `"Person"`.
    pub fn name(&self) -> (r: &str)
        ensures
            r@ == self.spec_name(),
    {
        match self {
            Declaration::Concept(c) => c.name.as_str(),
            Declaration::Asset(c) => c.name.as_str(),
            Declaration::Participant(c) => c.name.as_str(),
            Declaration::Transaction(c) => c.name.as_str(),
            Declaration::Event(c) => c.name.as_str(),
            Declaration::Enum(e) => e.name.as_str(),
            Declaration::Scalar(s) => s.name.as_str(),
            Declaration::MapDecl(m) => m.name.as_str(),
        }
    }

    /// Returns the namespace this declaration belongs to.
    pub fn namespace(&self) -> (r: &str)
        ensures
            r@ == self.spec_namespace(),
    {
        match self {
            Declaration::Concept(c) => c.namespace.as_str(),
            Declaration::Asset(c) => c.namespace.as_str(),
            Declaration::Participant(c) => c.namespace.as_str(),
            Declaration::Transaction(c) => c.namespace.as_str(),
            Declaration::Event(c) => c.namespace.as_str(),
            Declaration::Enum(e) => e.namespace.as_str(),
            Declaration::Scalar(s) => s.namespace.as_str(),
            Declaration::MapDecl(m) => m.namespace.as_str(),
        }
    }

    /// The class data, where this is a concept-like declaration.
    pub fn class(&self) -> (r: Option<&ClassDeclaration>)
        ensures
            r is Some <==> self.spec_class() is Some,
            r matches Some(c) ==> self.spec_class() == Some(*c),
    {
        match self {
            Declaration::Concept(c) => Some(c),
            Declaration::Asset(c) => Some(c),
            Declaration::Participant(c) => Some(c),
            Declaration::Transaction(c) => Some(c),
            Declaration::Event(c) => Some(c),
            _ => None,
        }
    }
}

/// The position of the first property named `name`.
pub open spec fn prop_index(ps: Seq<Property>, name: Seq<char>) -> Option<int>
    decreases ps.len(),
{
    if ps.len() == 0 {
        None
    } else {
        match prop_index(ps.drop_last(), name) {
            Some(i) => Some(i),
            None => if ps.last().name@ == name { Some(ps.len() - 1) } else { None },
        }
    }
}

/// The properties of a class, by name (the first of a name counts).
pub open spec fn props_map(ps: Seq<Property>) -> Map<Seq<char>, PropertyView> {
    Map::new(
        |k: Seq<char>| prop_index(ps, k) is Some,
        |k: Seq<char>| ps[prop_index(ps, k).unwrap()]@,
    )
}

/// The content of a `ClassDeclaration`.
pub struct ClassView {
    pub name: Seq<char>,
    pub namespace: Seq<char>,
    pub is_abstract: bool,
    pub super_type: Option<Seq<char>>,
    pub properties: Map<Seq<char>, PropertyView>,
}

/// The content of an `EnumDeclaration`.
pub struct EnumView {
    pub name: Seq<char>,
    pub namespace: Seq<char>,
    pub values: Seq<Seq<char>>,
}

/// The content of a `ScalarDeclaration`.
pub struct ScalarView {
    pub name: Seq<char>,
    pub namespace: Seq<char>,
    pub scalar_type: PropertyTypeView,
}

/// The content of a `MapDeclaration`.
pub struct MapView {
    pub name: Seq<char>,
    pub namespace: Seq<char>,
    pub key_type: PropertyTypeView,
    pub value_type: PropertyTypeView,
}

/// The content of a `Declaration`.
pub enum DeclarationView {
    Concept(ClassView),
    Asset(ClassView),
    Participant(ClassView),
    Transaction(ClassView),
    Event(ClassView),
    Enum(EnumView),
    Scalar(ScalarView),
    MapDecl(MapView),
}

impl DeclarationView {
    pub open spec fn name(self) -> Seq<char> {
        match self {
            DeclarationView::Concept(c) => c.name,
            DeclarationView::Asset(c) => c.name,
            DeclarationView::Participant(c) => c.name,
            DeclarationView::Transaction(c) => c.name,
            DeclarationView::Event(c) => c.name,
            DeclarationView::Enum(e) => e.name,
            DeclarationView::Scalar(s) => s.name,
            DeclarationView::MapDecl(m) => m.name,
        }
    }
}

impl View for ClassDeclaration {
    type V = ClassView;

    open spec fn view(&self) -> ClassView {
        ClassView {
            name: self.name@,
            namespace: self.namespace@,
            is_abstract: self.is_abstract,
            super_type: match self.super_type { Some(s) => Some(s@), None => None },
            properties: props_map(self.properties@),
        }
    }
}

impl View for EnumDeclaration {
    type V = EnumView;

    open spec fn view(&self) -> EnumView {
        EnumView {
            name: self.name@,
            namespace: self.namespace@,
            values: self.values@.map_values(|v: String| v@),
        }
    }
}

impl View for ScalarDeclaration {
    type V = ScalarView;

    open spec fn view(&self) -> ScalarView {
        ScalarView { name: self.name@, namespace: self.namespace@, scalar_type: self.scalar_type@ }
    }
}

impl View for MapDeclaration {
    type V = MapView;

    open spec fn view(&self) -> MapView {
        MapView { name: self.name@, namespace: self.namespace@, key_type: self.key_type@, value_type: self.value_type@ }
    }
}

impl View for Declaration {
    type V = DeclarationView;

    open spec fn view(&self) -> DeclarationView {
        match self {
            Declaration::Concept(c) => DeclarationView::Concept(c@),
            Declaration::Asset(c) => DeclarationView::Asset(c@),
            Declaration::Participant(c) => DeclarationView::Participant(c@),
            Declaration::Transaction(c) => DeclarationView::Transaction(c@),
            Declaration::Event(c) => DeclarationView::Event(c@),
            Declaration::Enum(e) => DeclarationView::Enum(e@),
            Declaration::Scalar(s) => DeclarationView::Scalar(s@),
            Declaration::MapDecl(m) => DeclarationView::MapDecl(m@),
        }
    }
}

/// The position `prop_index` gives holds a property of that name; where it
/// gives none, no property has that name.
pub proof fn lemma_prop_index_bounds(ps: Seq<Property>, name: Seq<char>)
    ensures
        prop_index(ps, name) matches Some(i) ==> 0 <= i < ps.len() && ps[i].name@ == name,
        prop_index(ps, name) is None ==> forall|j: int| 0 <= j < ps.len() ==> ps[j].name@ != name,
    decreases ps.len(),
{
    if ps.len() > 0 {
        lemma_prop_index_bounds(ps.drop_last(), name);
        assert forall|j: int| 0 <= j < ps.len() - 1 implies ps[j] == ps.drop_last()[j] by {}
    }
}

/// A property found in a prefix is found at the same position in the
/// whole list.
pub proof fn lemma_prop_index_extends(ps: Seq<Property>, name: Seq<char>, k: int)
    requires
        0 <= k <= ps.len(),
        prop_index(ps.take(k), name) is Some,
    ensures
        prop_index(ps, name) == prop_index(ps.take(k), name),
    decreases ps.len() - k,
{
    if k < ps.len() {
        assert(ps.take(k + 1).drop_last() =~= ps.take(k));
        lemma_prop_index_extends(ps, name, k + 1);
    } else {
        assert(ps.take(k) =~= ps);
    }
}

/// Replacing a property by one of the same name moves no lookup.
pub proof fn lemma_prop_index_update(ps: Seq<Property>, i: int, p: Property, k: Seq<char>)
    requires
        0 <= i < ps.len(),
        ps[i].name@ == p.name@,
    ensures
        prop_index(ps.update(i, p), k) == prop_index(ps, k),
    decreases ps.len(),
{
    let ps2 = ps.update(i, p);
    if i < ps.len() - 1 {
        assert(ps2.drop_last() =~= ps.drop_last().update(i, p));
        lemma_prop_index_update(ps.drop_last(), i, p, k);
    } else {
        assert(ps2.drop_last() =~= ps.drop_last());
    }
}

/// Adds `p` to `ps`, in place of the property of the same name if there is
/// one (as a map insert does).
pub fn insert_property(ps: &mut Vec<Property>, p: Property)
    ensures
        props_map(final(ps)@) == props_map(old(ps)@).insert(p.name@, p@),
{
    let ghost old_ps = ps@;
    let n = ps.len();
    let mut i: usize = 0;
    while i < n
        invariant
            n == ps@.len(),
            ps@ == old_ps,
            old(ps)@ == old_ps,
            i <= n,
            prop_index(old_ps.take(i as int), p.name@) is None,
        decreases n - i,
    {
        assert(old_ps.take(i + 1).drop_last() =~= old_ps.take(i as int));
        if str_eq(ps[i].name.as_str(), p.name.as_str()) {
            assert(prop_index(old_ps.take(i + 1), p.name@) == Some(i as int));
            proof { lemma_prop_index_extends(old_ps, p.name@, i + 1); }
            let ghost pv = p;
            ps.set(i, p);
            proof {
                assert forall|k: Seq<char>| #![auto] true implies prop_index(ps@, k) == prop_index(old_ps, k) by {
                    lemma_prop_index_update(old_ps, i as int, pv, k);
                }
                assert forall|k: Seq<char>| #![auto] prop_index(ps@, k) is Some implies
                    ps@[prop_index(ps@, k).unwrap()]@ == (if k == pv.name@ { pv@ } else { old_ps[prop_index(old_ps, k).unwrap()]@ }) by {
                    lemma_prop_index_bounds(old_ps, k);
                }
            }
            assert(props_map(ps@) =~= props_map(old_ps).insert(pv.name@, pv@));
            return;
        }
        i = i + 1;
    }
    assert(old_ps.take(n as int) =~= old_ps);
    let ghost pv = p;
    ps.push(p);
    proof {
        assert(ps@.drop_last() =~= old_ps);
        assert forall|k: Seq<char>| #![auto] k != pv.name@ implies prop_index(ps@, k) == prop_index(old_ps, k) by {
            lemma_prop_index_bounds(old_ps, k);
        }
        lemma_prop_index_bounds(old_ps, pv.name@);
        assert forall|k: Seq<char>| #![auto] prop_index(old_ps, k) is Some implies
            ps@[prop_index(old_ps, k).unwrap()] == old_ps[prop_index(old_ps, k).unwrap()] by {
            lemma_prop_index_bounds(old_ps, k);
        }
    }
    assert(props_map(ps@) =~= props_map(old_ps).insert(pv.name@, pv@));
}

} // verus!
