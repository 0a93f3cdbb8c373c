//! Listings of what a model manager holds, in the order the command line
//! prints them: texts sorted as `str` sorts them.

use vstd::prelude::*;
use vstd::string::*;
use crate::declaration::{Declaration, ClassDeclaration};
use crate::model_file::ModelFile;
use crate::model_manager::{ModelManager, all_decls};
use crate::property::Property;
use crate::text::{concat2, concat3};
use crate::validator::report::strings_view;

verus! {

/// `a` comes before `b`, character by character (the order of `str`:
/// UTF-8 keeps the order of code points); a proper prefix comes first.
pub open spec fn text_lt(a: Seq<char>, b: Seq<char>) -> bool
    decreases a.len(),
{
    if a.len() == 0 {
        b.len() > 0
    } else if b.len() == 0 {
        false
    } else if a[0] != b[0] {
        (a[0] as u32) < (b[0] as u32)
    } else {
        text_lt(a.drop_first(), b.drop_first())
    }
}

/// Pairs of texts in lexicographic order.
pub open spec fn pair_lt(p: (Seq<char>, Seq<char>), q: (Seq<char>, Seq<char>)) -> bool {
    text_lt(p.0, q.0) || (p.0 == q.0 && text_lt(p.1, q.1))
}

/// No later text comes before an earlier one.
pub open spec fn texts_sorted(s: Seq<Seq<char>>) -> bool {
    forall|i: int, j: int| 0 <= i < j < s.len() ==> !text_lt(#[trigger] s[j], #[trigger] s[i])
}

/// No later pair comes before an earlier one.
pub open spec fn pairs_sorted(s: Seq<(Seq<char>, Seq<char>)>) -> bool {
    forall|i: int, j: int| 0 <= i < j < s.len() ==> !pair_lt(#[trigger] s[j], #[trigger] s[i])
}

/// The texts of a list of string pairs.
pub open spec fn pairs_view(v: Seq<(String, String)>) -> Seq<(Seq<char>, Seq<char>)> {
    v.map_values(|p: (String, String)| (p.0@, p.1@))
}

/// Text order is asymmetric: no two texts come before each other.
pub proof fn lemma_text_lt_asymmetric(a: Seq<char>, b: Seq<char>)
    ensures
        text_lt(a, b) ==> !text_lt(b, a),
    decreases a.len(),
{
    if a.len() > 0 && b.len() > 0 && a[0] == b[0] {
        lemma_text_lt_asymmetric(a.drop_first(), b.drop_first());
    }
}

/// Text order is transitive.
pub proof fn lemma_text_lt_transitive(a: Seq<char>, b: Seq<char>, c: Seq<char>)
    ensures
        text_lt(a, b) && text_lt(b, c) ==> text_lt(a, c),
    decreases a.len(),
{
    if a.len() > 0 && b.len() > 0 && c.len() > 0 && a[0] == b[0] && b[0] == c[0] {
        lemma_text_lt_transitive(a.drop_first(), b.drop_first(), c.drop_first());
    }
}

proof fn lemma_pair_lt_order(p: (Seq<char>, Seq<char>), q: (Seq<char>, Seq<char>), r: (Seq<char>, Seq<char>))
    ensures
        pair_lt(p, q) ==> !pair_lt(q, p),
        pair_lt(p, q) && pair_lt(q, r) ==> pair_lt(p, r),
{
    lemma_text_lt_asymmetric(p.0, q.0);
    lemma_text_lt_asymmetric(p.1, q.1);
    lemma_text_lt_transitive(p.0, q.0, r.0);
    lemma_text_lt_transitive(p.1, q.1, r.1);
}

proof fn lemma_text_lt_skip(a: Seq<char>, b: Seq<char>, i: int)
    requires
        0 <= i < a.len(),
        i < b.len(),
        a.take(i) == b.take(i),
    ensures
        text_lt(a, b) == text_lt(a.skip(i), b.skip(i)),
    decreases i,
{
    if i > 0 {
        assert(a[0] == a.take(i)[0] && b[0] == b.take(i)[0]);
        assert(a.drop_first().take(i - 1) =~= a.take(i).drop_first());
        assert(b.drop_first().take(i - 1) =~= b.take(i).drop_first());
        lemma_text_lt_skip(a.drop_first(), b.drop_first(), i - 1);
        assert(a.drop_first().skip(i - 1) =~= a.skip(i));
        assert(b.drop_first().skip(i - 1) =~= b.skip(i));
    } else {
        assert(a.skip(0) =~= a);
        assert(b.skip(0) =~= b);
    }
}

proof fn lemma_text_lt_prefix(a: Seq<char>, b: Seq<char>, n: int)
    requires
        0 <= n <= a.len(),
        n <= b.len(),
        a.take(n) == b.take(n),
        n == a.len() || n == b.len(),
    ensures
        text_lt(a, b) == (a.len() < b.len()),
    decreases n,
{
    if n > 0 {
        assert(a[0] == a.take(n)[0] && b[0] == b.take(n)[0]);
        assert(a.drop_first().take(n - 1) =~= a.take(n).drop_first());
        assert(b.drop_first().take(n - 1) =~= b.take(n).drop_first());
        lemma_text_lt_prefix(a.drop_first(), b.drop_first(), n - 1);
    }
}

/// Whether `a` sorts before `b`.
pub fn text_less(a: &str, b: &str) -> (r: bool)
    ensures
        r == text_lt(a@, b@),
{
    let n = a.unicode_len();
    let m = b.unicode_len();
    let mut i: usize = 0;
    while i < n && i < m
        invariant
            n == a@.len(),
            m == b@.len(),
            i <= n,
            i <= m,
            a@.take(i as int) == b@.take(i as int),
        decreases n - i,
    {
        let ca = a.get_char(i);
        let cb = b.get_char(i);
        if ca != cb {
            proof {
                lemma_text_lt_skip(a@, b@, i as int);
                assert(a@.skip(i as int)[0] == ca && b@.skip(i as int)[0] == cb);
            }
            return (ca as u32) < (cb as u32);
        }
        assert(a@.take(i + 1) =~= a@.take(i as int).push(ca));
        assert(b@.take(i + 1) =~= b@.take(i as int).push(cb));
        i = i + 1;
    }
    proof { lemma_text_lt_prefix(a@, b@, i as int); }
    n < m
}

/// Whether pair `p` sorts before pair `q`.
fn pair_less(p: &(String, String), q: &(String, String)) -> (r: bool)
    ensures
        r == pair_lt((p.0@, p.1@), (q.0@, q.1@)),
{
    if text_less(p.0.as_str(), q.0.as_str()) {
        true
    } else if text_less(q.0.as_str(), p.0.as_str()) {
        proof { lemma_text_lt_asymmetric(q.0@, p.0@); }
        false
    } else {
        let same = crate::text::str_eq(p.0.as_str(), q.0.as_str());
        same && text_less(p.1.as_str(), q.1.as_str())
    }
}

/// The pairs of `v`, sorted; the same pairs, as many times each.
pub fn sort_pairs(v: &Vec<(String, String)>) -> (r: Vec<(String, String)>)
    ensures
        pairs_sorted(pairs_view(r@)),
        pairs_view(r@).to_multiset() == pairs_view(v@).to_multiset(),
{
    let mut out: Vec<(String, String)> = Vec::new();
    let n = v.len();
    let mut i: usize = 0;
    assert(pairs_view(v@.take(0)) =~= pairs_view(out@));
    while i < n
        invariant
            n == v@.len(),
            i <= n,
            pairs_sorted(pairs_view(out@)),
            pairs_view(out@).to_multiset() == pairs_view(v@.take(i as int)).to_multiset(),
        decreases n - i,
    {
        let x = (v[i].0.clone(), v[i].1.clone());
        let ghost xv = (x.0@, x.1@);
        let ghost ov = pairs_view(out@);
        let m = out.len();
        let mut p: usize = 0;
        while p < m && !pair_less(&x, &out[p])
            invariant
                m == out@.len(),
                ov == pairs_view(out@),
                xv == (x.0@, x.1@),
                p <= m,
                forall|k: int| 0 <= k < p ==> !pair_lt(xv, #[trigger] ov[k]),
            decreases m - p,
        {
            p = p + 1;
        }
        out.insert(p, x);
        proof {
            let nv = pairs_view(out@);
            assert(nv =~= ov.insert(p as int, xv));
            assert forall|a: int, b: int| 0 <= a < b < nv.len() implies !pair_lt(#[trigger] nv[b], #[trigger] nv[a]) by {
                if a < p && b < p {
                    assert(nv[a] == ov[a] && nv[b] == ov[b]);
                } else if a < p && b == p {
                    assert(nv[a] == ov[a] && nv[b] == xv);
                    lemma_pair_lt_order(xv, ov[a], ov[a]);
                } else if a < p {
                    assert(nv[a] == ov[a] && nv[b] == ov[b - 1]);
                } else if a == p {
                    assert(nv[a] == xv && nv[b] == ov[b - 1]);
                    assert(p < m);
                    assert(pair_lt(xv, ov[p as int]));
                    if b - 1 > p {
                        assert(!pair_lt(ov[b - 1], ov[p as int]));
                    }
                    lemma_pair_lt_order(ov[b - 1], xv, ov[p as int]);
                    lemma_pair_lt_order(xv, ov[p as int], ov[p as int]);
                } else {
                    assert(nv[a] == ov[a - 1] && nv[b] == ov[b - 1]);
                }
            }
            assert(xv == (v@[i as int].0@, v@[i as int].1@));
            assert(pairs_view(v@.take(i + 1)) =~= pairs_view(v@.take(i as int)).push(xv));
            vstd::seq_lib::to_multiset_insert(ov, p as int, xv);
            vstd::seq_lib::to_multiset_build(pairs_view(v@.take(i as int)), xv);
            assert(pairs_view(v@.take(i as int)).push(xv).to_multiset()
                == pairs_view(v@.take(i as int)).to_multiset().insert(xv));
        }
        i = i + 1;
    }
    assert(v@.take(n as int) =~= v@);
    out
}

/// The texts of `v`, sorted; the same texts, as many times each.
pub fn sort_texts(v: &Vec<String>) -> (r: Vec<String>)
    ensures
        texts_sorted(strings_view(r@)),
        strings_view(r@).to_multiset() == strings_view(v@).to_multiset(),
{
    let mut out: Vec<String> = Vec::new();
    let n = v.len();
    let mut i: usize = 0;
    assert(strings_view(v@.take(0)) =~= strings_view(out@));
    while i < n
        invariant
            n == v@.len(),
            i <= n,
            texts_sorted(strings_view(out@)),
            strings_view(out@).to_multiset() == strings_view(v@.take(i as int)).to_multiset(),
        decreases n - i,
    {
        let x = v[i].clone();
        let ghost ov = strings_view(out@);
        let m = out.len();
        let mut p: usize = 0;
        while p < m && !text_less(x.as_str(), out[p].as_str())
            invariant
                m == out@.len(),
                ov == strings_view(out@),
                p <= m,
                forall|k: int| 0 <= k < p ==> !text_lt(x@, #[trigger] ov[k]),
            decreases m - p,
        {
            p = p + 1;
        }
        let ghost xv = x@;
        out.insert(p, x);
        proof {
            let nv = strings_view(out@);
            assert(nv =~= ov.insert(p as int, xv));
            assert forall|a: int, b: int| 0 <= a < b < nv.len() implies !text_lt(#[trigger] nv[b], #[trigger] nv[a]) by {
                if a < p && b < p {
                    assert(nv[a] == ov[a] && nv[b] == ov[b]);
                } else if a < p && b == p {
                    assert(nv[a] == ov[a] && nv[b] == xv);
                } else if a < p {
                    assert(nv[a] == ov[a] && nv[b] == ov[b - 1]);
                } else if a == p {
                    assert(nv[a] == xv && nv[b] == ov[b - 1]);
                    assert(text_lt(xv, ov[p as int]));
                    if b - 1 > p {
                        assert(!text_lt(ov[b - 1], ov[p as int]));
                    }
                    lemma_text_lt_transitive(ov[b - 1], xv, ov[p as int]);
                    lemma_text_lt_asymmetric(xv, ov[p as int]);
                } else {
                    assert(nv[a] == ov[a - 1] && nv[b] == ov[b - 1]);
                }
            }
            assert(xv == v@[i as int]@);
            assert(strings_view(v@.take(i + 1)) =~= strings_view(v@.take(i as int)).push(xv));
            vstd::seq_lib::to_multiset_insert(ov, p as int, xv);
            vstd::seq_lib::to_multiset_build(strings_view(v@.take(i as int)), xv);
            assert(strings_view(v@.take(i as int)).push(xv).to_multiset()
                == strings_view(v@.take(i as int)).to_multiset().insert(xv));
        }
        i = i + 1;
    }
    assert(v@.take(n as int) =~= v@);
    out
}


/// The namespaces of the loaded models, in loading order.
pub open spec fn model_namespaces(ms: Seq<ModelFile>) -> Seq<Seq<char>> {
    ms.map_values(|m: ModelFile| m.namespace@)
}

/// The namespace and name of every loaded declaration.
pub open spec fn declaration_names(ms: Seq<ModelFile>) -> Seq<(Seq<char>, Seq<char>)> {
    all_decls(ms).map_values(|d: Declaration| (d.spec_namespace(), d.spec_name()))
}

/// How a listing shows a property's type: `Array<T>` for an array, then
/// ` optional` where the property may be absent.
pub open spec fn property_label_text(p: Property) -> Seq<char> {
    let t = p.property_type.spec_describe();
    let a = if p.is_array { "Array<"@ + t + ">"@ } else { t };
    if p.is_optional { a + " optional"@ } else { a }
}

/// The name and label of each property.
pub open spec fn property_lines_of(ps: Seq<Property>) -> Seq<(Seq<char>, Seq<char>)> {
    ps.map_values(|p: Property| (p.name@, property_label_text(p)))
}

/// How a listing shows a property's type, such as `Array<Integer> optional`.
pub fn property_label(p: &Property) -> (r: String)
    ensures
        r@ == property_label_text(*p),
{
    let t = p.property_type.describe();
    let a = if p.is_array { concat3("Array<", t.as_str(), ">") } else { t };
    if p.is_optional { concat2(a.as_str(), " optional") } else { a }
}

/// The loaded namespaces, sorted.
pub fn sorted_namespaces(model_manager: &ModelManager) -> (r: Vec<String>)
    ensures
        texts_sorted(strings_view(r@)),
        strings_view(r@).to_multiset() == model_namespaces(model_manager.spec_models()).to_multiset(),
{
    let names = model_manager.namespaces();
    let mut owned: Vec<String> = Vec::new();
    let n = names.len();
    let mut i: usize = 0;
    while i < n
        invariant
            n == names@.len(),
            n == model_manager.spec_models().len(),
            i <= n,
            owned@.len() == i,
            forall|k: int| 0 <= k < n ==> names@[k]@ == model_manager.spec_models()[k].namespace@,
            forall|k: int| 0 <= k < i ==> owned@[k]@ == names@[k]@,
        decreases n - i,
    {
        owned.push(String::from_str(names[i]));
        i = i + 1;
    }
    assert(strings_view(owned@) =~= model_namespaces(model_manager.spec_models()));
    sort_texts(&owned)
}

/// The namespace and name of every loaded declaration, sorted.
pub fn sorted_declaration_names(model_manager: &ModelManager) -> (r: Vec<(String, String)>)
    ensures
        pairs_sorted(pairs_view(r@)),
        pairs_view(r@).to_multiset() == declaration_names(model_manager.spec_models()).to_multiset(),
{
    let decls = model_manager.all_declarations();
    let mut pairs: Vec<(String, String)> = Vec::new();
    let n = decls.len();
    let mut i: usize = 0;
    while i < n
        invariant
            n == decls@.len(),
            n == all_decls(model_manager.spec_models()).len(),
            i <= n,
            pairs@.len() == i,
            forall|k: int| 0 <= k < n ==> *decls@[k] == all_decls(model_manager.spec_models())[k],
            forall|k: int| 0 <= k < i ==> (#[trigger] pairs@[k]).0@ == decls@[k].spec_namespace()
                && pairs@[k].1@ == decls@[k].spec_name(),
        decreases n - i,
    {
        pairs.push((String::from_str(decls[i].namespace()), String::from_str(decls[i].name())));
        i = i + 1;
    }
    assert(pairs_view(pairs@) =~= declaration_names(model_manager.spec_models()));
    sort_pairs(&pairs)
}

/// The name and label of each property of a class, sorted.
pub fn property_lines(class_decl: &ClassDeclaration) -> (r: Vec<(String, String)>)
    ensures
        pairs_sorted(pairs_view(r@)),
        pairs_view(r@).to_multiset() == property_lines_of(class_decl.properties@).to_multiset(),
{
    let props = &class_decl.properties;
    let mut lines: Vec<(String, String)> = Vec::new();
    let n = props.len();
    let mut i: usize = 0;
    while i < n
        invariant
            n == props@.len(),
            i <= n,
            lines@.len() == i,
            forall|k: int| 0 <= k < i ==> (#[trigger] lines@[k]).0@ == props@[k].name@
                && lines@[k].1@ == property_label_text(props@[k]),
        decreases n - i,
    {
        lines.push((props[i].name.clone(), property_label(&props[i])));
        i = i + 1;
    }
    assert(pairs_view(lines@) =~= property_lines_of(props@));
    sort_pairs(&lines)
}

} // verus!
