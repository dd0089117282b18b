//! The type graph: discovered types partitioned into elemental
//! (configured primitive) and composite types, with directed edges
//! from each composite type to the types its properties reference.

use vstd::prelude::*;

use crate::parser::scan;
use crate::parser::scan_spec;
use crate::types::Type;
use crate::types::TypeV;
use crate::types::ErrorKind;
use crate::types::ScanError;

verus! {

/// The aggregate result of one scan.
///
/// `elemental_types` is the externally configured set of primitive
/// type names; it is not derived from the scanned text. Every
/// discovered type whose name is in that set stands in
/// `primative_types`, every other one in `composite_types`. `edges`
/// holds one `(from, to)` name pair for each property of a composite
/// type whose referenced base name is declared in the same text;
/// `unresolved` holds the pairs whose base name is not.
#[derive(Debug)]
pub struct Graph {
    pub edges: Vec<(String, String)>,
    pub elemental_types: Vec<String>,
    pub primative_types: Vec<Type>,
    pub composite_types: Vec<Type>,
    pub unresolved: Vec<(String, String)>,
}

/// The mathematical value of a `Graph`.
pub struct GraphV {
    pub edges: Seq<(Seq<char>, Seq<char>)>,
    pub elemental_types: Seq<Seq<char>>,
    pub primative_types: Seq<TypeV>,
    pub composite_types: Seq<TypeV>,
    pub unresolved: Seq<(Seq<char>, Seq<char>)>,
}

impl View for Graph {
    type V = GraphV;

    open spec fn view(&self) -> GraphV {
        GraphV {
            edges: self.edges.deep_view(),
            elemental_types: self.elemental_types.deep_view(),
            primative_types: self.primative_types.deep_view(),
            composite_types: self.composite_types.deep_view(),
            unresolved: self.unresolved.deep_view(),
        }
    }
}

/// The discovered types whose names are members of the elemental set,
/// in source order.
pub open spec fn primitives_spec(types: Seq<TypeV>, elems: Seq<Seq<char>>) -> Seq<TypeV>
    decreases types.len(),
{
    if types.len() == 0 {
        Seq::empty()
    } else {
        let init = primitives_spec(types.drop_last(), elems);
        if elems.contains(types.last().name) {
            init.push(types.last())
        } else {
            init
        }
    }
}

/// The discovered types whose names are not members of the elemental
/// set, in source order.
pub open spec fn composites_spec(types: Seq<TypeV>, elems: Seq<Seq<char>>) -> Seq<TypeV>
    decreases types.len(),
{
    if types.len() == 0 {
        Seq::empty()
    } else {
        let init = composites_spec(types.drop_last(), elems);
        if elems.contains(types.last().name) {
            init
        } else {
            init.push(types.last())
        }
    }
}

/// Some discovered type bears this name.
pub open spec fn has_type(types: Seq<TypeV>, name: Seq<char>) -> bool {
    exists|k: int| 0 <= k < types.len() && (#[trigger] types[k]).name == name
}

/// The base type name a token references: the token with a trailing
/// `[]` array marker removed, or the token itself.
pub open spec fn strip_array(tok: Seq<char>) -> Seq<char> {
    if tok.len() >= 2 && tok[tok.len() - 2] == '[' && tok[tok.len() - 1] == ']' {
        tok.take(tok.len() - 2)
    } else {
        tok
    }
}

/// The `(from, to)` pairs one composite type contributes, walking its
/// properties in order: resolved pairs first in the result's first
/// component, unresolved ones in the second.
pub open spec fn prop_edges_spec(
    types: Seq<TypeV>,
    tname: Seq<char>,
    props: Seq<(Seq<char>, Seq<char>)>,
) -> (Seq<(Seq<char>, Seq<char>)>, Seq<(Seq<char>, Seq<char>)>)
    decreases props.len(),
{
    if props.len() == 0 {
        (Seq::empty(), Seq::empty())
    } else {
        let (es, us) = prop_edges_spec(types, tname, props.drop_last());
        let base = strip_array(props.last().1);
        if has_type(types, base) {
            (es.push((tname, base)), us)
        } else {
            (es, us.push((tname, base)))
        }
    }
}

/// All edges of the graph: the contributions of the composite types
/// in order, resolved and unresolved apart.
pub open spec fn edges_spec(types: Seq<TypeV>, comps: Seq<TypeV>) -> (
    Seq<(Seq<char>, Seq<char>)>,
    Seq<(Seq<char>, Seq<char>)>,
)
    decreases comps.len(),
{
    if comps.len() == 0 {
        (Seq::empty(), Seq::empty())
    } else {
        let (es, us) = edges_spec(types, comps.drop_last());
        let (es2, us2) = prop_edges_spec(types, comps.last().name, comps.last().props);
        (es + es2, us + us2)
    }
}

/// The graph a discovered type sequence and an elemental name set
/// determine.
pub open spec fn graph_spec(types: Seq<TypeV>, elems: Seq<Seq<char>>) -> GraphV {
    let comps = composites_spec(types, elems);
    GraphV {
        edges: edges_spec(types, comps).0,
        elemental_types: elems,
        primative_types: primitives_spec(types, elems),
        composite_types: comps,
        unresolved: edges_spec(types, comps).1,
    }
}

/// Membership of one name in the elemental name set.
fn contains_name(elems: &Vec<String>, name: &String) -> (r: bool)
    ensures
        r == elems.deep_view().contains(name@),
{
    let mut k: usize = 0;
    while k < elems.len()
        invariant
            k <= elems.len(),
            forall|j: int| 0 <= j < k ==> elems.deep_view()[j] != name@,
        decreases elems.len() - k,
    {
        if elems[k] == *name {
            proof {
                assert(elems.deep_view()[k as int] == name@);
            }
            return true;
        }
        k = k + 1;
    }
    false
}

/// Whether some discovered type bears the given name.
fn has_type_exec(types: &Vec<Type>, name: &String) -> (r: bool)
    ensures
        r == has_type(types.deep_view(), name@),
{
    let mut k: usize = 0;
    while k < types.len()
        invariant
            k <= types.len(),
            forall|j: int| 0 <= j < k ==> (#[trigger] types.deep_view()[j]).name != name@,
        decreases types.len() - k,
    {
        if types[k].name == *name {
            proof {
                assert(types.deep_view()[k as int].name == name@);
            }
            return true;
        }
        k = k + 1;
    }
    false
}

/// The base type name a token references; mirrors `strip_array`.
pub fn base_type_name(tok: &str) -> (r: String)
    ensures
        r@ == strip_array(tok@),
{
    let n = tok.unicode_len();
    if n >= 2 && tok.get_char(n - 2) == '[' && tok.get_char(n - 1) == ']' {
        proof {
            assert(tok@.take(n - 2 as int) =~= tok@.subrange(0, n - 2 as int));
        }
        tok.substring_char(0, n - 2).to_owned()
    } else {
        tok.to_owned()
    }
}

impl Graph {
    /// Builds the graph for one source text against the externally
    /// configured elemental type names.
    ///
    /// A text without any declaration block yields a graph whose
    /// partitions are empty: the scan found nothing, which is not an
    /// error. A broken declaration aborts the build with the kind and
    /// offset that `scan_spec` names.
    pub fn init(source: &str, elemental_types: Vec<String>) -> (r: Result<Graph, ScanError>)
        ensures
            match r {
                Ok(g) => scan_spec(source@, 0) is Ok && g@ == graph_spec(
                    scan_spec(source@, 0)->Ok_0,
                    elemental_types.deep_view(),
                ),
                Err(e) => scan_spec(source@, 0) == Err::<Seq<TypeV>, _>((e.kind, e.offset as int)),
            },
    {
        let types = match scan(source) {
            Ok(ts) => ts,
            Err(e) => {
                return Err(e);
            },
        };
        let ghost typesv = types.deep_view();
        let ghost elemsv = elemental_types.deep_view();

        let mut prims: Vec<Type> = Vec::new();
        let mut comps: Vec<Type> = Vec::new();
        let mut k: usize = 0;
        proof {
            assert(typesv.take(0) =~= Seq::<TypeV>::empty());
            assert(prims.deep_view() =~= Seq::<TypeV>::empty());
            assert(comps.deep_view() =~= Seq::<TypeV>::empty());
        }
        while k < types.len()
            invariant
                k <= types.len(),
                typesv == types.deep_view(),
                elemsv == elemental_types.deep_view(),
                prims.deep_view() == primitives_spec(typesv.take(k as int), elemsv),
                comps.deep_view() == composites_spec(typesv.take(k as int), elemsv),
            decreases types.len() - k,
        {
            let t = types[k].clone();
            let ghost old_prims = prims.deep_view();
            let ghost old_comps = comps.deep_view();
            let is_elemental = contains_name(&elemental_types, &t.name);
            if is_elemental {
                prims.push(t);
            } else {
                comps.push(t);
            }
            proof {
                assert(typesv.take(k + 1 as int).drop_last() =~= typesv.take(k as int));
                assert(typesv.take(k + 1 as int).last() == typesv[k as int]);
                if is_elemental {
                    assert(prims.deep_view() =~= old_prims.push(typesv[k as int]));
                } else {
                    assert(comps.deep_view() =~= old_comps.push(typesv[k as int]));
                }
            }
            k = k + 1;
        }
        proof {
            assert(typesv.take(types.len() as int) =~= typesv);
        }
        let ghost compsv = comps.deep_view();

        let mut edges: Vec<(String, String)> = Vec::new();
        let mut unresolved: Vec<(String, String)> = Vec::new();
        let mut c: usize = 0;
        proof {
            assert(compsv.take(0) =~= Seq::<TypeV>::empty());
            assert(edges.deep_view() =~= Seq::<(Seq<char>, Seq<char>)>::empty());
            assert(unresolved.deep_view() =~= Seq::<(Seq<char>, Seq<char>)>::empty());
        }
        while c < comps.len()
            invariant
                c <= comps.len(),
                typesv == types.deep_view(),
                compsv == comps.deep_view(),
                edges.deep_view() == edges_spec(typesv, compsv.take(c as int)).0,
                unresolved.deep_view() == edges_spec(typesv, compsv.take(c as int)).1,
            decreases comps.len() - c,
        {
            let ghost tname = compsv[c as int].name;
            let ghost propsv = compsv[c as int].props;
            let ghost outer_edges = edges.deep_view();
            let ghost outer_unresolved = unresolved.deep_view();
            let nprops = comps[c].prop_type.len();
            let mut p: usize = 0;
            proof {
                assert(propsv.take(0) =~= Seq::<(Seq<char>, Seq<char>)>::empty());
                assert(outer_edges + Seq::<(Seq<char>, Seq<char>)>::empty() =~= outer_edges);
                assert(outer_unresolved + Seq::<(Seq<char>, Seq<char>)>::empty()
                    =~= outer_unresolved);
            }
            while p < nprops
                invariant
                    p <= nprops,
                    c < comps.len(),
                    typesv == types.deep_view(),
                    compsv == comps.deep_view(),
                    nprops == comps[c as int].prop_type.len(),
                    tname == compsv[c as int].name,
                    propsv == compsv[c as int].props,
                    outer_edges == edges_spec(typesv, compsv.take(c as int)).0,
                    outer_unresolved == edges_spec(typesv, compsv.take(c as int)).1,
                    edges.deep_view() == outer_edges + prop_edges_spec(
                        typesv,
                        tname,
                        propsv.take(p as int),
                    ).0,
                    unresolved.deep_view() == outer_unresolved + prop_edges_spec(
                        typesv,
                        tname,
                        propsv.take(p as int),
                    ).1,
                decreases nprops - p,
            {
                let base = base_type_name(comps[c].prop_type[p].1.as_str());
                let ghost old_edges = edges.deep_view();
                let ghost old_unresolved = unresolved.deep_view();
                let resolved = has_type_exec(&types, &base);
                if resolved {
                    edges.push((comps[c].name.clone(), base));
                } else {
                    unresolved.push((comps[c].name.clone(), base));
                }
                proof {
                    assert(propsv.take(p + 1 as int).drop_last() =~= propsv.take(p as int));
                    assert(propsv.take(p + 1 as int).last() == propsv[p as int]);
                    let gbase = strip_array(propsv[p as int].1);
                    if resolved {
                        assert(edges.deep_view() =~= old_edges.push((tname, gbase)));
                        assert(old_edges.push((tname, gbase)) =~= outer_edges + prop_edges_spec(
                            typesv,
                            tname,
                            propsv.take(p + 1 as int),
                        ).0);
                    } else {
                        assert(unresolved.deep_view() =~= old_unresolved.push((tname, gbase)));
                        assert(old_unresolved.push((tname, gbase)) =~= outer_unresolved
                            + prop_edges_spec(typesv, tname, propsv.take(p + 1 as int)).1);
                    }
                }
                p = p + 1;
            }
            proof {
                assert(propsv.take(propsv.len() as int) =~= propsv);
                assert(compsv.take(c + 1 as int).drop_last() =~= compsv.take(c as int));
                assert(compsv.take(c + 1 as int).last() == compsv[c as int]);
            }
            c = c + 1;
        }
        proof {
            assert(compsv.take(comps.len() as int) =~= compsv);
        }

        let g = Graph {
            edges,
            elemental_types,
            primative_types: prims,
            composite_types: comps,
            unresolved,
        };
        Ok(g)
    }

    /// Whether one discovered type counts as primitive: its name is a
    /// member of the graph's elemental name set.
    pub fn is_primative(&self, my_type: &Type) -> (r: bool)
        ensures
            r == self@.elemental_types.contains(my_type@.name),
    {
        contains_name(&self.elemental_types, &my_type.name)
    }
}

/// Classification is by name membership alone: a discovered type
/// stands among the primitives exactly when its name is in the
/// elemental set, and among the composites exactly when it is not.
pub proof fn lemma_classification(types: Seq<TypeV>, elems: Seq<Seq<char>>, t: TypeV)
    ensures
        primitives_spec(types, elems).contains(t) <==> types.contains(t) && elems.contains(t.name),
        composites_spec(types, elems).contains(t) <==> types.contains(t) && !elems.contains(
            t.name,
        ),
    decreases types.len(),
{
    broadcast use vstd::seq_lib::group_seq_properties;

    if types.len() > 0 {
        lemma_classification(types.drop_last(), elems, t);
        assert(types =~= types.drop_last().push(types.last()));
    }
}

/// Every discovered type is placed, and in exactly one of the two
/// partitions; together the partitions hold exactly the discovered
/// types.
pub proof fn lemma_partition(types: Seq<TypeV>, elems: Seq<Seq<char>>, t: TypeV)
    ensures
        !(primitives_spec(types, elems).contains(t) && composites_spec(types, elems).contains(t)),
        types.contains(t) ==> primitives_spec(types, elems).contains(t) || composites_spec(
            types,
            elems,
        ).contains(t),
        primitives_spec(types, elems).len() + composites_spec(types, elems).len() == types.len(),
{
    lemma_classification(types, elems, t);
    lemma_partition_len(types, elems);
}

proof fn lemma_partition_len(types: Seq<TypeV>, elems: Seq<Seq<char>>)
    ensures
        primitives_spec(types, elems).len() + composites_spec(types, elems).len() == types.len(),
    decreases types.len(),
{
    if types.len() > 0 {
        lemma_partition_len(types.drop_last(), elems);
    }
}

proof fn lemma_prop_edge_membership(
    types: Seq<TypeV>,
    tname: Seq<char>,
    props: Seq<(Seq<char>, Seq<char>)>,
    from: Seq<char>,
    to: Seq<char>,
)
    ensures
        prop_edges_spec(types, tname, props).0.contains((from, to)) <==> (from == tname
            && has_type(types, to) && exists|p: int|
            0 <= p < props.len() && strip_array((#[trigger] props[p]).1) == to),
        prop_edges_spec(types, tname, props).1.contains((from, to)) <==> (from == tname
            && !has_type(types, to) && exists|p: int|
            0 <= p < props.len() && strip_array((#[trigger] props[p]).1) == to),
    decreases props.len(),
{
    broadcast use vstd::seq_lib::group_seq_properties;

    if props.len() > 0 {
        lemma_prop_edge_membership(types, tname, props.drop_last(), from, to);
        assert forall|p: int|
            0 <= p < props.len() - 1 && strip_array(
                (#[trigger] props[p]).1,
            ) == to implies strip_array(props.drop_last()[p].1) == to by {
            assert(props.drop_last()[p] == props[p]);
        }
    }
}

/// A composite among `comps` named `from` references `to` through one
/// of its properties.
pub open spec fn references(comps: Seq<TypeV>, from: Seq<char>, to: Seq<char>) -> bool {
    exists|c: int, p: int|
        {
            &&& 0 <= c < comps.len()
            &&& comps[c].name == from
            &&& 0 <= p < comps[c].props.len()
            &&& strip_array((#[trigger] comps[c].props[p]).1) == to
        }
}

proof fn lemma_references_step(comps: Seq<TypeV>, from: Seq<char>, to: Seq<char>)
    requires
        comps.len() > 0,
    ensures
        references(comps, from, to) <==> (references(comps.drop_last(), from, to) || (
        comps.last().name == from && exists|p: int|
            0 <= p < comps.last().props.len() && strip_array(
                (#[trigger] comps.last().props[p]).1,
            ) == to)),
{
    let cs = comps.drop_last();
    if references(comps, from, to) {
        let (c, p) = choose|c: int, p: int|
            {
                &&& 0 <= c < comps.len()
                &&& comps[c].name == from
                &&& 0 <= p < comps[c].props.len()
                &&& strip_array((#[trigger] comps[c].props[p]).1) == to
            };
        if c < comps.len() - 1 {
            assert(cs[c] == comps[c]);
            assert(strip_array(cs[c].props[p].1) == to);
            assert(references(cs, from, to));
        } else {
            assert(comps.last() == comps[c]);
            assert(strip_array(comps.last().props[p].1) == to);
        }
    }
    if references(cs, from, to) {
        let (c, p) = choose|c: int, p: int|
            {
                &&& 0 <= c < cs.len()
                &&& cs[c].name == from
                &&& 0 <= p < cs[c].props.len()
                &&& strip_array((#[trigger] cs[c].props[p]).1) == to
            };
        assert(comps[c] == cs[c]);
        assert(strip_array(comps[c].props[p].1) == to);
        assert(references(comps, from, to));
    }
    if comps.last().name == from && exists|p: int|
        0 <= p < comps.last().props.len() && strip_array((#[trigger] comps.last().props[p]).1)
            == to {
        let p = choose|p: int|
            0 <= p < comps.last().props.len() && strip_array(
                (#[trigger] comps.last().props[p]).1,
            ) == to;
        let c = comps.len() - 1;
        assert(comps[c] == comps.last());
        assert(strip_array(comps[c].props[p].1) == to);
        assert(references(comps, from, to));
    }
}

/// A resolved edge `(from, to)` stands in the graph exactly when a
/// composite type named `from` references `to` through one of its
/// properties and some discovered type bears the name `to`; an
/// unresolved pair stands there exactly when such a reference exists
/// but no discovered type bears the name.
pub proof fn lemma_edge_membership(
    types: Seq<TypeV>,
    comps: Seq<TypeV>,
    from: Seq<char>,
    to: Seq<char>,
)
    ensures
        edges_spec(types, comps).0.contains((from, to)) <==> (has_type(types, to) && references(
            comps,
            from,
            to,
        )),
        edges_spec(types, comps).1.contains((from, to)) <==> (!has_type(types, to) && references(
            comps,
            from,
            to,
        )),
    decreases comps.len(),
{
    broadcast use vstd::seq_lib::group_seq_properties;

    if comps.len() == 0 {
        assert(!references(comps, from, to));
    } else {
        lemma_edge_membership(types, comps.drop_last(), from, to);
        lemma_prop_edge_membership(types, comps.last().name, comps.last().props, from, to);
        lemma_references_step(comps, from, to);
    }
}

/// Scanning the same text against the same elemental set twice yields
/// structurally equal graphs: the result is a function of the text
/// and the configuration alone.
pub proof fn lemma_scan_deterministic(s: Seq<char>, elems: Seq<Seq<char>>, g1: GraphV, g2: GraphV)
    requires
        scan_spec(s, 0) is Ok,
        g1 == graph_spec(scan_spec(s, 0)->Ok_0, elems),
        g2 == graph_spec(scan_spec(s, 0)->Ok_0, elems),
    ensures
        g1 == g2,
{
}

} // verus!
