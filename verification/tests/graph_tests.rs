use dts_graph::graph::base_type_name;
use dts_graph::graph::Graph;
use dts_graph::types::ErrorKind;
use dts_graph::types::Type;

fn elems() -> Vec<String> {
    vec!["string".to_string(), "number".to_string(), "boolean".to_string()]
}

fn names(types: &[Type]) -> Vec<String> {
    types.iter().map(|t| t.name.clone()).collect()
}

fn pairs(v: &[(String, String)]) -> Vec<(&str, &str)> {
    v.iter().map(|(a, b)| (a.as_str(), b.as_str())).collect()
}

#[test]
fn classification_by_declared_name() {
    let text = "interface number { weird: string; } interface User { id: number; }";
    let g = Graph::init(text, elems()).unwrap();
    assert_eq!(names(&g.primative_types), vec!["number".to_string()]);
    assert_eq!(names(&g.composite_types), vec!["User".to_string()]);
}

#[test]
fn graph_edges_follow_property_references() {
    let text = "\
        interface User { name: string; address: Address; }\n\
        interface Address { city: string; }\n";
    let g = Graph::init(text, elems()).unwrap();
    assert_eq!(
        names(&g.composite_types),
        vec!["User".to_string(), "Address".to_string()]
    );
    assert!(g.edges.contains(&("User".to_string(), "Address".to_string())));
    assert!(!g.edges.contains(&("Address".to_string(), "User".to_string())));
}

#[test]
fn cyclic_references_yield_both_edges() {
    let text = "interface A { b: B; } interface B { a: A; }";
    let g = Graph::init(text, elems()).unwrap();
    assert!(g.edges.contains(&("A".to_string(), "B".to_string())));
    assert!(g.edges.contains(&("B".to_string(), "A".to_string())));
    assert_eq!(g.edges.len(), 2);
}

#[test]
fn unresolved_references_are_collected_not_fatal() {
    let text = "interface User { name: string; home: Address; }";
    let g = Graph::init(text, elems()).unwrap();
    assert!(g.edges.is_empty());
    assert_eq!(
        pairs(&g.unresolved),
        vec![("User", "string"), ("User", "Address")]
    );
}

#[test]
fn array_properties_reference_the_base_type() {
    let text = "interface Roster { members: Person[]; } interface Person { age: number; }";
    let g = Graph::init(text, elems()).unwrap();
    assert_eq!(pairs(&g.edges), vec![("Roster", "Person")]);
}

#[test]
fn scanning_twice_yields_structurally_equal_graphs() {
    let text = "\
        interface A { b: B; list: C[]; }\n\
        interface B { a: A; tag: string; }\n\
        type C = { n: number; }\n";
    let g1 = Graph::init(text, elems()).unwrap();
    let g2 = Graph::init(text, elems()).unwrap();
    assert_eq!(g1.edges, g2.edges);
    assert_eq!(g1.elemental_types, g2.elemental_types);
    assert_eq!(names(&g1.primative_types), names(&g2.primative_types));
    assert_eq!(names(&g1.composite_types), names(&g2.composite_types));
    assert_eq!(g1.unresolved, g2.unresolved);
    for (a, b) in g1.composite_types.iter().zip(g2.composite_types.iter()) {
        assert_eq!(a.prop_type, b.prop_type);
    }
}

#[test]
fn init_propagates_scan_failure() {
    let e = Graph::init("interface Bad { }", elems()).unwrap_err();
    assert_eq!(e.kind, ErrorKind::EmptyBlock);
}

#[test]
fn init_on_plain_text_yields_empty_graph() {
    let g = Graph::init("no declarations here", elems()).unwrap();
    assert!(g.primative_types.is_empty());
    assert!(g.composite_types.is_empty());
    assert!(g.edges.is_empty());
    assert!(g.unresolved.is_empty());
}

#[test]
fn is_primative_checks_the_elemental_set() {
    let g = Graph::init("interface User { id: number; }", elems()).unwrap();
    let mut number_type = Type::new();
    number_type.add_name("number");
    let mut user_type = Type::new();
    user_type.add_name("User");
    assert!(g.is_primative(&number_type));
    assert!(!g.is_primative(&user_type));
}

#[test]
fn type_identity_is_by_name() {
    let mut a = Type::new();
    a.add_name("Same");
    let mut b = Type::new();
    b.add_name("Same");
    b.prop_type.push(("x".to_string(), "y".to_string()));
    let mut c = Type::new();
    c.add_name("Other");
    assert_eq!(a, b);
    assert!(a != c);
}

#[test]
fn base_type_name_strips_array_marker() {
    assert_eq!(base_type_name("string[]"), "string");
    assert_eq!(base_type_name("Bar"), "Bar");
    assert_eq!(base_type_name("Matrix[][]"), "Matrix[]");
}

#[test]
fn type_records_start_empty_and_take_a_name() {
    let mut t = Type::new();
    assert_eq!(t.name, "");
    assert!(t.prop_type.is_empty());
    t.add_name("Widget");
    assert_eq!(t.name, "Widget");
    assert!(t.prop_type.is_empty());
}
