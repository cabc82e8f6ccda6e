use plugins::classifier::Classifier;
use plugins::graph::{Field, Kind, Location, Shape, TypeDecl, TypeGraph, TypeId, TypeRef, Variant};
use plugins::markers::{Marker, Markers};
use plugins::verdict::Verdict;

fn here() -> Location {
    Location { line: 1, column: 1 }
}

fn plain(name: &str, kind: Kind) -> TypeDecl {
    TypeDecl { name: name.to_string(), markers: Markers::none(), kind, location: here() }
}

fn marked(name: &str, marker: Marker, kind: Kind) -> TypeDecl {
    TypeDecl { name: name.to_string(), markers: Markers::only(marker), kind, location: here() }
}

fn of_type(name: &str, ty: TypeId) -> Field {
    Field { name: name.to_string(), ty: TypeRef::Concrete(ty), public: false, location: here() }
}

fn of_param(name: &str, index: usize) -> Field {
    Field { name: name.to_string(), ty: TypeRef::Param(index), public: false, location: here() }
}

/// 0 `int`, 1 the handle `JS` (must-root), 2 the guard `Root<T>`.
fn base_graph() -> TypeGraph {
    let mut graph = TypeGraph::new();
    graph.add(plain("int", Kind::Primitive));
    graph.add(marked("JS", Marker::MustRoot, Kind::Opaque));
    let guard: TypeId = graph.add(plain("Root", Kind::Struct(vec![of_param("ptr", 0)])));
    graph.set_guard(guard);
    graph
}

#[test]
fn marked_type_requires_rooting() {
    let mut classifier = Classifier::new(base_graph());
    assert_eq!(classifier.classify(1), Verdict::MustRoot);
}

#[test]
fn primitive_is_safe() {
    let mut classifier = Classifier::new(base_graph());
    assert_eq!(classifier.classify(0), Verdict::Safe);
}

#[test]
fn opaque_type_without_marker_is_safe() {
    let mut graph = base_graph();
    let cell: TypeId = graph.add(plain("ExternCell", Kind::Opaque));
    let holder: TypeId = graph.add(plain("Holder", Kind::Struct(vec![of_type("cell", cell)])));
    let mut classifier = Classifier::new(graph);
    assert_eq!(classifier.classify(cell), Verdict::Safe);
    assert_eq!(classifier.classify(holder), Verdict::Safe);
}

#[test]
fn type_outside_the_graph_is_safe() {
    let mut classifier = Classifier::new(base_graph());
    assert_eq!(classifier.classify(3), Verdict::Safe);
    assert_eq!(classifier.classify(usize::MAX), Verdict::Safe);
    assert_eq!(classifier.peek(usize::MAX), None);
}

#[test]
fn empty_graph_classifies_everything_safe() {
    let mut classifier = Classifier::new(TypeGraph::new());
    assert_eq!(classifier.classify(0), Verdict::Safe);
}

#[test]
fn struct_with_must_root_field_requires_rooting() {
    let mut graph = base_graph();
    let s: TypeId = graph.add(plain(
        "Pair",
        Kind::Struct(vec![of_type("count", 0), of_type("node", 1)]),
    ));
    let mut classifier = Classifier::new(graph);
    assert_eq!(classifier.classify(s), Verdict::MustRoot);
}

#[test]
fn struct_of_safe_fields_is_safe() {
    let mut graph = base_graph();
    let inner: TypeId = graph.add(plain("Inner", Kind::Struct(vec![of_type("a", 0)])));
    let outer: TypeId = graph.add(plain(
        "Outer",
        Kind::Struct(vec![of_type("x", 0), of_type("y", inner)]),
    ));
    let mut classifier = Classifier::new(graph);
    assert_eq!(classifier.classify(outer), Verdict::Safe);
    assert_eq!(classifier.classify(inner), Verdict::Safe);
}

#[test]
fn struct_without_fields_is_safe() {
    let mut graph = base_graph();
    let unit: TypeId = graph.add(plain("Unit", Kind::Struct(vec![])));
    let mut classifier = Classifier::new(graph);
    assert_eq!(classifier.classify(unit), Verdict::Safe);
}

#[test]
fn enum_of_safe_fields_is_safe() {
    let mut graph = base_graph();
    let e: TypeId = graph.add(plain(
        "Shape",
        Kind::Enum(vec![
            Variant { name: "Dot".to_string(), fields: vec![] },
            Variant { name: "Line".to_string(), fields: vec![of_type("0", 0), of_type("1", 0)] },
        ]),
    ));
    let mut classifier = Classifier::new(graph);
    assert_eq!(classifier.classify(e), Verdict::Safe);
}

#[test]
fn enum_with_must_root_field_in_last_variant_requires_rooting() {
    let mut graph = base_graph();
    let e: TypeId = graph.add(plain(
        "Slot",
        Kind::Enum(vec![
            Variant { name: "Empty".to_string(), fields: vec![] },
            Variant { name: "Number".to_string(), fields: vec![of_type("0", 0)] },
            Variant { name: "Node".to_string(), fields: vec![of_type("0", 0), of_type("1", 1)] },
        ]),
    ));
    let mut classifier = Classifier::new(graph);
    assert_eq!(classifier.classify(e), Verdict::MustRoot);
}

#[test]
fn verdict_passes_through_several_levels() {
    let mut graph = base_graph();
    let a: TypeId = graph.add(plain("A", Kind::Struct(vec![of_type("js", 1)])));
    let b: TypeId = graph.add(plain("B", Kind::Struct(vec![of_type("a", a)])));
    let c: TypeId = graph.add(plain("C", Kind::Alias(b)));
    let d: TypeId = graph.add(plain(
        "D",
        Kind::Enum(vec![Variant { name: "Only".to_string(), fields: vec![of_type("0", c)] }]),
    ));
    let mut classifier = Classifier::new(graph);
    assert_eq!(classifier.classify(d), Verdict::MustRoot);
    assert_eq!(classifier.classify(c), Verdict::MustRoot);
    assert_eq!(classifier.classify(b), Verdict::MustRoot);
    assert_eq!(classifier.classify(a), Verdict::MustRoot);
}

#[test]
fn guard_instance_is_exempt_whatever_its_payload() {
    let mut graph = base_graph();
    let rooted_js: TypeId = graph.add(plain("Root<JS>", Kind::Instance { base: 2, args: vec![1] }));
    let rooted_int: TypeId =
        graph.add(plain("Root<int>", Kind::Instance { base: 2, args: vec![0] }));
    let rooted_none: TypeId = graph.add(plain("Root<>", Kind::Instance { base: 2, args: vec![] }));
    let mut classifier = Classifier::new(graph);
    assert_eq!(classifier.classify(1), Verdict::MustRoot);
    assert_eq!(classifier.classify(rooted_js), Verdict::Exempt);
    assert_eq!(classifier.classify(0), Verdict::Safe);
    assert_eq!(classifier.classify(rooted_int), Verdict::Exempt);
    assert_eq!(classifier.classify(rooted_none), Verdict::Exempt);
    assert_eq!(classifier.classify(2), Verdict::Exempt);
}

#[test]
fn struct_holding_a_guard_is_safe() {
    let mut graph = base_graph();
    let rooted_js: TypeId = graph.add(plain("Root<JS>", Kind::Instance { base: 2, args: vec![1] }));
    let s: TypeId = graph.add(plain(
        "Frame",
        Kind::Struct(vec![of_type("count", 0), of_type("node", rooted_js)]),
    ));
    let mut classifier = Classifier::new(graph);
    assert_eq!(classifier.classify(s), Verdict::Safe);
}

#[test]
fn type_that_wraps_the_guard_entirely_is_exempt() {
    let mut graph = base_graph();
    let rooted_js: TypeId = graph.add(plain("Root<JS>", Kind::Instance { base: 2, args: vec![1] }));
    let newtype: TypeId = graph.add(plain("Temp", Kind::Struct(vec![of_type("0", rooted_js)])));
    let alias: TypeId = graph.add(plain("TempAlias", Kind::Alias(newtype)));
    let generic: TypeId = graph.add(plain("Wrap", Kind::Struct(vec![of_param("0", 0)])));
    let applied: TypeId = graph.add(plain(
        "Wrap<Root<JS>>",
        Kind::Instance { base: generic, args: vec![rooted_js] },
    ));
    let mut classifier = Classifier::new(graph);
    assert_eq!(classifier.classify(newtype), Verdict::Exempt);
    assert_eq!(classifier.classify(alias), Verdict::Exempt);
    assert_eq!(classifier.classify(applied), Verdict::Exempt);
    assert_eq!(classifier.classify(generic), Verdict::Safe);
}

#[test]
fn alias_cycle_is_safe() {
    let mut graph = base_graph();
    let a: TypeId = graph.add(plain("A", Kind::Alias(4)));
    let b: TypeId = graph.add(plain("B", Kind::Alias(a)));
    let mut classifier = Classifier::new(graph);
    assert_eq!(classifier.classify(a), Verdict::Safe);
    assert_eq!(classifier.classify(b), Verdict::Safe);
}

#[test]
fn allowed_type_is_exempt_despite_its_field() {
    let mut graph = base_graph();
    let s: TypeId = graph.add(marked(
        "Reflector",
        Marker::AllowUnrooted,
        Kind::Struct(vec![of_type("object", 1), of_type("n", 0)]),
    ));
    let holder: TypeId = graph.add(plain("Holder", Kind::Struct(vec![of_type("r", s)])));
    let mut classifier = Classifier::new(graph);
    assert_eq!(classifier.classify(s), Verdict::Exempt);
    assert_eq!(classifier.classify(holder), Verdict::Safe);
}

#[test]
fn exempt_wins_over_the_must_root_marker() {
    let mut graph = base_graph();
    let both = Markers::only(Marker::MustRoot).insert(Marker::AllowUnrooted);
    let s: TypeId = graph.add(TypeDecl {
        name: "Both".to_string(),
        markers: both,
        kind: Kind::Struct(vec![]),
        location: here(),
    });
    let mut marked_guard = TypeGraph::new();
    let g: TypeId = marked_guard.add(marked("Root", Marker::Combined, Kind::Struct(vec![])));
    marked_guard.set_guard(g);
    let mut classifier = Classifier::new(graph);
    assert_eq!(classifier.classify(s), Verdict::Exempt);
    let mut second = Classifier::new(marked_guard);
    assert_eq!(second.classify(g), Verdict::Exempt);
}

#[test]
fn combined_marker_requires_rooting_without_fields() {
    let mut graph = base_graph();
    let node: TypeId = graph.add(marked("Node", Marker::Combined, Kind::Struct(vec![])));
    let safe_fields: TypeId =
        graph.add(marked("Text", Marker::Combined, Kind::Struct(vec![of_type("len", 0)])));
    let mut classifier = Classifier::new(graph);
    assert_eq!(classifier.classify(node), Verdict::MustRoot);
    assert_eq!(classifier.classify(safe_fields), Verdict::MustRoot);
}

#[test]
fn derive_marker_alone_does_not_require_rooting() {
    let mut graph = base_graph();
    let a: TypeId = graph.add(marked("A", Marker::DeriveTrace, Kind::Struct(vec![])));
    let b: TypeId = graph.add(marked("B", Marker::Privatize, Kind::Struct(vec![of_type("n", 0)])));
    let mut classifier = Classifier::new(graph);
    assert_eq!(classifier.classify(a), Verdict::Safe);
    assert_eq!(classifier.classify(b), Verdict::Safe);
}

#[test]
fn generic_container_of_must_root_payload_requires_rooting() {
    let mut graph = base_graph();
    let list: TypeId = graph.add(plain(
        "List",
        Kind::Struct(vec![of_type("len", 0), of_param("head", 0)]),
    ));
    let of_js: TypeId = graph.add(plain("List<JS>", Kind::Instance { base: list, args: vec![1] }));
    let of_int: TypeId =
        graph.add(plain("List<int>", Kind::Instance { base: list, args: vec![0] }));
    let nested: TypeId =
        graph.add(plain("List<List<JS>>", Kind::Instance { base: list, args: vec![of_js] }));
    let mut classifier = Classifier::new(graph);
    assert_eq!(classifier.classify(of_js), Verdict::MustRoot);
    assert_eq!(classifier.classify(of_int), Verdict::Safe);
    assert_eq!(classifier.classify(nested), Verdict::MustRoot);
    assert_eq!(classifier.classify(list), Verdict::Safe);
}

#[test]
fn generic_enum_takes_the_second_argument() {
    let mut graph = base_graph();
    let either: TypeId = graph.add(plain(
        "Either",
        Kind::Enum(vec![
            Variant { name: "Left".to_string(), fields: vec![of_param("0", 0)] },
            Variant { name: "Right".to_string(), fields: vec![of_param("0", 1)] },
        ]),
    ));
    let right_js: TypeId =
        graph.add(plain("Either<int,JS>", Kind::Instance { base: either, args: vec![0, 1] }));
    let short: TypeId =
        graph.add(plain("Either<int>", Kind::Instance { base: either, args: vec![0] }));
    let mut classifier = Classifier::new(graph);
    assert_eq!(classifier.classify(right_js), Verdict::MustRoot);
    assert_eq!(classifier.classify(short), Verdict::Safe);
}

#[test]
fn instance_of_a_marked_declaration_requires_rooting() {
    let mut graph = base_graph();
    let handle: TypeId =
        graph.add(marked("Handle", Marker::MustRoot, Kind::Struct(vec![of_param("0", 0)])));
    let of_int: TypeId =
        graph.add(plain("Handle<int>", Kind::Instance { base: handle, args: vec![0] }));
    let mut classifier = Classifier::new(graph);
    assert_eq!(classifier.classify(of_int), Verdict::MustRoot);
}

#[test]
fn instance_of_what_is_no_struct_or_enum_is_safe() {
    let mut graph = base_graph();
    let of_opaque: TypeId = graph.add(plain("JS<int>", Kind::Instance { base: 0, args: vec![1] }));
    let of_missing: TypeId =
        graph.add(plain("Gone<JS>", Kind::Instance { base: 99, args: vec![1] }));
    let mut classifier = Classifier::new(graph);
    assert_eq!(classifier.classify(of_opaque), Verdict::Safe);
    assert_eq!(classifier.classify(of_missing), Verdict::Safe);
    assert_eq!(classifier.graph().shape_of(of_opaque), Shape::Unknown);
}

#[test]
fn self_referential_type_is_safe() {
    let mut graph = base_graph();
    let node: TypeId = graph.add(plain(
        "ListNode",
        Kind::Struct(vec![of_type("value", 0), of_type("next", 3)]),
    ));
    let mut classifier = Classifier::new(graph);
    assert_eq!(node, 3);
    assert_eq!(classifier.classify(node), Verdict::Safe);
}

#[test]
fn mutually_recursive_types_without_marker_are_safe() {
    let mut graph = base_graph();
    let a: TypeId = graph.add(plain("A", Kind::Struct(vec![of_type("b", 4)])));
    let b: TypeId = graph.add(plain("B", Kind::Struct(vec![of_type("a", 3), of_type("n", 0)])));
    let mut classifier = Classifier::new(graph);
    assert_eq!(classifier.classify(a), Verdict::Safe);
    assert_eq!(classifier.peek(b), Some(Verdict::Safe));
    assert_eq!(classifier.classify(b), Verdict::Safe);
}

#[test]
fn every_type_of_a_cycle_that_reaches_a_marker_requires_rooting() {
    let mut graph = base_graph();
    // A holds B first and the handle second; B holds A.
    let a: TypeId = graph.add(plain("A", Kind::Struct(vec![of_type("b", 4), of_type("js", 1)])));
    let b: TypeId = graph.add(plain("B", Kind::Struct(vec![of_type("a", 3)])));
    let mut forward = Classifier::new(graph.clone());
    assert_eq!(forward.classify(a), Verdict::MustRoot);
    assert_eq!(forward.classify(b), Verdict::MustRoot);
    let mut backward = Classifier::new(graph);
    assert_eq!(backward.classify(b), Verdict::MustRoot);
    assert_eq!(backward.classify(a), Verdict::MustRoot);
}

#[test]
fn cycle_through_the_guard_is_cut() {
    let mut graph = base_graph();
    let rooted: TypeId = graph.add(plain("Root<Tree>", Kind::Instance { base: 2, args: vec![4] }));
    let tree: TypeId = graph.add(plain(
        "Tree",
        Kind::Struct(vec![of_type("parent", rooted), of_type("size", 0)]),
    ));
    let mut classifier = Classifier::new(graph);
    assert_eq!(classifier.classify(tree), Verdict::Safe);
    assert_eq!(classifier.classify(rooted), Verdict::Exempt);
}

#[test]
fn classify_is_repeatable() {
    let mut graph = base_graph();
    let s: TypeId = graph.add(plain("S", Kind::Struct(vec![of_type("js", 1)])));
    let mut classifier = Classifier::new(graph);
    let mut id: TypeId = 0;
    while id <= s + 1 {
        let first = classifier.classify(id);
        let second = classifier.classify(id);
        let third = classifier.classify(id);
        assert_eq!(first, second);
        assert_eq!(second, third);
        id += 1;
    }
}

#[test]
fn classify_remembers_the_verdict() {
    let mut graph = base_graph();
    let s: TypeId = graph.add(plain("S", Kind::Struct(vec![of_type("js", 1)])));
    let mut classifier = Classifier::new(graph);
    assert_eq!(classifier.peek(s), None);
    assert_eq!(classifier.classify(s), Verdict::MustRoot);
    assert_eq!(classifier.peek(s), Some(Verdict::MustRoot));
    assert_eq!(classifier.peek(2), None);
    assert_eq!(classifier.classify(2), Verdict::Exempt);
    assert_eq!(classifier.peek(2), Some(Verdict::Exempt));
}

#[test]
fn a_remembered_verdict_is_handed_out_without_a_search() {
    let mut graph = base_graph();
    let inner: TypeId = graph.add(plain("Inner", Kind::Struct(vec![of_type("n", 0)])));
    let outer: TypeId = graph.add(plain("Outer", Kind::Struct(vec![of_type("i", inner)])));
    let mut classifier = Classifier::new(graph);
    assert_eq!(classifier.classify(outer), Verdict::Safe);
    // The search from `Outer` has settled `Inner` and `int` too.
    assert_eq!(classifier.peek(inner), Some(Verdict::Safe));
    assert_eq!(classifier.peek(0), Some(Verdict::Safe));
    assert_eq!(classifier.peek(1), None);
    assert_eq!(classifier.classify(inner), Verdict::Safe);
    assert_eq!(classifier.peek(1), None);
}

#[test]
fn remembered_verdicts_serve_later_searches() {
    let mut graph = base_graph();
    let a: TypeId = graph.add(plain("A", Kind::Struct(vec![of_type("js", 1)])));
    let b: TypeId = graph.add(plain("B", Kind::Struct(vec![of_type("a", a)])));
    let c: TypeId = graph.add(plain("C", Kind::Struct(vec![of_type("n", 0)])));
    let d: TypeId = graph.add(plain("D", Kind::Struct(vec![of_type("c", c)])));
    let mut classifier = Classifier::new(graph);
    assert_eq!(classifier.classify(a), Verdict::MustRoot);
    assert_eq!(classifier.classify(b), Verdict::MustRoot);
    assert_eq!(classifier.classify(c), Verdict::Safe);
    assert_eq!(classifier.classify(d), Verdict::Safe);
}

#[test]
fn clear_forgets_every_verdict() {
    let mut classifier = Classifier::new(base_graph());
    assert_eq!(classifier.classify(1), Verdict::MustRoot);
    assert_eq!(classifier.peek(1), Some(Verdict::MustRoot));
    classifier.clear();
    assert_eq!(classifier.peek(1), None);
    assert_eq!(classifier.classify(1), Verdict::MustRoot);
    assert_eq!(classifier.graph().len(), 3);
}

#[test]
fn graph_without_guard_has_no_exempt_instance() {
    let mut graph = TypeGraph::new();
    let js: TypeId = graph.add(marked("JS", Marker::MustRoot, Kind::Opaque));
    let wrapper: TypeId = graph.add(plain("Root", Kind::Struct(vec![of_param("ptr", 0)])));
    let applied: TypeId =
        graph.add(plain("Root<JS>", Kind::Instance { base: wrapper, args: vec![js] }));
    let mut classifier = Classifier::new(graph);
    assert_eq!(classifier.classify(applied), Verdict::MustRoot);
}

#[test]
fn long_chain_is_followed_to_its_end() {
    let mut graph = TypeGraph::new();
    let mut id: TypeId = 0;
    while id < 200 {
        graph.add(plain("Link", Kind::Struct(vec![of_type("next", id + 1)])));
        id += 1;
    }
    graph.add(marked("JS", Marker::MustRoot, Kind::Opaque));
    let mut classifier = Classifier::new(graph);
    assert_eq!(classifier.classify(0), Verdict::MustRoot);
    assert_eq!(classifier.classify(199), Verdict::MustRoot);
    assert_eq!(classifier.classify(200), Verdict::MustRoot);
}

#[test]
fn accessor_yields_shape_and_markers() {
    let mut graph = base_graph();
    let pair: TypeId = graph.add(plain(
        "Pair",
        Kind::Struct(vec![of_param("a", 0), of_type("n", 0), of_param("b", 1)]),
    ));
    let marked_pair: TypeId = graph.add(TypeDecl {
        name: "Pair<JS,int>".to_string(),
        markers: Markers::only(Marker::Privatize),
        kind: Kind::Instance { base: 2, args: vec![1, 0] },
        location: here(),
    });
    let applied: TypeId =
        graph.add(plain("Pair<JS>", Kind::Instance { base: pair, args: vec![1] }));
    let alias: TypeId = graph.add(plain("P", Kind::Alias(pair)));
    assert_eq!(graph.shape_of(0), Shape::Primitive);
    assert_eq!(graph.shape_of(1), Shape::Unknown);
    assert_eq!(graph.shape_of(pair), Shape::Struct(vec![None, Some(0), None]));
    assert_eq!(graph.shape_of(applied), Shape::Struct(vec![Some(1), Some(0), None]));
    assert_eq!(graph.shape_of(alias), Shape::Alias(pair));
    assert_eq!(graph.shape_of(1000), Shape::Unknown);
    assert_eq!(graph.markers_of(1), Markers::only(Marker::MustRoot));
    assert_eq!(graph.markers_of(pair), Markers::none());
    assert_eq!(graph.markers_of(1000), Markers::none());
    assert_eq!(graph.markers_of(marked_pair), Markers::only(Marker::Privatize));
    assert_eq!(graph.declaration_of(applied), pair);
    assert_eq!(graph.declaration_of(pair), pair);
    assert!(graph.is_guard(marked_pair));
    assert!(graph.is_guard(2));
    assert!(!graph.is_guard(pair));
    assert!(graph.is_exempt(marked_pair));
    assert!(!graph.is_exempt(applied));
    let mut held = graph.successors(applied);
    held.sort();
    assert_eq!(held, vec![0, 1]);
    assert_eq!(graph.successors(alias), vec![pair]);
    assert!(graph.successors(0).is_empty());
}

#[test]
fn instance_takes_the_markers_of_its_declaration() {
    let mut graph = base_graph();
    let handle: TypeId =
        graph.add(marked("Handle", Marker::MustRoot, Kind::Struct(vec![of_param("0", 0)])));
    let applied: TypeId = graph.add(TypeDecl {
        name: "Handle<int>".to_string(),
        markers: Markers::only(Marker::Privatize),
        kind: Kind::Instance { base: handle, args: vec![0] },
        location: here(),
    });
    assert_eq!(
        graph.markers_of(applied),
        Markers::only(Marker::Privatize).insert(Marker::MustRoot)
    );
}
