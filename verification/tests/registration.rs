use plugins::classifier::Classifier;
use plugins::diagnostics::ViolationKind;
use plugins::graph::{Field, Kind, Location, TypeDecl, TypeGraph, TypeRef};
use plugins::lints::{CallSite, FunctionBody, LocationKind, PlacementSite};
use plugins::markers::{Marker, MarkerNames, Markers};
use plugins::plugin_registrar;
use plugins::registry::{Expander, LintPassObject, NamedExtension, Registry, SyntaxExtension};

fn origin() -> Location {
    Location { line: 0, column: 0 }
}

#[test]
fn registrar_registers_two_extensions_and_three_passes() {
    let mut reg = Registry::new();
    assert!(reg.syntax_extensions.is_empty());
    assert!(reg.lint_passes.is_empty());
    plugin_registrar(&mut reg);
    assert_eq!(
        reg.syntax_extensions,
        vec![
            NamedExtension {
                name: "dom_struct".to_string(),
                extension: SyntaxExtension::Modifier(Expander::DomStruct),
            },
            NamedExtension {
                name: "jstraceable".to_string(),
                extension: SyntaxExtension::Decorator(Expander::JsTraceable),
            },
        ]
    );
    assert_eq!(
        reg.lint_passes,
        vec![LintPassObject::Transmute, LintPassObject::Unrooted, LintPassObject::Privatize]
    );
}

#[test]
fn registrar_keeps_what_was_registered_before() {
    let mut reg = Registry::new();
    reg.register_lint_pass(LintPassObject::Privatize);
    reg.register_syntax_extension(
        "other".to_string(),
        SyntaxExtension::Decorator(Expander::DomStruct),
    );
    plugin_registrar(&mut reg);
    assert_eq!(reg.lint_passes.len(), 4);
    assert_eq!(reg.lint_passes[0], LintPassObject::Privatize);
    assert_eq!(reg.syntax_extensions.len(), 3);
    assert_eq!(reg.syntax_extensions[0].name, "other");
}

#[test]
fn extension_is_found_by_the_name_of_its_marker() {
    let mut reg = Registry::new();
    plugin_registrar(&mut reg);
    assert_eq!(
        reg.extension_named(&"dom_struct".to_string()),
        Some(SyntaxExtension::Modifier(Expander::DomStruct))
    );
    assert_eq!(
        reg.extension_named(&"jstraceable".to_string()),
        Some(SyntaxExtension::Decorator(Expander::JsTraceable))
    );
    assert_eq!(reg.extension_named(&"must_root".to_string()), None);
    assert_eq!(reg.extension_named(&"".to_string()), None);
    assert_eq!(Registry::new().extension_named(&"dom_struct".to_string()), None);
}

#[test]
fn later_registration_under_a_name_replaces_the_earlier() {
    let mut reg = Registry::new();
    plugin_registrar(&mut reg);
    reg.register_syntax_extension(
        "dom_struct".to_string(),
        SyntaxExtension::Decorator(Expander::JsTraceable),
    );
    assert_eq!(
        reg.extension_named(&"dom_struct".to_string()),
        Some(SyntaxExtension::Decorator(Expander::JsTraceable))
    );
}

fn small_program() -> (TypeGraph, Vec<FunctionBody>) {
    let mut graph = TypeGraph::new();
    graph.add(TypeDecl {
        name: "JS".to_string(),
        markers: Markers::only(Marker::MustRoot),
        kind: Kind::Opaque,
        location: origin(),
    });
    graph.add(TypeDecl {
        name: "Node".to_string(),
        markers: Markers::only(Marker::Combined),
        kind: Kind::Struct(vec![Field {
            name: "parent".to_string(),
            ty: TypeRef::Concrete(0),
            public: true,
            location: Location { line: 5, column: 1 },
        }]),
        location: origin(),
    });
    let bodies = vec![FunctionBody {
        sites: vec![PlacementSite {
            kind: LocationKind::LocalBinding { rooted_at_once: false },
            ty: 1,
            location: Location { line: 9, column: 1 },
        }],
        calls: vec![CallSite {
            callee: "transmute".to_string(),
            args: vec![0],
            result: 1,
            acknowledged: false,
            location: Location { line: 10, column: 1 },
        }],
    }];
    (graph, bodies)
}

#[test]
fn registered_passes_run_in_the_order_of_registration() {
    let (graph, bodies) = small_program();
    let mut classifier = Classifier::new(graph);
    let mut reg = Registry::new();
    plugin_registrar(&mut reg);
    let found = reg.run_lint_passes(&mut classifier, &bodies);
    let kinds: Vec<ViolationKind> = found.iter().map(|d| d.kind).collect();
    assert_eq!(
        kinds,
        vec![
            ViolationKind::ReinterpretationViolation,
            ViolationKind::StructuralViolation,
            ViolationKind::VisibilityViolation,
        ]
    );
    assert_eq!(found[0].location, Location { line: 10, column: 1 });
    assert_eq!(found[1].location, Location { line: 9, column: 1 });
    assert_eq!(found[2].location, Location { line: 5, column: 1 });
    assert_eq!(found[1].message, "unrooted local of type Node");
}

#[test]
fn only_registered_passes_run() {
    let (graph, bodies) = small_program();
    let mut classifier = Classifier::new(graph);
    let mut reg = Registry::new();
    assert!(reg.run_lint_passes(&mut classifier, &bodies).is_empty());
    reg.register_lint_pass(LintPassObject::Privatize);
    reg.register_lint_pass(LintPassObject::Privatize);
    let found = reg.run_lint_passes(&mut classifier, &bodies);
    assert_eq!(found.len(), 2);
    assert_eq!(found[0], found[1]);
    assert_eq!(found[0].kind, ViolationKind::VisibilityViolation);
    assert_eq!(LintPassObject::Unrooted.run(&mut classifier, &bodies).len(), 1);
    assert_eq!(LintPassObject::Transmute.run(&mut classifier, &bodies).len(), 1);
}

#[test]
fn markers_are_recognised_by_their_names() {
    let names = MarkerNames::standard();
    assert_eq!(names.recognize(&"must_root".to_string()), Some(Marker::MustRoot));
    assert_eq!(names.recognize(&"jstraceable".to_string()), Some(Marker::DeriveTrace));
    assert_eq!(names.recognize(&"privatize".to_string()), Some(Marker::Privatize));
    assert_eq!(names.recognize(&"dom_struct".to_string()), Some(Marker::Combined));
    assert_eq!(names.recognize(&"allow_unrooted".to_string()), Some(Marker::AllowUnrooted));
    assert_eq!(names.recognize(&"inline".to_string()), None);
    assert_eq!(names.recognize(&"Must_Root".to_string()), None);
    assert_eq!(names.recognize(&"".to_string()), None);
}

#[test]
fn marker_set_is_gathered_from_the_attributes() {
    let names = MarkerNames::standard();
    let attrs: Vec<String> =
        vec!["inline".to_string(), "must_root".to_string(), "privatize".to_string()];
    assert_eq!(
        names.markers_of(&attrs),
        Markers {
            privatize: true,
            derive_trace: false,
            must_root: true,
            combined: false,
            allow_unrooted: false,
        }
    );
    assert_eq!(names.markers_of(&vec![]), Markers::none());
    assert_eq!(
        names.markers_of(&vec!["dom_struct".to_string(), "dom_struct".to_string()]),
        Markers::only(Marker::Combined)
    );
}

#[test]
fn registered_names_replace_the_standard_ones() {
    let names = MarkerNames {
        privatize: "private".to_string(),
        derive_trace: "trace".to_string(),
        must_root: "rooted".to_string(),
        combined: "managed".to_string(),
        allow_unrooted: "rooted".to_string(),
    };
    assert_eq!(names.recognize(&"managed".to_string()), Some(Marker::Combined));
    assert_eq!(names.recognize(&"must_root".to_string()), None);
    // Two markers under one name: the one that requires rooting is meant.
    assert_eq!(names.recognize(&"rooted".to_string()), Some(Marker::MustRoot));
}

#[test]
fn marker_sets_combine() {
    let set = Markers::none().insert(Marker::DeriveTrace).insert(Marker::AllowUnrooted);
    assert!(set.contains(Marker::DeriveTrace));
    assert!(set.contains(Marker::AllowUnrooted));
    assert!(!set.contains(Marker::MustRoot));
    assert!(!set.contains(Marker::Combined));
    assert!(!set.contains(Marker::Privatize));
    assert!(set.is_trace_derived());
    assert!(!set.is_rooting_required());
    assert!(!set.is_private_only());
    let combined = Markers::only(Marker::Combined);
    assert!(combined.is_trace_derived());
    assert!(combined.is_rooting_required());
    assert!(combined.is_private_only());
    assert!(Markers::only(Marker::MustRoot).is_rooting_required());
    assert!(Markers::only(Marker::Privatize).is_private_only());
    assert_eq!(
        set.union(combined),
        Markers {
            privatize: false,
            derive_trace: true,
            must_root: false,
            combined: true,
            allow_unrooted: true,
        }
    );
    assert_eq!(Markers::none().union(Markers::none()), Markers::none());
}

#[test]
fn modifier_is_applied_under_its_registered_name_only() {
    let mut reg = Registry::new();
    plugin_registrar(&mut reg);
    let node = TypeDecl {
        name: "Node".to_string(),
        markers: Markers::only(Marker::Combined),
        kind: Kind::Struct(vec![]),
        location: origin(),
    };
    let expanded = reg.modify(&"dom_struct".to_string(), node.clone());
    assert!(expanded.markers.must_root);
    assert!(expanded.markers.derive_trace);
    assert!(expanded.markers.privatize);
    assert!(expanded.markers.combined);
    assert_eq!(expanded.name, "Node");
    assert_eq!(reg.modify(&"jstraceable".to_string(), node.clone()), node);
    assert_eq!(reg.modify(&"must_root".to_string(), node.clone()), node);
    assert_eq!(Registry::new().modify(&"dom_struct".to_string(), node.clone()), node);
}

#[test]
fn decorator_derives_for_requests_under_its_registered_name_only() {
    let (graph, _) = small_program();
    let mut classifier = Classifier::new(graph);
    let mut reg = Registry::new();
    plugin_registrar(&mut reg);
    let derived = reg.decorate(&mut classifier, &"jstraceable".to_string(), 1);
    let traversal = derived.unwrap().unwrap();
    assert_eq!(traversal.decl, 1);
    assert_eq!(
        traversal.body,
        plugins::jstraceable::TraversalBody::Struct(vec![plugins::jstraceable::TraceCall {
            field: 0,
            via: TypeRef::Concrete(0),
        }])
    );
    assert_eq!(reg.decorate(&mut classifier, &"dom_struct".to_string(), 1), None);
    assert_eq!(reg.decorate(&mut classifier, &"jstraceable".to_string(), 0), None);
    assert_eq!(reg.decorate(&mut classifier, &"jstraceable".to_string(), 50), None);
    assert_eq!(Registry::new().decorate(&mut classifier, &"jstraceable".to_string(), 1), None);
}

#[test]
fn decorator_hands_back_the_finding_of_a_failed_derivation() {
    let mut graph = TypeGraph::new();
    graph.add(TypeDecl {
        name: "Extern".to_string(),
        markers: Markers::none(),
        kind: Kind::Opaque,
        location: origin(),
    });
    graph.add(TypeDecl {
        name: "Doc".to_string(),
        markers: Markers::only(Marker::DeriveTrace),
        kind: Kind::Struct(vec![Field {
            name: "cache".to_string(),
            ty: TypeRef::Concrete(0),
            public: false,
            location: Location { line: 8, column: 2 },
        }]),
        location: origin(),
    });
    let mut classifier = Classifier::new(graph);
    let mut reg = Registry::new();
    plugin_registrar(&mut reg);
    let failed = reg.decorate(&mut classifier, &"jstraceable".to_string(), 1).unwrap().unwrap_err();
    assert_eq!(failed.kind, ViolationKind::DerivationFailure);
    assert_eq!(failed.message, "cannot derive the traversal of Doc: field cache");
    assert!(plugins::diagnostics::blocks_compilation(&vec![failed]));
}

#[test]
fn only_errors_stop_the_compilation() {
    let warning = plugins::diagnostics::Diagnostic {
        severity: plugins::diagnostics::Severity::Warning,
        kind: ViolationKind::StructuralViolation,
        message: "w".to_string(),
        location: origin(),
    };
    let error = plugins::diagnostics::Diagnostic {
        severity: plugins::diagnostics::Severity::Error,
        kind: ViolationKind::VisibilityViolation,
        message: "e".to_string(),
        location: origin(),
    };
    assert!(!plugins::diagnostics::blocks_compilation(&vec![]));
    assert!(!plugins::diagnostics::blocks_compilation(&vec![warning.clone(), warning.clone()]));
    assert!(plugins::diagnostics::blocks_compilation(&vec![warning.clone(), error.clone()]));
    assert!(plugins::diagnostics::blocks_compilation(&vec![error, warning]));
}
