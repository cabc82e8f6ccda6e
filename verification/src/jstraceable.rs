//! Handles the auto-deriving of the traversal that lets the collector reach
//! every managed reference of a struct or an enum.

use vstd::prelude::*;
use vstd::string::StringExecFns;
use crate::classifier::Classifier;
use crate::diagnostics::{Diagnostic, DiagnosticView, ViolationKind, finding};
use crate::graph::{
    Field,
    FieldView,
    GraphView,
    Kind,
    KindView,
    Location,
    TypeDecl,
    TypeDeclView,
    TypeGraph,
    TypeId,
    TypeRef,
    VariantView,
    fields_view,
};
use crate::markers::Markers;
use crate::verdict::Verdict;

verus! {

/// One call of a generated traversal: the traversal is forwarded to the
/// field with the index `field`, whose declared type is `via`. Where `via`
/// is a parameter of the declaration, the call goes to the traversal of the
/// type argument that an instance puts in its place.
#[derive(Clone, Copy, Debug, PartialEq, Eq, Structural)]
pub struct TraceCall {
    pub field: usize,
    pub via: TypeRef,
}

/// The body of a generated traversal.
#[derive(Clone, Debug, PartialEq, Eq)]
pub enum TraversalBody {
    /// The calls for the fields of a struct, in declaration order.
    Struct(Vec<TraceCall>),
    /// A dispatch over the variants of an enum: for each variant, in
    /// declaration order, the calls for its fields.
    Enum(Vec<Vec<TraceCall>>),
}

/// The traversal generated for the declaration `decl`.
#[derive(Clone, Debug, PartialEq, Eq)]
pub struct TraversalImpl {
    pub decl: TypeId,
    pub body: TraversalBody,
}

/// Model of a [`TraversalBody`].
pub enum TraversalBodyView {
    Struct(Seq<TraceCall>),
    Enum(Seq<Seq<TraceCall>>),
}

/// Model of a [`TraversalImpl`].
pub struct TraversalView {
    pub decl: TypeId,
    pub body: TraversalBodyView,
}

impl View for TraversalBody {
    type V = TraversalBodyView;

    open spec fn view(&self) -> TraversalBodyView {
        match self {
            TraversalBody::Struct(calls) => TraversalBodyView::Struct(calls@),
            TraversalBody::Enum(arms) => TraversalBodyView::Enum(
                Seq::new(arms@.len(), |i: int| arms@[i]@),
            ),
        }
    }
}

impl View for TraversalImpl {
    type V = TraversalView;

    open spec fn view(&self) -> TraversalView {
        TraversalView { decl: self.decl, body: self.body@ }
    }
}

/// The declared types of `fields`, in declaration order.
pub open spec fn field_types(fields: Seq<FieldView>) -> Seq<TypeRef> {
    Seq::new(fields.len(), |i: int| fields[i].ty)
}

impl GraphView {
    /// Whether nothing is known of `t` by which it could be classified: it
    /// is no type of the graph, or its shape is unknown and no marker
    /// decides its verdict.
    pub open spec fn unclassifiable(self, t: TypeId) -> bool {
        !self.known(t) || (self.shape_of(t) is Unknown && !self.rooted(t) && !self.exempt(t))
    }

    /// Whether no traversal call can be generated for a field of the
    /// declared type `r`, nor the field be passed over as safe.
    pub open spec fn untraceable(self, r: TypeRef) -> bool {
        r matches TypeRef::Concrete(t) && self.unclassifiable(t)
    }

    /// Whether the traversal visits a field of the declared type `r`: its
    /// type is not safe. A field whose type is a parameter is visited.
    pub open spec fn traced(self, r: TypeRef) -> bool {
        match r {
            TypeRef::Concrete(t) => self.verdict(t) != Verdict::Safe,
            TypeRef::Param(_) => true,
        }
    }

    /// The calls for the first `n` fields, whose declared types are `types`.
    pub open spec fn trace_calls(self, types: Seq<TypeRef>, n: nat) -> Seq<TraceCall>
        decreases n,
    {
        if n == 0 {
            Seq::empty()
        } else {
            let rest = self.trace_calls(types, (n - 1) as nat);
            if self.traced(types[n - 1]) {
                rest.push(TraceCall { field: (n - 1) as usize, via: types[n - 1] })
            } else {
                rest
            }
        }
    }

    /// The index of the first of the first `n` fields for which no
    /// traversal can be generated.
    pub open spec fn first_untraceable(self, types: Seq<TypeRef>, n: nat) -> Option<int>
        decreases n,
    {
        if n == 0 {
            None
        } else {
            match self.first_untraceable(types, (n - 1) as nat) {
                Some(i) => Some(i),
                None => if self.untraceable(types[n - 1]) {
                    Some(n - 1)
                } else {
                    None
                },
            }
        }
    }

    /// For each of the first `n` variants, the calls for its fields.
    pub open spec fn arms(self, variants: Seq<VariantView>, n: nat) -> Seq<Seq<TraceCall>> {
        Seq::new(
            n,
            |v: int|
                self.trace_calls(field_types(variants[v].fields), variants[v].fields.len()),
        )
    }

    /// The first field of the first `n` variants for which no traversal can
    /// be generated, by the index of its variant and its own.
    pub open spec fn first_untraceable_in(self, variants: Seq<VariantView>, n: nat) -> Option<
        (int, int),
    >
        decreases n,
    {
        if n == 0 {
            None
        } else {
            match self.first_untraceable_in(variants, (n - 1) as nat) {
                Some(at) => Some(at),
                None => match self.first_untraceable(
                    field_types(variants[n - 1].fields),
                    variants[n - 1].fields.len(),
                ) {
                    Some(i) => Some((n - 1, i)),
                    None => None,
                },
            }
        }
    }

    /// Whether a traversal is to be derived for `d`: it is a struct or an
    /// enum of the graph and carries a marker that asks for it.
    pub open spec fn requests_derivation(self, d: TypeId) -> bool {
        &&& self.known(d)
        &&& self.decls[d as int].markers.derives_trace()
        &&& (self.decls[d as int].kind is Struct || self.decls[d as int].kind is Enum)
    }

    /// The finding for the field `f` of `d` for which no traversal can be
    /// generated: it names the declaration and the field.
    pub open spec fn derivation_failure(self, d: TypeId, f: FieldView) -> DiagnosticView {
        finding(
            ViolationKind::DerivationFailure,
            "cannot derive the traversal of "@ + self.decls[d as int].name + ": field "@,
            f.name,
            f.location,
        )
    }

    /// What the derivation for `d` yields: the traversal, or the finding for
    /// the first field that stands in its way.
    pub open spec fn derivation(self, d: TypeId) -> Result<TraversalView, DiagnosticView> {
        if !self.requests_derivation(d) {
            Err(not_requested())
        } else {
            match self.decls[d as int].kind {
                KindView::Enum(variants) => match self.first_untraceable_in(
                    variants,
                    variants.len(),
                ) {
                    Some(at) => Err(self.derivation_failure(d, variants[at.0].fields[at.1])),
                    None => Ok(
                        TraversalView {
                            decl: d,
                            body: TraversalBodyView::Enum(self.arms(variants, variants.len())),
                        },
                    ),
                },
                kind => {
                    let fields = kind->Struct_0;
                    match self.first_untraceable(field_types(fields), fields.len()) {
                        Some(i) => Err(self.derivation_failure(d, fields[i])),
                        None => Ok(
                            TraversalView {
                                decl: d,
                                body: TraversalBodyView::Struct(
                                    self.trace_calls(field_types(fields), fields.len()),
                                ),
                            },
                        ),
                    }
                },
            }
        }
    }
}

/// The finding for a request that names no struct or enum marked for
/// derivation.
pub open spec fn not_requested() -> DiagnosticView {
    finding(
        ViolationKind::DerivationFailure,
        "no struct or enum marked for derivation"@,
        ""@,
        Location { line: 0, column: 0 },
    )
}

/// The generated calls are those for the fields whose type is not safe, each
/// once and in declaration order: every call names a field that is visited,
/// with its declared type; the fields named rise strictly; and every field
/// that is visited is named.
pub proof fn law_trace_calls(g: GraphView, types: Seq<TypeRef>, n: nat)
    requires
        n <= types.len(),
        n <= usize::MAX,
    ensures
        forall|k: int|
            0 <= k < g.trace_calls(types, n).len() ==> {
                let call = #[trigger] g.trace_calls(types, n)[k];
                call.field < n && g.traced(types[call.field as int]) && call.via
                    == types[call.field as int]
            },
        forall|j: int, k: int|
            0 <= j < k < g.trace_calls(types, n).len() ==> (#[trigger] g.trace_calls(
                types,
                n,
            )[j]).field < (#[trigger] g.trace_calls(types, n)[k]).field,
        forall|i: int|
            0 <= i < n && g.traced(#[trigger] types[i]) ==> g.trace_calls(types, n).contains(
                TraceCall { field: i as usize, via: types[i] },
            ),
    decreases n,
{
    if n > 0 {
        let rest = g.trace_calls(types, (n - 1) as nat);
        let all = g.trace_calls(types, n);
        law_trace_calls(g, types, (n - 1) as nat);
        assert forall|i: int| 0 <= i < n && g.traced(#[trigger] types[i]) implies all.contains(
            TraceCall { field: i as usize, via: types[i] },
        ) by {
            let call = TraceCall { field: i as usize, via: types[i] };
            if i < n - 1 {
                assert(rest.contains(call));
                let k = choose|k: int| 0 <= k < rest.len() && rest[k] == call;
                assert(all[k] == call);
            } else {
                assert(all[all.len() - 1] == call);
            }
        }
    }
}

/// No call is generated for a field whose type is safe.
pub proof fn law_safe_fields_are_skipped(g: GraphView, types: Seq<TypeRef>, n: nat, i: int)
    requires
        n <= types.len(),
        n <= usize::MAX,
        0 <= i < n,
        !g.traced(types[i]),
    ensures
        forall|k: int|
            0 <= k < g.trace_calls(types, n).len() ==> (#[trigger] g.trace_calls(
                types,
                n,
            )[k]).field != i,
{
    law_trace_calls(g, types, n);
}

impl TypeGraph {
    /// Whether the shape of `t` is unknown.
    pub fn is_shape_unknown(&self, t: TypeId) -> (b: bool)
        ensures
            b == (self@.shape_of(t) is Unknown),
    {
        if t < self.decls.len() {
            match &self.decls[t].kind {
                Kind::Opaque => true,
                Kind::Instance { base, args } => {
                    if *base < self.decls.len() {
                        match &self.decls[*base].kind {
                            Kind::Struct(_) => false,
                            Kind::Enum(_) => false,
                            _ => true,
                        }
                    } else {
                        true
                    }
                },
                _ => false,
            }
        } else {
            true
        }
    }

    /// Whether nothing is known of `t` by which it could be classified.
    pub fn is_unclassifiable(&self, t: TypeId) -> (b: bool)
        ensures
            b == self@.unclassifiable(t),
    {
        t >= self.decls.len() || (self.is_shape_unknown(t) && !self.markers_of(
            t,
        ).is_rooting_required() && !self.is_exempt(t))
    }

    /// Whether a traversal is to be derived for `d`.
    pub fn requests_derivation(&self, d: TypeId) -> (b: bool)
        ensures
            b == self@.requests_derivation(d),
    {
        if d < self.decls.len() && self.decls[d].markers.is_trace_derived() {
            match &self.decls[d].kind {
                Kind::Struct(_) => true,
                Kind::Enum(_) => true,
                _ => false,
            }
        } else {
            false
        }
    }
}

/// The declared types of `fields`.
fn types_of(fields: &Vec<Field>) -> (types: Vec<TypeRef>)
    ensures
        types@ == field_types(fields_view(fields@)),
{
    let mut types: Vec<TypeRef> = Vec::new();
    let mut i: usize = 0;
    while i < fields.len()
        invariant
            i <= fields@.len(),
            types@.len() == i,
            forall|j: int| 0 <= j < i ==> types@[j] == fields@[j].ty,
        decreases fields@.len() - i,
    {
        types.push(fields[i].ty);
        i = i + 1;
    }
    assert(types@ =~= field_types(fields_view(fields@)));
    types
}

/// Plans the calls for fields of the declared types `types`: the calls, or
/// the index of the first field for which none can be generated.
fn plan_fields(classifier: &mut Classifier, types: &Vec<TypeRef>) -> (r: Result<
    Vec<TraceCall>,
    usize,
>)
    ensures
        final(classifier)@ == old(classifier)@,
        match r {
            Ok(calls) => old(classifier)@.first_untraceable(types@, types@.len()).is_none()
                && calls@ == old(classifier)@.trace_calls(types@, types@.len()),
            Err(i) => old(classifier)@.first_untraceable(types@, types@.len()) == Some(i as int)
                && i < types@.len(),
        },
{
    let ghost g = classifier@;
    let mut calls: Vec<TraceCall> = Vec::new();
    let mut i: usize = 0;
    while i < types.len()
        invariant
            i <= types@.len(),
            classifier@ == g,
            g == old(classifier)@,
            g.first_untraceable(types@, i as nat).is_none(),
            calls@ == g.trace_calls(types@, i as nat),
        decreases types@.len() - i,
    {
        let traced = match types[i] {
            TypeRef::Param(_) => true,
            TypeRef::Concrete(t) => {
                match classifier.classify(t) {
                    Verdict::Safe => {
                        if classifier.graph().is_unclassifiable(t) {
                            proof {
                                lemma_first_untraceable_stays(g, types@, (i + 1) as nat, types@.len());
                            }
                            return Err(i);
                        }
                        false
                    },
                    _ => {
                        proof {
                            lemma_classified_is_traceable(g, t);
                        }
                        true
                    },
                }
            },
        };
        if traced {
            calls.push(TraceCall { field: i, via: types[i] });
        }
        i = i + 1;
    }
    Ok(calls)
}

/// A type whose verdict is not safe can be classified.
proof fn lemma_classified_is_traceable(g: GraphView, t: TypeId)
    requires
        g.verdict(t) != Verdict::Safe,
    ensures
        !g.unclassifiable(t),
{
    if g.known(t) && g.shape_of(t) is Unknown && !g.rooted(t) && !g.exempt(t) {
        crate::verdict::lemma_must_root_unfold(g, t);
    }
}

/// The first field that stands in the way stays the first when more fields
/// are looked at.
proof fn lemma_first_untraceable_stays(g: GraphView, types: Seq<TypeRef>, n: nat, m: nat)
    requires
        n <= m,
        g.first_untraceable(types, n).is_some(),
    ensures
        g.first_untraceable(types, m) == g.first_untraceable(types, n),
    decreases m - n,
{
    if n < m {
        lemma_first_untraceable_stays(g, types, n, (m - 1) as nat);
    }
}

/// The finding for the field `field` of `d`, for which no traversal can be
/// generated.
fn failure_for(graph: &TypeGraph, d: TypeId, field: &Field) -> (r: Diagnostic)
    requires
        graph@.known(d),
    ensures
        r@ == graph@.derivation_failure(d, field@),
{
    let prefix = String::from_str("cannot derive the traversal of ").concat(
        graph.decls[d].name.as_str(),
    ).concat(": field ");
    Diagnostic::new(
        ViolationKind::DerivationFailure,
        prefix.as_str(),
        field.name.as_str(),
        field.location,
    )
}

/// A declaration for which a traversal is to be derived. A request is made
/// when the marker is observed, and used up when the traversal is generated.
#[derive(Debug)]
pub struct DerivationRequest {
    decl: TypeId,
}

impl DerivationRequest {
    /// The declaration that the request is for.
    pub closed spec fn decl(&self) -> TypeId {
        self.decl
    }

    /// Makes the request for `d`, if `d` is a struct or an enum of the graph
    /// that carries a marker which asks for a traversal.
    pub fn observe(graph: &TypeGraph, d: TypeId) -> (r: Option<DerivationRequest>)
        ensures
            r.is_some() <==> graph@.requests_derivation(d),
            r matches Some(request) ==> request.decl() == d,
    {
        if graph.requests_derivation(d) {
            Some(DerivationRequest { decl: d })
        } else {
            None
        }
    }

    /// The declaration that the request is for.
    pub fn declaration(&self) -> (d: TypeId)
        ensures
            d == self.decl(),
    {
        self.decl
    }
}

/// Generates the traversal for the declaration of `request`. For a struct
/// the traversal calls each field whose type is not safe, in declaration
/// order; for an enum it does so within each variant. Where a field has a
/// type of which nothing is known, no traversal is generated, and the
/// finding names the first such field. A request that names no struct or
/// enum marked for derivation in this graph yields a finding too.
pub fn expand_jstraceable(classifier: &mut Classifier, request: DerivationRequest) -> (r: Result<
    TraversalImpl,
    Diagnostic,
>)
    ensures
        final(classifier)@ == old(classifier)@,
        match r {
            Ok(traversal) => old(classifier)@.derivation(request.decl()) == Ok::<
                TraversalView,
                DiagnosticView,
            >(traversal@),
            Err(d) => old(classifier)@.derivation(request.decl()) == Err::<
                TraversalView,
                DiagnosticView,
            >(d@),
        },
{
    let ghost g = classifier@;
    let d = request.decl;
    if !classifier.graph().requests_derivation(d) {
        return Err(
            Diagnostic::new(
                ViolationKind::DerivationFailure,
                "no struct or enum marked for derivation",
                "",
                Location { line: 0, column: 0 },
            ),
        );
    }
    let variants: Option<usize> = match &classifier.graph().decls[d].kind {
        Kind::Enum(vs) => Some(vs.len()),
        _ => None,
    };
    match variants {
        None => {
            let types = match &classifier.graph().decls[d].kind {
                Kind::Struct(fields) => types_of(fields),
                _ => Vec::new(),
            };
            match plan_fields(classifier, &types) {
                Ok(calls) => Ok(TraversalImpl { decl: d, body: TraversalBody::Struct(calls) }),
                Err(i) => {
                    let graph = classifier.graph();
                    match &graph.decls[d].kind {
                        Kind::Struct(fields) => Err(failure_for(graph, d, &fields[i])),
                        _ => Err(
                            Diagnostic::new(
                                ViolationKind::DerivationFailure,
                                "no struct or enum marked for derivation",
                                "",
                                Location { line: 0, column: 0 },
                            ),
                        ),
                    }
                },
            }
        },
        Some(n) => {
            let ghost model = g.decls[d as int].kind->Enum_0;
            let mut arms: Vec<Vec<TraceCall>> = Vec::new();
            let mut v: usize = 0;
            while v < n
                invariant
                    v <= n,
                    n == model.len(),
                    classifier@ == g,
                    g == old(classifier)@,
                    d == request.decl(),
                    g.requests_derivation(d),
                    g.decls[d as int].kind == KindView::Enum(model),
                    g.first_untraceable_in(model, v as nat).is_none(),
                    arms@.len() == v,
                    forall|j: int|
                        0 <= j < v ==> (#[trigger] arms@[j])@ == g.trace_calls(
                            field_types(model[j].fields),
                            model[j].fields.len(),
                        ),
                decreases n - v,
            {
                let types = match &classifier.graph().decls[d].kind {
                    Kind::Enum(vs) => types_of(&vs[v].fields),
                    _ => Vec::new(),
                };
                assert(types@ == field_types(model[v as int].fields));
                match plan_fields(classifier, &types) {
                    Ok(calls) => {
                        arms.push(calls);
                    },
                    Err(i) => {
                        proof {
                            lemma_first_untraceable_in_stays(g, model, (v + 1) as nat, n as nat);
                        }
                        let graph = classifier.graph();
                        match &graph.decls[d].kind {
                            Kind::Enum(vs) => {
                                return Err(failure_for(graph, d, &vs[v].fields[i]));
                            },
                            _ => {
                                return Err(
                                    Diagnostic::new(
                                        ViolationKind::DerivationFailure,
                                        "no struct or enum marked for derivation",
                                        "",
                                        Location { line: 0, column: 0 },
                                    ),
                                );
                            },
                        }
                    },
                }
                v = v + 1;
            }
            let traversal = TraversalImpl { decl: d, body: TraversalBody::Enum(arms) };
            assert(traversal@.body =~= TraversalBodyView::Enum(g.arms(model, n as nat))) by {
                assert(Seq::new(arms@.len(), |i: int| arms@[i]@) =~= g.arms(model, n as nat));
            }
            Ok(traversal)
        },
    }
}

/// The first field that stands in the way stays the first when more
/// variants are looked at.
proof fn lemma_first_untraceable_in_stays(g: GraphView, variants: Seq<VariantView>, n: nat, m: nat)
    requires
        n <= m,
        g.first_untraceable_in(variants, n).is_some(),
    ensures
        g.first_untraceable_in(variants, m) == g.first_untraceable_in(variants, n),
    decreases m - n,
{
    if n < m {
        lemma_first_untraceable_in_stays(g, variants, n, (m - 1) as nat);
    }
}

/// Expands the combined marker of a declaration into the three markers it
/// implies: private-only, derived traversal, and rooting required. A
/// declaration without the combined marker is handed back unchanged.
pub fn expand_dom_struct(decl: TypeDecl) -> (r: TypeDecl)
    ensures
        r@ == (TypeDeclView { markers: decl@.markers.expanded(), ..decl@ }),
{
    let markers = if decl.markers.combined {
        Markers {
            privatize: true,
            derive_trace: true,
            must_root: true,
            combined: decl.markers.combined,
            allow_unrooted: decl.markers.allow_unrooted,
        }
    } else {
        decl.markers
    };
    TypeDecl { name: decl.name, markers, kind: decl.kind, location: decl.location }
}

impl GraphView {
    /// The graph in which the combined marker of every declaration has been
    /// expanded into the three markers it implies.
    pub open spec fn expanded(self) -> GraphView {
        GraphView {
            decls: Seq::new(
                self.decls.len(),
                |i: int| TypeDeclView { markers: self.decls[i].markers.expanded(), ..self.decls[i] },
            ),
            guard: self.guard,
        }
    }
}

/// Expanding the combined marker changes neither which types wrap the
/// rooting guard nor which are exempt.
proof fn lemma_expanded_wraps_guard(g: GraphView, t: TypeId, steps: nat)
    ensures
        g.expanded().wraps_guard_within(t, steps) == g.wraps_guard_within(t, steps),
    decreases steps,
{
    lemma_expanded_shapes(g, t);
    if steps > 0 && !g.is_guard(t) {
        match g.sole_content(t) {
            Some(u) => {
                lemma_expanded_wraps_guard(g, u, (steps - 1) as nat);
            },
            None => {},
        }
    }
}

/// Expanding the combined marker changes no shape, and changes of the
/// markers only what the combined marker says already.
proof fn lemma_expanded_shapes(g: GraphView, t: TypeId)
    ensures
        g.expanded().known(t) == g.known(t),
        g.expanded().declaration_of(t) == g.declaration_of(t),
        g.expanded().shape_of(t) == g.shape_of(t),
        g.expanded().is_guard(t) == g.is_guard(t),
        g.expanded().sole_content(t) == g.sole_content(t),
        g.expanded().rooted(t) == g.rooted(t),
        g.expanded().markers_of(t).allow_unrooted == g.markers_of(t).allow_unrooted,
        forall|u: TypeId| g.expanded().feeds(t, u) == g.feeds(t, u),
{
}

/// Expanding the combined marker changes no chain.
proof fn lemma_expanded_chain(g: GraphView, p: Seq<TypeId>)
    ensures
        g.expanded().is_chain(p) == g.is_chain(p),
{
    let h = g.expanded();
    assert forall|i: int| 0 <= i < p.len() implies h.passes_on(#[trigger] p[i]) == g.passes_on(
        p[i],
    ) by {
        lemma_expanded_shapes(g, p[i]);
        lemma_expanded_wraps_guard(g, p[i], g.decls.len());
    }
    assert forall|i: int| 0 <= i < p.len() - 1 implies h.feeds(#[trigger] p[i], p[i + 1])
        == g.feeds(p[i], p[i + 1]) by {
        lemma_expanded_shapes(g, p[i]);
    }
    if g.is_chain(p) {
        assert forall|i: int| 0 <= i < p.len() implies h.passes_on(#[trigger] p[i]) by {
            assert(g.passes_on(p[i]));
        }
        assert forall|i: int| 0 <= i < p.len() - 1 implies h.feeds(#[trigger] p[i], p[i + 1]) by {
            assert(g.feeds(p[i], p[i + 1]));
        }
    }
    if h.is_chain(p) {
        assert forall|i: int| 0 <= i < p.len() implies g.passes_on(#[trigger] p[i]) by {
            assert(h.passes_on(p[i]));
        }
        assert forall|i: int| 0 <= i < p.len() - 1 implies g.feeds(#[trigger] p[i], p[i + 1]) by {
            assert(h.feeds(p[i], p[i + 1]));
        }
    }
}

/// The three effects of the combined marker are the same whether it is read
/// as it stands or after its expansion: no verdict changes, and a
/// declaration must keep its fields private and has its traversal derived
/// after the expansion exactly if it had before.
pub proof fn law_expansion_changes_nothing(g: GraphView, t: TypeId)
    ensures
        g.expanded().verdict(t) == g.verdict(t),
        g.known(t) ==> g.expanded().decls[t as int].markers.private_only()
            == g.decls[t as int].markers.private_only(),
        g.expanded().requests_derivation(t) == g.requests_derivation(t),
{
    let h = g.expanded();
    lemma_expanded_shapes(g, t);
    lemma_expanded_wraps_guard(g, t, g.decls.len());
    if g.must_root(t) {
        let m = choose|m: TypeId| #[trigger] g.reaches(t, m) && g.rooted(m);
        let p = choose|p: Seq<TypeId>| #[trigger] g.is_chain(p) && p[0] == t && p.last() == m;
        lemma_expanded_chain(g, p);
        lemma_expanded_shapes(g, m);
        assert(h.reaches(t, m));
    }
    if h.must_root(t) {
        let m = choose|m: TypeId| #[trigger] h.reaches(t, m) && h.rooted(m);
        let p = choose|p: Seq<TypeId>| #[trigger] h.is_chain(p) && p[0] == t && p.last() == m;
        lemma_expanded_chain(g, p);
        lemma_expanded_shapes(g, m);
        assert(g.reaches(t, m));
    }
}

} // verus!
