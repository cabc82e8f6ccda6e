//! The checks that run over declarations and function bodies: that no value
//! which requires rooting is held unrooted, that marked declarations keep
//! their fields private, and that no managed handle is reinterpreted as
//! another without acknowledgment.

use vstd::prelude::*;
use vstd::string::StringExecFns;
use crate::classifier::Classifier;
use crate::diagnostics::{Diagnostic, DiagnosticView, ViolationKind, diagnostics_view, finding};
use crate::graph::{
    Field,
    FieldView,
    GraphView,
    Kind,
    KindView,
    Location,
    TypeGraph,
    TypeId,
    TypeRef,
    VariantView,
    fields_view,
    variants_view,
};
use crate::verdict::Verdict;

verus! {

/// Where a value is held.
#[derive(Clone, Copy, Debug, PartialEq, Eq, Structural)]
pub enum LocationKind {
    /// A local binding. `rooted_at_once` says that the value is only built
    /// to be handed to the rooting guard's constructor in the same statement.
    LocalBinding { rooted_at_once: bool },
    /// A function parameter. `borrowed_from_rooted` says that it is taken by
    /// reference, for no longer than the caller keeps the value rooted.
    FunctionParameter { borrowed_from_rooted: bool },
    /// A function's return type.
    FunctionReturn,
    /// A field of the struct `holder`.
    StructField { holder: TypeId },
    /// A field of a variant of the enum `holder`.
    EnumVariantField { holder: TypeId },
}

/// A place in the program that holds a value of the type `ty`.
#[derive(Clone, Copy, Debug, PartialEq, Eq, Structural)]
pub struct PlacementSite {
    pub kind: LocationKind,
    pub ty: TypeId,
    pub location: Location,
}

/// How the message of a finding at a site of kind `kind` begins. The name of
/// the offending type follows.
pub open spec fn site_prefix(kind: LocationKind) -> Seq<char> {
    match kind {
        LocationKind::LocalBinding { .. } => "unrooted local of type "@,
        LocationKind::FunctionParameter { .. } => "unrooted parameter of type "@,
        LocationKind::FunctionReturn => "unrooted return value of type "@,
        LocationKind::StructField { .. } => "unrooted field of type "@,
        LocationKind::EnumVariantField { .. } => "unrooted variant field of type "@,
    }
}

/// The site that the field `f` of `holder` makes: none where its type is a
/// parameter of the declaration.
pub open spec fn field_site(f: FieldView, holder: TypeId, in_enum: bool) -> Option<PlacementSite> {
    match f.ty {
        TypeRef::Concrete(t) => Some(
            PlacementSite {
                kind: if in_enum {
                    LocationKind::EnumVariantField { holder }
                } else {
                    LocationKind::StructField { holder }
                },
                ty: t,
                location: f.location,
            },
        ),
        TypeRef::Param(_) => None,
    }
}

/// The sites of the first `n` of `fields`, in declaration order.
pub open spec fn field_sites(fields: Seq<FieldView>, holder: TypeId, in_enum: bool, n: nat) -> Seq<
    PlacementSite,
>
    decreases n,
{
    if n == 0 {
        Seq::empty()
    } else {
        let rest = field_sites(fields, holder, in_enum, (n - 1) as nat);
        match field_site(fields[n - 1], holder, in_enum) {
            Some(site) => rest.push(site),
            None => rest,
        }
    }
}

/// The sites of the fields of the first `n` of `variants`, in declaration
/// order.
pub open spec fn variant_sites(variants: Seq<VariantView>, holder: TypeId, n: nat) -> Seq<
    PlacementSite,
>
    decreases n,
{
    if n == 0 {
        Seq::empty()
    } else {
        variant_sites(variants, holder, (n - 1) as nat) + field_sites(
            variants[n - 1].fields,
            holder,
            true,
            variants[n - 1].fields.len(),
        )
    }
}

impl GraphView {
    /// Whether `holder` may hold values that require rooting in its fields:
    /// it is exempt, or carries a marker that requires rooting for itself.
    pub open spec fn shelters(self, holder: TypeId) -> bool {
        self.known(holder) && (self.exempt(holder) || self.rooted(holder))
    }

    /// Whether a value that requires rooting may be held at `site`.
    pub open spec fn excused(self, site: PlacementSite) -> bool {
        match site.kind {
            LocationKind::LocalBinding { rooted_at_once } => rooted_at_once,
            LocationKind::FunctionParameter { borrowed_from_rooted } => borrowed_from_rooted,
            LocationKind::FunctionReturn => false,
            LocationKind::StructField { holder } => self.shelters(holder),
            LocationKind::EnumVariantField { holder } => self.shelters(holder),
        }
    }

    /// Whether `site` holds a value that requires rooting where it may not.
    pub open spec fn violates(self, site: PlacementSite) -> bool {
        self.verdict(site.ty) == Verdict::MustRoot && !self.excused(site)
    }

    /// The finding for a violation at `site`: it names the type and the
    /// place.
    pub open spec fn violation(self, site: PlacementSite) -> DiagnosticView {
        finding(
            ViolationKind::StructuralViolation,
            site_prefix(site.kind),
            self.decls[site.ty as int].name,
            site.location,
        )
    }

    /// The findings for the first `n` of `sites`, in their order.
    pub open spec fn violations(self, sites: Seq<PlacementSite>, n: nat) -> Seq<DiagnosticView>
        decreases n,
    {
        if n == 0 {
            Seq::empty()
        } else {
            let rest = self.violations(sites, (n - 1) as nat);
            if self.violates(sites[n - 1]) {
                rest.push(self.violation(sites[n - 1]))
            } else {
                rest
            }
        }
    }

    /// The sites that the declaration `d` makes: the fields of a struct,
    /// the fields of the variants of an enum, in declaration order.
    pub open spec fn declaration_sites(self, d: TypeId) -> Seq<PlacementSite> {
        if self.known(d) {
            match self.decls[d as int].kind {
                KindView::Struct(fields) => field_sites(fields, d, false, fields.len()),
                KindView::Enum(variants) => variant_sites(variants, d, variants.len()),
                _ => Seq::empty(),
            }
        } else {
            Seq::empty()
        }
    }
}

/// How the message of a finding at a site of kind `kind` begins.
fn prefix_of(kind: LocationKind) -> (s: &'static str)
    ensures
        s@ == site_prefix(kind),
{
    match kind {
        LocationKind::LocalBinding { .. } => "unrooted local of type ",
        LocationKind::FunctionParameter { .. } => "unrooted parameter of type ",
        LocationKind::FunctionReturn => "unrooted return value of type ",
        LocationKind::StructField { .. } => "unrooted field of type ",
        LocationKind::EnumVariantField { .. } => "unrooted variant field of type ",
    }
}

/// Adds to `out` the sites of `fields`.
fn push_field_sites(fields: &Vec<Field>, holder: TypeId, in_enum: bool, out: &mut Vec<PlacementSite>)
    ensures
        final(out)@ == old(out)@ + field_sites(
            fields_view(fields@),
            holder,
            in_enum,
            fields@.len(),
        ),
{
    let ghost model = fields_view(fields@);
    let mut i: usize = 0;
    assert(out@ =~= old(out)@ + field_sites(model, holder, in_enum, 0));
    while i < fields.len()
        invariant
            i <= fields@.len(),
            model == fields_view(fields@),
            out@ == old(out)@ + field_sites(model, holder, in_enum, i as nat),
        decreases fields@.len() - i,
    {
        let ghost before = field_sites(model, holder, in_enum, i as nat);
        match fields[i].ty {
            TypeRef::Concrete(t) => {
                let kind = if in_enum {
                    LocationKind::EnumVariantField { holder }
                } else {
                    LocationKind::StructField { holder }
                };
                let site = PlacementSite { kind, ty: t, location: fields[i].location };
                out.push(site);
                assert(out@ =~= old(out)@ + before.push(site));
            },
            TypeRef::Param(_) => {},
        }
        i = i + 1;
    }
}

impl TypeGraph {
    /// Whether `holder` may hold values that require rooting in its fields.
    pub fn shelters(&self, holder: TypeId) -> (b: bool)
        ensures
            b == self@.shelters(holder),
    {
        holder < self.decls.len() && (self.is_exempt(holder) || self.markers_of(
            holder,
        ).is_rooting_required())
    }

    /// Whether a value that requires rooting may be held at `site`.
    pub fn excuses(&self, site: &PlacementSite) -> (b: bool)
        ensures
            b == self@.excused(*site),
    {
        match site.kind {
            LocationKind::LocalBinding { rooted_at_once } => rooted_at_once,
            LocationKind::FunctionParameter { borrowed_from_rooted } => borrowed_from_rooted,
            LocationKind::FunctionReturn => false,
            LocationKind::StructField { holder } => self.shelters(holder),
            LocationKind::EnumVariantField { holder } => self.shelters(holder),
        }
    }

    /// The sites that the declaration `d` makes.
    pub fn declaration_sites(&self, d: TypeId) -> (sites: Vec<PlacementSite>)
        ensures
            sites@ == self@.declaration_sites(d),
    {
        let mut sites: Vec<PlacementSite> = Vec::new();
        if d < self.decls.len() {
            match &self.decls[d].kind {
                Kind::Struct(fields) => {
                    push_field_sites(fields, d, false, &mut sites);
                    assert(sites@ =~= self@.declaration_sites(d));
                },
                Kind::Enum(variants) => {
                    let ghost model = variants_view(variants@);
                    let mut v: usize = 0;
                    while v < variants.len()
                        invariant
                            v <= variants@.len(),
                            model == variants_view(variants@),
                            sites@ == variant_sites(model, d, v as nat),
                        decreases variants@.len() - v,
                    {
                        push_field_sites(&variants[v].fields, d, true, &mut sites);
                        v = v + 1;
                    }
                },
                _ => {},
            }
        }
        sites
    }
}

/// The placement check.
pub struct UnrootedPass;

impl UnrootedPass {
    /// Checks one site: a finding is handed back exactly if the type at the
    /// site requires rooting and the site is not excused.
    pub fn check_site(classifier: &mut Classifier, site: &PlacementSite) -> (r: Option<Diagnostic>)
        ensures
            final(classifier)@ == old(classifier)@,
            r.is_some() <==> old(classifier)@.violates(*site),
            r matches Some(d) ==> d@ == old(classifier)@.violation(*site),
    {
        let verdict = classifier.classify(site.ty);
        match verdict {
            Verdict::MustRoot => {
                let graph = classifier.graph();
                if graph.excuses(site) {
                    None
                } else {
                    Some(
                        Diagnostic::new(
                            ViolationKind::StructuralViolation,
                            prefix_of(site.kind),
                            graph.decls[site.ty].name.as_str(),
                            site.location,
                        ),
                    )
                }
            },
            _ => None,
        }
    }

    /// Checks the sites of a function body or of any other part of the
    /// program, and hands back the findings in the order of the sites.
    pub fn check_sites(classifier: &mut Classifier, sites: &Vec<PlacementSite>) -> (r: Vec<
        Diagnostic,
    >)
        ensures
            final(classifier)@ == old(classifier)@,
            diagnostics_view(r@) == old(classifier)@.violations(sites@, sites@.len()),
    {
        let mut out: Vec<Diagnostic> = Vec::new();
        let mut i: usize = 0;
        assert(diagnostics_view(out@) =~= old(classifier)@.violations(sites@, 0));
        while i < sites.len()
            invariant
                i <= sites@.len(),
                classifier@ == old(classifier)@,
                diagnostics_view(out@) == old(classifier)@.violations(sites@, i as nat),
            decreases sites@.len() - i,
        {
            let ghost before = diagnostics_view(out@);
            match UnrootedPass::check_site(classifier, &sites[i]) {
                Some(d) => {
                    out.push(d);
                    assert(diagnostics_view(out@) =~= before.push(d@));
                },
                None => {},
            }
            i = i + 1;
        }
        out
    }

    /// Checks the fields that the declaration `d` declares.
    pub fn check_declaration(classifier: &mut Classifier, d: TypeId) -> (r: Vec<Diagnostic>)
        ensures
            final(classifier)@ == old(classifier)@,
            diagnostics_view(r@) == old(classifier)@.violations(
                old(classifier)@.declaration_sites(d),
                old(classifier)@.declaration_sites(d).len(),
            ),
    {
        let sites = classifier.graph().declaration_sites(d);
        UnrootedPass::check_sites(classifier, &sites)
    }
}

/// The finding for the public field `f` of a declaration that is
/// private-only: it names the field.
pub open spec fn exposure(f: FieldView) -> DiagnosticView {
    finding(
        ViolationKind::VisibilityViolation,
        "public field where only private fields are allowed: "@,
        f.name,
        f.location,
    )
}

/// The findings for the public ones of the first `n` of `fields`, in
/// declaration order.
pub open spec fn exposures(fields: Seq<FieldView>, n: nat) -> Seq<DiagnosticView>
    decreases n,
{
    if n == 0 {
        Seq::empty()
    } else {
        let rest = exposures(fields, (n - 1) as nat);
        if fields[n - 1].public {
            rest.push(exposure(fields[n - 1]))
        } else {
            rest
        }
    }
}

/// The findings for the public fields of the first `n` of `variants`, in
/// declaration order.
pub open spec fn variant_exposures(variants: Seq<VariantView>, n: nat) -> Seq<DiagnosticView>
    decreases n,
{
    if n == 0 {
        Seq::empty()
    } else {
        variant_exposures(variants, (n - 1) as nat) + exposures(
            variants[n - 1].fields,
            variants[n - 1].fields.len(),
        )
    }
}

impl GraphView {
    /// The findings of the field-visibility check for the declaration `d`:
    /// one for each public field, if `d` is a struct or an enum that must
    /// keep its fields private.
    pub open spec fn visibility_findings(self, d: TypeId) -> Seq<DiagnosticView> {
        if self.known(d) && self.decls[d as int].markers.private_only() {
            match self.decls[d as int].kind {
                KindView::Struct(fields) => exposures(fields, fields.len()),
                KindView::Enum(variants) => variant_exposures(variants, variants.len()),
                _ => Seq::empty(),
            }
        } else {
            Seq::empty()
        }
    }
}

/// Adds to `out` the findings for the public ones of `fields`.
fn push_exposures(fields: &Vec<Field>, out: &mut Vec<Diagnostic>)
    ensures
        diagnostics_view(final(out)@) == diagnostics_view(old(out)@) + exposures(
            fields_view(fields@),
            fields@.len(),
        ),
{
    let ghost model = fields_view(fields@);
    let ghost out0 = diagnostics_view(out@);
    let mut i: usize = 0;
    assert(diagnostics_view(out@) =~= out0 + exposures(model, 0));
    while i < fields.len()
        invariant
            i <= fields@.len(),
            model == fields_view(fields@),
            diagnostics_view(out@) == out0 + exposures(model, i as nat),
        decreases fields@.len() - i,
    {
        let ghost before = exposures(model, i as nat);
        let ghost prev = diagnostics_view(out@);
        if fields[i].public {
            let d = Diagnostic::new(
                ViolationKind::VisibilityViolation,
                "public field where only private fields are allowed: ",
                fields[i].name.as_str(),
                fields[i].location,
            );
            out.push(d);
            assert(diagnostics_view(out@) =~= prev.push(d@));
            assert(prev.push(d@) =~= out0 + before.push(d@));
        }
        i = i + 1;
    }
}

/// The field-visibility check.
pub struct PrivatizePass;

impl PrivatizePass {
    /// Checks the declaration `d`, and hands back one finding for each public
    /// field of a declaration that must keep its fields private.
    pub fn check_declaration(graph: &TypeGraph, d: TypeId) -> (r: Vec<Diagnostic>)
        ensures
            diagnostics_view(r@) == graph@.visibility_findings(d),
    {
        let mut out: Vec<Diagnostic> = Vec::new();
        assert(diagnostics_view(out@) =~= Seq::<DiagnosticView>::empty());
        if d < graph.decls.len() && graph.decls[d].markers.is_private_only() {
            match &graph.decls[d].kind {
                Kind::Struct(fields) => {
                    push_exposures(fields, &mut out);
                    assert(diagnostics_view(out@) =~= graph@.visibility_findings(d));
                },
                Kind::Enum(variants) => {
                    let ghost model = variants_view(variants@);
                    let mut v: usize = 0;
                    while v < variants.len()
                        invariant
                            v <= variants@.len(),
                            model == variants_view(variants@),
                            diagnostics_view(out@) == variant_exposures(model, v as nat),
                        decreases variants@.len() - v,
                    {
                        push_exposures(&variants[v].fields, &mut out);
                        v = v + 1;
                    }
                },
                _ => {},
            }
        }
        out
    }
}

/// A call in a function body, as far as the reinterpretation check reads
/// it: the last segment of the called path, the types of the arguments and
/// of the result, and whether an acknowledgment of the danger accompanies
/// the call.
#[derive(Clone, Debug, PartialEq, Eq)]
pub struct CallSite {
    pub callee: String,
    pub args: Vec<TypeId>,
    pub result: TypeId,
    pub acknowledged: bool,
    pub location: Location,
}

/// Model of a [`CallSite`].
pub struct CallSiteView {
    pub callee: Seq<char>,
    pub args: Seq<TypeId>,
    pub result: TypeId,
    pub acknowledged: bool,
    pub location: Location,
}

impl View for CallSite {
    type V = CallSiteView;

    open spec fn view(&self) -> CallSiteView {
        CallSiteView {
            callee: self.callee@,
            args: self.args@,
            result: self.result,
            acknowledged: self.acknowledged,
            location: self.location,
        }
    }
}

/// The models of a sequence of calls.
pub open spec fn calls_view(calls: Seq<CallSite>) -> Seq<CallSiteView> {
    Seq::new(calls.len(), |i: int| calls[i]@)
}

impl GraphView {
    /// Whether `t` is the type of a handle to a managed object.
    pub open spec fn is_handle(self, t: TypeId) -> bool {
        self.verdict(t) != Verdict::Safe
    }

    /// Whether `call` reinterprets one managed handle as another without
    /// acknowledgment: it calls `transmute` with one argument, the types
    /// of the argument and of the result are two different handle types,
    /// and no acknowledgment accompanies it.
    pub open spec fn reinterprets(self, call: CallSiteView) -> bool {
        &&& call.callee == "transmute"@
        &&& call.args.len() == 1
        &&& self.is_handle(call.args[0])
        &&& self.is_handle(call.result)
        &&& call.args[0] != call.result
        &&& !call.acknowledged
    }

    /// The finding for such a call: it names the type that is
    /// reinterpreted.
    pub open spec fn reinterpretation(self, call: CallSiteView) -> DiagnosticView {
        finding(
            ViolationKind::ReinterpretationViolation,
            "unacknowledged reinterpretation of managed handle "@,
            self.decls[call.args[0] as int].name,
            call.location,
        )
    }

    /// The findings for the first `n` of `calls`, in their order.
    pub open spec fn reinterpretations(self, calls: Seq<CallSiteView>, n: nat) -> Seq<
        DiagnosticView,
    >
        decreases n,
    {
        if n == 0 {
            Seq::empty()
        } else {
            let rest = self.reinterpretations(calls, (n - 1) as nat);
            if self.reinterprets(calls[n - 1]) {
                rest.push(self.reinterpretation(calls[n - 1]))
            } else {
                rest
            }
        }
    }
}

/// The reinterpretation check.
pub struct TransmutePass;

impl TransmutePass {
    /// Checks one call: a finding is handed back exactly if the call
    /// reinterprets one managed handle as another without acknowledgment.
    pub fn check_call(classifier: &mut Classifier, call: &CallSite) -> (r: Option<Diagnostic>)
        ensures
            final(classifier)@ == old(classifier)@,
            r.is_some() <==> old(classifier)@.reinterprets(call@),
            r matches Some(d) ==> d@ == old(classifier)@.reinterpretation(call@),
    {
        let name = String::from_str("transmute");
        if call.callee == name && call.args.len() == 1 && !call.acknowledged {
            let from = call.args[0];
            if from != call.result {
                let source = classifier.classify(from);
                let target = classifier.classify(call.result);
                match (source, target) {
                    (Verdict::Safe, _) => None,
                    (_, Verdict::Safe) => None,
                    _ => Some(
                        Diagnostic::new(
                            ViolationKind::ReinterpretationViolation,
                            "unacknowledged reinterpretation of managed handle ",
                            classifier.graph().decls[from].name.as_str(),
                            call.location,
                        ),
                    ),
                }
            } else {
                None
            }
        } else {
            None
        }
    }

    /// Checks the calls of a function body or of any other part of the
    /// program, and hands back the findings in the order of the calls.
    pub fn check_calls(classifier: &mut Classifier, calls: &Vec<CallSite>) -> (r: Vec<Diagnostic>)
        ensures
            final(classifier)@ == old(classifier)@,
            diagnostics_view(r@) == old(classifier)@.reinterpretations(
                calls_view(calls@),
                calls@.len(),
            ),
    {
        let ghost model = calls_view(calls@);
        let mut out: Vec<Diagnostic> = Vec::new();
        let mut i: usize = 0;
        assert(diagnostics_view(out@) =~= old(classifier)@.reinterpretations(model, 0));
        while i < calls.len()
            invariant
                i <= calls@.len(),
                model == calls_view(calls@),
                classifier@ == old(classifier)@,
                diagnostics_view(out@) == old(classifier)@.reinterpretations(model, i as nat),
            decreases calls@.len() - i,
        {
            let ghost before = diagnostics_view(out@);
            match TransmutePass::check_call(classifier, &calls[i]) {
                Some(d) => {
                    out.push(d);
                    assert(diagnostics_view(out@) =~= before.push(d@));
                },
                None => {},
            }
            i = i + 1;
        }
        out
    }
}

/// What the checks read of one function: the places where it holds values,
/// and the calls in its body.
#[derive(Clone, Debug, PartialEq, Eq)]
pub struct FunctionBody {
    pub sites: Vec<PlacementSite>,
    pub calls: Vec<CallSite>,
}

/// Model of a [`FunctionBody`].
pub struct FunctionBodyView {
    pub sites: Seq<PlacementSite>,
    pub calls: Seq<CallSiteView>,
}

impl View for FunctionBody {
    type V = FunctionBodyView;

    open spec fn view(&self) -> FunctionBodyView {
        FunctionBodyView { sites: self.sites@, calls: calls_view(self.calls@) }
    }
}

/// The models of a sequence of function bodies.
pub open spec fn bodies_view(bodies: Seq<FunctionBody>) -> Seq<FunctionBodyView> {
    Seq::new(bodies.len(), |i: int| bodies[i]@)
}

impl GraphView {
    /// The findings of the placement check for the first `n` declarations
    /// of the graph, in their order.
    pub open spec fn declaration_violations(self, n: nat) -> Seq<DiagnosticView>
        decreases n,
    {
        if n == 0 {
            Seq::empty()
        } else {
            let d = (n - 1) as usize;
            self.declaration_violations((n - 1) as nat) + self.violations(
                self.declaration_sites(d),
                self.declaration_sites(d).len(),
            )
        }
    }

    /// The findings of the placement check for the first `n` of `bodies`,
    /// in their order.
    pub open spec fn body_violations(self, bodies: Seq<FunctionBodyView>, n: nat) -> Seq<
        DiagnosticView,
    >
        decreases n,
    {
        if n == 0 {
            Seq::empty()
        } else {
            self.body_violations(bodies, (n - 1) as nat) + self.violations(
                bodies[n - 1].sites,
                bodies[n - 1].sites.len(),
            )
        }
    }

    /// Every finding of the placement check: those for the declarations of
    /// the graph, then those for `bodies`.
    pub open spec fn unrooted_findings(self, bodies: Seq<FunctionBodyView>) -> Seq<DiagnosticView> {
        self.declaration_violations(self.decls.len()) + self.body_violations(bodies, bodies.len())
    }

    /// The findings of the field-visibility check for the first `n`
    /// declarations of the graph, in their order.
    pub open spec fn exposed_findings(self, n: nat) -> Seq<DiagnosticView>
        decreases n,
    {
        if n == 0 {
            Seq::empty()
        } else {
            self.exposed_findings((n - 1) as nat) + self.visibility_findings((n - 1) as usize)
        }
    }

    /// The findings of the reinterpretation check for the first `n` of
    /// `bodies`, in their order.
    pub open spec fn reinterpreted_findings(self, bodies: Seq<FunctionBodyView>, n: nat) -> Seq<
        DiagnosticView,
    >
        decreases n,
    {
        if n == 0 {
            Seq::empty()
        } else {
            self.reinterpreted_findings(bodies, (n - 1) as nat) + self.reinterpretations(
                bodies[n - 1].calls,
                bodies[n - 1].calls.len(),
            )
        }
    }
}

/// Moves the findings of `more` to the end of `out`.
pub(crate) fn collect(out: &mut Vec<Diagnostic>, more: Vec<Diagnostic>)
    ensures
        diagnostics_view(final(out)@) == diagnostics_view(old(out)@) + diagnostics_view(more@),
{
    let mut more = more;
    let ghost added = more@;
    out.append(&mut more);
    assert(diagnostics_view(out@) =~= diagnostics_view(old(out)@) + diagnostics_view(added));
}

impl UnrootedPass {
    /// Checks every declaration of the graph and every one of `bodies`, and
    /// hands back all findings together.
    pub fn check_program(classifier: &mut Classifier, bodies: &Vec<FunctionBody>) -> (r: Vec<
        Diagnostic,
    >)
        ensures
            final(classifier)@ == old(classifier)@,
            diagnostics_view(r@) == old(classifier)@.unrooted_findings(bodies_view(bodies@)),
    {
        let ghost g = classifier@;
        let ghost model = bodies_view(bodies@);
        let mut out: Vec<Diagnostic> = Vec::new();
        let n = classifier.graph().len();
        let mut d: usize = 0;
        assert(diagnostics_view(out@) =~= g.declaration_violations(0));
        while d < n
            invariant
                d <= n,
                n == g.decls.len(),
                classifier@ == g,
                diagnostics_view(out@) == g.declaration_violations(d as nat),
            decreases n - d,
        {
            let found = UnrootedPass::check_declaration(classifier, d);
            collect(&mut out, found);
            d = d + 1;
        }
        let ghost declared = diagnostics_view(out@);
        let mut b: usize = 0;
        assert(diagnostics_view(out@) =~= declared + g.body_violations(model, 0));
        while b < bodies.len()
            invariant
                b <= bodies@.len(),
                model == bodies_view(bodies@),
                classifier@ == g,
                diagnostics_view(out@) == declared + g.body_violations(model, b as nat),
            decreases bodies@.len() - b,
        {
            let ghost before = g.body_violations(model, b as nat);
            let found = UnrootedPass::check_sites(classifier, &bodies[b].sites);
            let ghost more = diagnostics_view(found@);
            collect(&mut out, found);
            assert(diagnostics_view(out@) =~= declared + (before + more));
            b = b + 1;
        }
        out
    }
}

impl PrivatizePass {
    /// Checks every declaration of the graph, and hands back all findings
    /// together.
    pub fn check_program(graph: &TypeGraph) -> (r: Vec<Diagnostic>)
        ensures
            diagnostics_view(r@) == graph@.exposed_findings(graph@.decls.len()),
    {
        let mut out: Vec<Diagnostic> = Vec::new();
        let n = graph.len();
        let mut d: usize = 0;
        assert(diagnostics_view(out@) =~= graph@.exposed_findings(0));
        while d < n
            invariant
                d <= n,
                n == graph@.decls.len(),
                diagnostics_view(out@) == graph@.exposed_findings(d as nat),
            decreases n - d,
        {
            let found = PrivatizePass::check_declaration(graph, d);
            collect(&mut out, found);
            d = d + 1;
        }
        out
    }
}

impl TransmutePass {
    /// Checks the calls of every one of `bodies`, and hands back all
    /// findings together.
    pub fn check_program(classifier: &mut Classifier, bodies: &Vec<FunctionBody>) -> (r: Vec<
        Diagnostic,
    >)
        ensures
            final(classifier)@ == old(classifier)@,
            diagnostics_view(r@) == old(classifier)@.reinterpreted_findings(
                bodies_view(bodies@),
                bodies@.len(),
            ),
    {
        let ghost g = classifier@;
        let ghost model = bodies_view(bodies@);
        let mut out: Vec<Diagnostic> = Vec::new();
        let mut b: usize = 0;
        assert(diagnostics_view(out@) =~= g.reinterpreted_findings(model, 0));
        while b < bodies.len()
            invariant
                b <= bodies@.len(),
                model == bodies_view(bodies@),
                classifier@ == g,
                diagnostics_view(out@) == g.reinterpreted_findings(model, b as nat),
            decreases bodies@.len() - b,
        {
            let found = TransmutePass::check_calls(classifier, &bodies[b].calls);
            collect(&mut out, found);
            b = b + 1;
        }
        out
    }
}

/// Nothing is found exactly if none of the sites holds a value that
/// requires rooting where it may not.
pub proof fn law_no_finding_means_no_violation(g: GraphView, sites: Seq<PlacementSite>, n: nat)
    requires
        n <= sites.len(),
    ensures
        g.violations(sites, n).len() == 0 <==> forall|i: int|
            0 <= i < n ==> !g.violates(#[trigger] sites[i]),
    decreases n,
{
    if n > 0 {
        law_no_finding_means_no_violation(g, sites, (n - 1) as nat);
        if g.violations(sites, n).len() == 0 {
            assert forall|i: int| 0 <= i < n implies !g.violates(#[trigger] sites[i]) by {
                if i < n - 1 {
                    assert(!g.violates(sites[i]));
                }
            }
        }
    }
}

/// Each site of a field names its holder.
proof fn lemma_field_sites_held(fields: Seq<FieldView>, holder: TypeId, in_enum: bool, n: nat)
    ensures
        forall|i: int|
            0 <= i < field_sites(fields, holder, in_enum, n).len() ==> {
                let kind = (#[trigger] field_sites(fields, holder, in_enum, n)[i]).kind;
                kind == (LocationKind::StructField { holder }) || kind == (
                LocationKind::EnumVariantField { holder })
            },
    decreases n,
{
    if n > 0 {
        lemma_field_sites_held(fields, holder, in_enum, (n - 1) as nat);
    }
}

/// Each site of a field of a variant names its holder.
proof fn lemma_variant_sites_held(variants: Seq<VariantView>, holder: TypeId, n: nat)
    ensures
        forall|i: int|
            0 <= i < variant_sites(variants, holder, n).len() ==> {
                let kind = (#[trigger] variant_sites(variants, holder, n)[i]).kind;
                kind == (LocationKind::StructField { holder }) || kind == (
                LocationKind::EnumVariantField { holder })
            },
    decreases n,
{
    if n > 0 {
        lemma_variant_sites_held(variants, holder, (n - 1) as nat);
        lemma_field_sites_held(
            variants[n - 1].fields,
            holder,
            true,
            variants[n - 1].fields.len(),
        );
    }
}

/// The fields of a declaration that is exempt or carries a marker which
/// requires rooting are accepted, whatever their types are: the declaration
/// itself is what must be rooted.
pub proof fn law_sheltered_fields_are_accepted(g: GraphView, d: TypeId)
    requires
        g.shelters(d),
    ensures
        g.violations(g.declaration_sites(d), g.declaration_sites(d).len()).len() == 0,
{
    let sites = g.declaration_sites(d);
    match g.decls[d as int].kind {
        KindView::Struct(fields) => {
            lemma_field_sites_held(fields, d, false, fields.len());
        },
        KindView::Enum(variants) => {
            lemma_variant_sites_held(variants, d, variants.len());
        },
        _ => {},
    }
    assert forall|i: int| 0 <= i < sites.len() implies !g.violates(#[trigger] sites[i]) by {
        assert(g.excused(sites[i]));
    }
    law_no_finding_means_no_violation(g, sites, sites.len());
}

/// The fields of a declaration with the combined marker are accepted by the
/// placement check, and the declaration must keep them private.
pub proof fn law_combined_marker_fields(g: GraphView, d: TypeId)
    requires
        g.known(d),
        g.decls[d as int].markers.combined,
    ensures
        g.violations(g.declaration_sites(d), g.declaration_sites(d).len()).len() == 0,
        g.decls[d as int].markers.private_only(),
{
    law_sheltered_fields_are_accepted(g, d);
}

/// Where the placement check finds nothing in the first `n` of `bodies`,
/// none of their sites holds a value that requires rooting where it may not.
proof fn lemma_clean_bodies(g: GraphView, bodies: Seq<FunctionBodyView>, n: nat, b: int, i: int)
    requires
        n <= bodies.len(),
        g.body_violations(bodies, n).len() == 0,
        0 <= b < n,
        0 <= i < bodies[b].sites.len(),
    ensures
        !g.violates(bodies[b].sites[i]),
    decreases n,
{
    if b == n - 1 {
        law_no_finding_means_no_violation(g, bodies[b].sites, bodies[b].sites.len());
    } else {
        lemma_clean_bodies(g, bodies, (n - 1) as nat, b, i);
    }
}

/// Where the placement check finds nothing in the first `n` declarations,
/// none of their fields holds a value that requires rooting where it may not.
proof fn lemma_clean_declarations(g: GraphView, n: nat, d: TypeId, i: int)
    requires
        g.declaration_violations(n).len() == 0,
        d < n,
        0 <= i < g.declaration_sites(d).len(),
    ensures
        !g.violates(g.declaration_sites(d)[i]),
    decreases n,
{
    if d == n - 1 {
        law_no_finding_means_no_violation(
            g,
            g.declaration_sites(d),
            g.declaration_sites(d).len(),
        );
    } else {
        lemma_clean_declarations(g, (n - 1) as nat, d, i);
    }
}

/// A program in which the placement check finds nothing holds no value that
/// requires rooting where it may not: neither at a site of a function body
/// nor in a field of a declaration.
pub proof fn law_accepted_program_is_rooted(g: GraphView, bodies: Seq<FunctionBodyView>)
    requires
        g.unrooted_findings(bodies).len() == 0,
    ensures
        forall|b: int, i: int|
            0 <= b < bodies.len() && 0 <= i < bodies[b].sites.len() ==> !g.violates(
                #[trigger] bodies[b].sites[i],
            ),
        forall|d: TypeId, i: int|
            g.known(d) && 0 <= i < g.declaration_sites(d).len() ==> !g.violates(
                #[trigger] g.declaration_sites(d)[i],
            ),
{
    assert forall|b: int, i: int|
        0 <= b < bodies.len() && 0 <= i < bodies[b].sites.len() implies !g.violates(
        #[trigger] bodies[b].sites[i],
    ) by {
        lemma_clean_bodies(g, bodies, bodies.len(), b, i);
    }
    assert forall|d: TypeId, i: int|
        g.known(d) && 0 <= i < g.declaration_sites(d).len() implies !g.violates(
        #[trigger] g.declaration_sites(d)[i],
    ) by {
        lemma_clean_declarations(g, g.decls.len(), d, i);
    }
}

} // verus!
