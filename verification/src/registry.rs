//! The table in which the extension registers what it offers to the host:
//! syntax extensions by the marker that calls for them, and check passes.

use vstd::prelude::*;
use crate::classifier::Classifier;
use crate::diagnostics::{Diagnostic, DiagnosticView, diagnostics_view};
use crate::graph::{GraphView, TypeDecl, TypeDeclView, TypeId};
use crate::jstraceable::{
    DerivationRequest,
    TraversalImpl,
    TraversalView,
    expand_dom_struct,
    expand_jstraceable,
};
use crate::lints::{
    FunctionBody,
    FunctionBodyView,
    PrivatizePass,
    TransmutePass,
    UnrootedPass,
    bodies_view,
    collect,
};

verus! {

/// The expansions that this crate offers.
#[derive(Clone, Copy, Debug, PartialEq, Eq, Structural)]
pub enum Expander {
    /// [`crate::jstraceable::expand_dom_struct`].
    DomStruct,
    /// [`crate::jstraceable::expand_jstraceable`].
    JsTraceable,
}

/// How a syntax extension acts on the declaration that carries its marker.
#[derive(Clone, Copy, Debug, PartialEq, Eq, Structural)]
pub enum SyntaxExtension {
    /// It adds an item beside the declaration.
    Decorator(Expander),
    /// It puts a changed declaration in the place of the declaration.
    Modifier(Expander),
}

/// The check passes that this crate offers.
#[derive(Clone, Copy, Debug, PartialEq, Eq, Structural)]
pub enum LintPassObject {
    /// [`TransmutePass`].
    Transmute,
    /// [`UnrootedPass`].
    Unrooted,
    /// [`PrivatizePass`].
    Privatize,
}

/// A syntax extension under the name of the marker that calls for it.
#[derive(Clone, Debug, PartialEq, Eq)]
pub struct NamedExtension {
    pub name: String,
    pub extension: SyntaxExtension,
}

/// What has been registered with the host.
#[derive(Clone, Debug, PartialEq, Eq)]
pub struct Registry {
    pub syntax_extensions: Vec<NamedExtension>,
    pub lint_passes: Vec<LintPassObject>,
}

/// Model of a [`Registry`].
pub struct RegistryView {
    pub syntax_extensions: Seq<(Seq<char>, SyntaxExtension)>,
    pub lint_passes: Seq<LintPassObject>,
}

impl View for NamedExtension {
    type V = (Seq<char>, SyntaxExtension);

    open spec fn view(&self) -> (Seq<char>, SyntaxExtension) {
        (self.name@, self.extension)
    }
}

impl View for Registry {
    type V = RegistryView;

    open spec fn view(&self) -> RegistryView {
        RegistryView {
            syntax_extensions: Seq::new(
                self.syntax_extensions@.len(),
                |i: int| self.syntax_extensions@[i]@,
            ),
            lint_passes: self.lint_passes@,
        }
    }
}

impl RegistryView {
    /// The extension that, among the first `n` registered, was registered
    /// last under `name`.
    pub open spec fn extension_among(self, name: Seq<char>, n: nat) -> Option<SyntaxExtension>
        decreases n,
    {
        if n == 0 {
            None
        } else if self.syntax_extensions[n - 1].0 == name {
            Some(self.syntax_extensions[n - 1].1)
        } else {
            self.extension_among(name, (n - 1) as nat)
        }
    }

    /// The extension that was registered last under `name`.
    pub open spec fn extension_named(self, name: Seq<char>) -> Option<SyntaxExtension> {
        self.extension_among(name, self.syntax_extensions.len())
    }
}

impl GraphView {
    /// Every finding of `pass` over the declarations of the graph and over
    /// `bodies`.
    pub open spec fn pass_findings(self, pass: LintPassObject, bodies: Seq<FunctionBodyView>) -> Seq<
        DiagnosticView,
    > {
        match pass {
            LintPassObject::Transmute => self.reinterpreted_findings(bodies, bodies.len()),
            LintPassObject::Unrooted => self.unrooted_findings(bodies),
            LintPassObject::Privatize => self.exposed_findings(self.decls.len()),
        }
    }

    /// The findings of the first `n` of `passes`, pass by pass.
    pub open spec fn findings_of(
        self,
        passes: Seq<LintPassObject>,
        bodies: Seq<FunctionBodyView>,
        n: nat,
    ) -> Seq<DiagnosticView>
        decreases n,
    {
        if n == 0 {
            Seq::empty()
        } else {
            self.findings_of(passes, bodies, (n - 1) as nat) + self.pass_findings(
                passes[n - 1],
                bodies,
            )
        }
    }
}

impl LintPassObject {
    /// Runs the pass over the declarations of the graph and over `bodies`.
    pub fn run(self, classifier: &mut Classifier, bodies: &Vec<FunctionBody>) -> (r: Vec<Diagnostic>)
        ensures
            final(classifier)@ == old(classifier)@,
            diagnostics_view(r@) == old(classifier)@.pass_findings(self, bodies_view(bodies@)),
    {
        match self {
            LintPassObject::Transmute => TransmutePass::check_program(classifier, bodies),
            LintPassObject::Unrooted => UnrootedPass::check_program(classifier, bodies),
            LintPassObject::Privatize => PrivatizePass::check_program(classifier.graph()),
        }
    }
}

impl Registry {
    /// A registry in which nothing is registered.
    pub fn new() -> (r: Registry)
        ensures
            r@.syntax_extensions == Seq::<(Seq<char>, SyntaxExtension)>::empty(),
            r@.lint_passes == Seq::<LintPassObject>::empty(),
    {
        let r = Registry { syntax_extensions: Vec::new(), lint_passes: Vec::new() };
        assert(r@.syntax_extensions =~= Seq::<(Seq<char>, SyntaxExtension)>::empty());
        r
    }

    /// Registers `extension` under `name`.
    pub fn register_syntax_extension(&mut self, name: String, extension: SyntaxExtension)
        ensures
            final(self)@.syntax_extensions == old(self)@.syntax_extensions.push((name@, extension)),
            final(self)@.lint_passes == old(self)@.lint_passes,
    {
        self.syntax_extensions.push(NamedExtension { name, extension });
        assert(self@.syntax_extensions =~= old(self)@.syntax_extensions.push((name@, extension)));
    }

    /// Registers `pass`.
    pub fn register_lint_pass(&mut self, pass: LintPassObject)
        ensures
            final(self)@.syntax_extensions == old(self)@.syntax_extensions,
            final(self)@.lint_passes == old(self)@.lint_passes.push(pass),
    {
        self.lint_passes.push(pass);
        assert(self@.syntax_extensions =~= old(self)@.syntax_extensions);
    }

    /// The extension that a marker of the name `name` calls for: the one
    /// registered last under that name.
    pub fn extension_named(&self, name: &String) -> (r: Option<SyntaxExtension>)
        ensures
            r == self@.extension_named(name@),
    {
        let mut i: usize = self.syntax_extensions.len();
        while i > 0
            invariant
                i <= self.syntax_extensions@.len(),
                self@.extension_named(name@) == self@.extension_among(name@, i as nat),
            decreases i,
        {
            i = i - 1;
            if self.syntax_extensions[i].name == *name {
                return Some(self.syntax_extensions[i].extension);
            }
        }
        None
    }

    /// Runs the registered passes, in the order of their registration, over
    /// the declarations of the graph and over `bodies`, and hands back all
    /// findings together, so that the host can report them at once.
    pub fn run_lint_passes(&self, classifier: &mut Classifier, bodies: &Vec<FunctionBody>) -> (r:
        Vec<Diagnostic>)
        ensures
            final(classifier)@ == old(classifier)@,
            diagnostics_view(r@) == old(classifier)@.findings_of(
                self@.lint_passes,
                bodies_view(bodies@),
                self@.lint_passes.len(),
            ),
    {
        let ghost g = classifier@;
        let ghost model = bodies_view(bodies@);
        let mut out: Vec<Diagnostic> = Vec::new();
        let mut i: usize = 0;
        assert(diagnostics_view(out@) =~= g.findings_of(self@.lint_passes, model, 0));
        while i < self.lint_passes.len()
            invariant
                i <= self.lint_passes@.len(),
                model == bodies_view(bodies@),
                classifier@ == g,
                diagnostics_view(out@) == g.findings_of(self@.lint_passes, model, i as nat),
            decreases self.lint_passes@.len() - i,
        {
            let found = self.lint_passes[i].run(classifier, bodies);
            collect(&mut out, found);
            i = i + 1;
        }
        out
    }
}

impl RegistryView {
    /// Whether a marker of the name `name` calls for the expansion of the
    /// combined marker.
    pub open spec fn modifies(self, name: Seq<char>) -> bool {
        self.extension_named(name) == Some(SyntaxExtension::Modifier(Expander::DomStruct))
    }

    /// Whether a marker of the name `name` calls for the derivation of a
    /// traversal.
    pub open spec fn decorates(self, name: Seq<char>) -> bool {
        self.extension_named(name) == Some(SyntaxExtension::Decorator(Expander::JsTraceable))
    }
}

impl Registry {
    /// Applies to `decl` the modifier that a marker of the name `marker`
    /// calls for: the expansion of the combined marker where that is
    /// registered under the name, else nothing.
    pub fn modify(&self, marker: &String, decl: TypeDecl) -> (r: TypeDecl)
        ensures
            r@ == if self@.modifies(marker@) {
                TypeDeclView { markers: decl@.markers.expanded(), ..decl@ }
            } else {
                decl@
            },
    {
        match self.extension_named(marker) {
            Some(SyntaxExtension::Modifier(Expander::DomStruct)) => expand_dom_struct(decl),
            _ => decl,
        }
    }

    /// Runs on the declaration `d` the decorator that a marker of the name
    /// `marker` calls for. Where the derivation of a traversal is registered
    /// under the name and `d` asks for one, the traversal or the finding that
    /// stands in its way is handed back; else nothing is.
    pub fn decorate(&self, classifier: &mut Classifier, marker: &String, d: TypeId) -> (r: Option<
        Result<TraversalImpl, Diagnostic>,
    >)
        ensures
            final(classifier)@ == old(classifier)@,
            r.is_some() <==> self@.decorates(marker@) && old(classifier)@.requests_derivation(d),
            match r {
                Some(Ok(traversal)) => old(classifier)@.derivation(d) == Ok::<
                    TraversalView,
                    DiagnosticView,
                >(traversal@),
                Some(Err(finding)) => old(classifier)@.derivation(d) == Err::<
                    TraversalView,
                    DiagnosticView,
                >(finding@),
                None => true,
            },
    {
        match self.extension_named(marker) {
            Some(SyntaxExtension::Decorator(Expander::JsTraceable)) => {
                match DerivationRequest::observe(classifier.graph(), d) {
                    Some(request) => Some(expand_jstraceable(classifier, request)),
                    None => None,
                }
            },
            _ => None,
        }
    }
}

} // verus!
