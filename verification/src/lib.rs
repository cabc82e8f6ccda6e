//! Compiler-extension logic for a runtime whose heap objects are managed by
//! a tracing collector.
//!
//! A host compiler hands over the resolved types of a compilation as a
//! [`graph::TypeGraph`]. The crate classifies each type as safe, as requiring
//! a root, or as exempt ([`classifier`], [`verdict`]); checks that no value
//! which requires a root is held where the collector cannot see it, that
//! marked declarations keep their fields private, and that no managed handle
//! is reinterpreted as another ([`lints`]); and plans the traversal by which
//! the collector reaches every managed reference of a struct or an enum
//! ([`jstraceable`]). What it finds goes back to the host as
//! [`diagnostics::Diagnostic`]s.
//!
//! Markers this crate provides:
//!
//!  - `privatize`: forces all fields of a struct or enum to be private
//!  - `jstraceable`: derives the traversal of a struct or enum
//!  - `must_root`: keeps data of the marked type from being held unrooted
//!  - `dom_struct`: implies `privatize`, `jstraceable` and `must_root`
//!
//! [`keywords`] holds the matching of keywords without regard to ASCII case
//! that keyword enumerations of a style-sheet parser are built on.

pub mod classifier;
pub mod diagnostics;
pub mod graph;
pub mod jstraceable;
pub mod keywords;
pub mod lints;
pub mod markers;
pub mod registry;
pub mod verdict;

pub use classifier::Classifier;
pub use markers::{Marker, MarkerNames, Markers};
pub use registry::Registry;
pub use verdict::Verdict;

use vstd::prelude::*;
use vstd::string::StringExecFns;
use registry::{Expander, LintPassObject, SyntaxExtension};

verus! {

/// Registers what this crate offers: the expansion of `dom_struct` as a
/// modifier, the derivation for `jstraceable` as a decorator, and the three
/// check passes.
pub fn plugin_registrar(reg: &mut Registry)
    ensures
        final(reg)@.syntax_extensions == old(reg)@.syntax_extensions.push(
            ("dom_struct"@, SyntaxExtension::Modifier(Expander::DomStruct)),
        ).push(("jstraceable"@, SyntaxExtension::Decorator(Expander::JsTraceable))),
        final(reg)@.lint_passes == old(reg)@.lint_passes.push(LintPassObject::Transmute).push(
            LintPassObject::Unrooted,
        ).push(LintPassObject::Privatize),
{
    reg.register_syntax_extension(
        String::from_str("dom_struct"),
        SyntaxExtension::Modifier(Expander::DomStruct),
    );
    reg.register_syntax_extension(
        String::from_str("jstraceable"),
        SyntaxExtension::Decorator(Expander::JsTraceable),
    );
    reg.register_lint_pass(LintPassObject::Transmute);
    reg.register_lint_pass(LintPassObject::Unrooted);
    reg.register_lint_pass(LintPassObject::Privatize);
}

} // verus!
