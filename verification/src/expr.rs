//! Embedded expressions and the binding-classification vocabulary.
//!
//! The pass never parses expression text: an expression is either a
//! literal (no identifiers at all) or a single identifier reference,
//! which identifier resolution rewrites into one of the resolved forms.

use vstd::prelude::*;

verus! {

/// Classification of a declared local binding, supplied by the binding
/// subsystem: where an identifier of that name comes from decides how a
/// reference to it is rewritten and whether it counts as reactive.
#[derive(Clone, Copy, Debug, PartialEq, Eq, Structural)]
pub enum BindingKind {
    /// Local reactive state of the component.
    LocalState,
    /// A declared prop.
    Prop,
    /// A compile-time literal constant; never reactive.
    Literal,
    /// A statically known component; references stay bare.
    Component,
    /// An imported name.
    Imported,
}

/// A declared local binding: its name and its classification.
#[derive(Clone, Debug, PartialEq)]
pub struct SetupBinding {
    pub name: String,
    pub kind: BindingKind,
}

/// An embedded expression, before or after identifier resolution.
#[derive(Clone, Debug, PartialEq)]
pub enum Expr {
    /// An expression without identifiers (`3`, `true`, `1 + 1`).
    Lit { raw: String },
    /// A not-yet-resolved identifier reference.
    Ident { name: String },
    /// An identifier resolved to a template-scope variable; it stays
    /// bare and remembers the scope that introduced it.
    ScopeRef { name: String, scope: usize },
    /// An identifier resolved to a declared local binding.
    BindingRef { name: String, kind: BindingKind },
    /// An identifier resolved to the render context: rendered with the
    /// context receiver prefixed.
    CtxRef { name: String },
}

impl Expr {
    /// The rendered source text of the expression.
    pub open spec fn raw_view(self) -> Seq<char> {
        match self {
            Expr::Lit { raw } => raw@,
            Expr::Ident { name } => name@,
            Expr::ScopeRef { name, .. } => name@,
            Expr::BindingRef { name, .. } => name@,
            Expr::CtxRef { name } => "_ctx."@ + name@,
        }
    }

    /// Renders the expression back to source text.
    pub fn raw_text(&self) -> (r: String)
        ensures
            r@ == self.raw_view(),
    {
        match self {
            Expr::Lit { raw } => raw.clone(),
            Expr::Ident { name } => name.clone(),
            Expr::ScopeRef { name, .. } => name.clone(),
            Expr::BindingRef { name, .. } => name.clone(),
            Expr::CtxRef { name } => {
                let mut r = String::from_str("_ctx.");
                r.append(name.as_str());
                r
            },
        }
    }
}

} // verus!
