//! The binding subsystem state: the append-only scope table, the
//! declared local bindings, the component-resolution cache, and
//! identifier resolution for embedded expressions.

use vstd::prelude::*;

use crate::expr::{BindingKind, Expr, SetupBinding};

verus! {

/// One template scope: the names a loop iteration variable or slot
/// destructuring introduced, and the enclosing scope.
pub struct TemplateScope {
    pub variables: Vec<String>,
    pub parent: usize,
}

/// View of one template scope.
#[verifier::ext_equal]
pub struct ScopeV {
    pub variables: Seq<String>,
    pub parent: usize,
}

pub open spec fn scope_v(s: TemplateScope) -> ScopeV {
    ScopeV { variables: s.variables@, parent: s.parent }
}

/// View of the whole scope table.
pub open spec fn scopes_v(s: Seq<TemplateScope>) -> Seq<ScopeV> {
    s.map_values(|x: TemplateScope| scope_v(x))
}

/// The outcome of resolving a component tag name.
pub enum ComponentBinding {
    /// Resolved to a reference expression to a declared binding.
    Resolved(Expr),
    /// No declared binding matched; the generated program falls back
    /// to runtime name-based resolution.
    Unresolved,
}

/// State shared across the whole pass: scopes, declared bindings and
/// the component cache.
pub struct BindingsHelper {
    /// Append-only scope table; index 0 is the root scope.
    pub template_scopes: Vec<TemplateScope>,
    /// Declared local bindings with their classification; read-only
    /// for this pass.
    pub setup_bindings: Vec<SetupBinding>,
    /// Tag name to resolution outcome, each name recorded at most
    /// once.
    pub components: Vec<(String, ComponentBinding)>,
}

// ---------------------------------------------------------------------
// Scope table
// ---------------------------------------------------------------------

/// Scope table shape: a root scope at index 0 that is its own parent,
/// and every later scope pointing at an earlier one.
pub open spec fn scopes_wf(scopes: Seq<ScopeV>) -> bool {
    &&& scopes.len() >= 1
    &&& scopes[0].parent == 0
    &&& forall|i: int| 1 <= i < scopes.len() ==> (#[trigger] scopes[i].parent) < i
}

/// Whether a scope's variable list holds `name`.
pub open spec fn vars_contain(vars: Seq<String>, name: Seq<char>) -> bool {
    exists|i: int| 0 <= i < vars.len() && (#[trigger] vars[i])@ == name
}

/// The scope chain walk: the nearest scope, starting at `s` and
/// following parent links, that introduces `name`.
pub open spec fn lookup_scope_spec(scopes: Seq<ScopeV>, name: Seq<char>, s: int) -> Option<
    int,
>
    decreases s when s >= 0
{
    if s < 0 || s >= scopes.len() {
        None
    } else if vars_contain(scopes[s].variables, name) {
        Some(s)
    } else if scopes[s].parent < s {
        lookup_scope_spec(scopes, name, scopes[s].parent as int)
    } else {
        None
    }
}

/// First declared binding of that name, if any.
pub open spec fn find_binding_spec(bindings: Seq<SetupBinding>, name: Seq<char>) -> Option<
    BindingKind,
>
    decreases bindings.len(),
{
    if bindings.len() == 0 {
        None
    } else if bindings[0].name@ == name {
        Some(bindings[0].kind)
    } else {
        find_binding_spec(bindings.drop_first(), name)
    }
}

/// First declared binding of that name, the whole entry.
pub open spec fn find_binding_full_spec(bindings: Seq<SetupBinding>, name: Seq<char>) -> Option<
    SetupBinding,
>
    decreases bindings.len(),
{
    if bindings.len() == 0 {
        None
    } else if bindings[0].name@ == name {
        Some(bindings[0])
    } else {
        find_binding_full_spec(bindings.drop_first(), name)
    }
}

/// The scope chain walk reads only scopes at or below its start, so a
/// table extended at the end answers as the original did.
pub proof fn lemma_lookup_prefix(a: Seq<ScopeV>, b: Seq<ScopeV>, name: Seq<char>, s: int)
    requires
        a.is_prefix_of(b),
        0 <= s < a.len(),
    ensures
        lookup_scope_spec(b, name, s) == lookup_scope_spec(a, name, s),
    decreases s,
{
    assert(b[s] == a[s]);
    if !vars_contain(a[s].variables, name) && a[s].parent < s {
        lemma_lookup_prefix(a, b, name, a[s].parent as int);
    }
}

/// Expression resolution under an extended scope table equals
/// resolution under the original, for scopes the original holds.
pub proof fn lemma_transform_prefix(
    a: Seq<ScopeV>,
    b: Seq<ScopeV>,
    bindings: Seq<SetupBinding>,
    e: crate::expr::Expr,
    scope: int,
)
    requires
        a.is_prefix_of(b),
        0 <= scope < a.len(),
    ensures
        transform_spec(b, bindings, e, scope) == transform_spec(a, bindings, e, scope),
{
    match e {
        Expr::Ident { name } => {
            lemma_lookup_prefix(a, b, name@, scope);
        },
        _ => {},
    }
}

// ---------------------------------------------------------------------
// Component cache
// ---------------------------------------------------------------------

/// First cached resolution of that tag name, if any.
pub open spec fn comps_find(comps: Seq<(String, ComponentBinding)>, name: Seq<char>) -> Option<
    ComponentBinding,
>
    decreases comps.len(),
{
    if comps.len() == 0 {
        None
    } else if comps[0].0@ == name {
        Some(comps[0].1)
    } else {
        comps_find(comps.drop_first(), name)
    }
}

/// Every tag name is recorded at most once.
pub open spec fn comps_keys_unique(comps: Seq<(String, ComponentBinding)>) -> bool {
    forall|i: int, j: int|
        0 <= i < j < comps.len() ==> (#[trigger] comps[i].0)@ != (#[trigger] comps[j].0)@
}

/// An absent name matches no entry at all.
pub proof fn lemma_comps_find_none(comps: Seq<(String, ComponentBinding)>, name: Seq<char>)
    ensures
        comps_find(comps, name) is None <==> forall|i: int|
            0 <= i < comps.len() ==> (#[trigger] comps[i].0)@ != name,
    decreases comps.len(),
{
    if comps.len() > 0 {
        lemma_comps_find_none(comps.drop_first(), name);
        assert(forall|i: int|
            1 <= i < comps.len() ==> comps.drop_first()[i - 1] == #[trigger] comps[i]);
        if comps[0].0@ != name && comps_find(comps.drop_first(), name) is None {
            assert(forall|i: int|
                0 <= i < comps.len() ==> (#[trigger] comps[i].0)@ != name) by {
                assert(forall|i: int|
                    1 <= i < comps.len() ==> (#[trigger] comps[i].0)@ == comps.drop_first()[i
                        - 1].0@);
            }
        }
    }
}

/// A find that succeeded in a prefix succeeds unchanged in any
/// extension.
pub proof fn lemma_comps_find_prefix(
    a: Seq<(String, ComponentBinding)>,
    b: Seq<(String, ComponentBinding)>,
    name: Seq<char>,
)
    requires
        a.is_prefix_of(b),
        comps_find(a, name) is Some,
    ensures
        comps_find(b, name) == comps_find(a, name),
    decreases a.len(),
{
    assert(a.len() >= 1);
    assert(b.len() >= a.len());
    assert(b[0] == a[0]);
    if a[0].0@ != name {
        assert(a.drop_first().is_prefix_of(b.drop_first())) by {
            assert(a.drop_first() =~= b.drop_first().subrange(0, a.drop_first().len() as int));
        }
        lemma_comps_find_prefix(a.drop_first(), b.drop_first(), name);
    }
}

/// Appending an entry for an absent name makes that entry the one
/// found.
pub proof fn lemma_comps_find_push(
    s: Seq<(String, ComponentBinding)>,
    e: (String, ComponentBinding),
    name: Seq<char>,
)
    requires
        comps_find(s, name) is None,
    ensures
        comps_find(s.push(e), name) == (if e.0@ == name {
            Some(e.1)
        } else {
            None::<ComponentBinding>
        }),
    decreases s.len(),
{
    if s.len() == 0 {
        assert(s.push(e)[0] == e);
        assert(s.push(e).drop_first() =~= Seq::<(String, ComponentBinding)>::empty());
        assert(comps_find(s.push(e).drop_first(), name) is None);
    } else {
        assert(s.push(e)[0] == s[0]);
        assert(s.push(e).drop_first() =~= s.drop_first().push(e));
        lemma_comps_find_push(s.drop_first(), e, name);
    }
}

// ---------------------------------------------------------------------
// Expression resolution
// ---------------------------------------------------------------------

/// Whether a reference to a binding of this classification counts as
/// touching something reactive.
pub open spec fn is_reactive_kind(k: BindingKind) -> bool {
    k == BindingKind::LocalState || k == BindingKind::Prop || k == BindingKind::Imported
}

/// What identifier resolution does to one expression under one scope:
/// literals pass unchanged and are never reactive; an identifier
/// resolves to the nearest template-scope variable, else to the first
/// declared binding of that name, else to the render context; a form
/// already resolved stays put. The second component says whether the
/// expression touched a reactive binding.
pub open spec fn transform_spec(
    scopes: Seq<ScopeV>,
    bindings: Seq<SetupBinding>,
    e: Expr,
    scope: int,
) -> (Expr, bool) {
    match e {
        Expr::Lit { .. } => (e, false),
        Expr::Ident { name } => match lookup_scope_spec(scopes, name@, scope) {
            Some(s) => (Expr::ScopeRef { name, scope: s as usize }, true),
            None => match find_binding_spec(bindings, name@) {
                Some(k) => (Expr::BindingRef { name, kind: k }, is_reactive_kind(k)),
                None => (Expr::CtxRef { name }, true),
            },
        },
        Expr::ScopeRef { .. } => (e, true),
        Expr::BindingRef { name, kind } => (e, is_reactive_kind(kind)),
        Expr::CtxRef { .. } => (e, true),
    }
}

impl BindingsHelper {
    /// Structural invariant of the shared state.
    pub open spec fn wf(self) -> bool {
        &&& scopes_wf(scopes_v(self.template_scopes@))
        &&& comps_keys_unique(self.components@)
    }

    /// A fresh helper: only the root scope, no bindings, no cached
    /// resolutions.
    pub fn new() -> (r: BindingsHelper)
        ensures
            r.wf(),
            r.template_scopes@.len() == 1,
            r.template_scopes@[0].variables@.len() == 0,
            r.template_scopes@[0].parent == 0,
            r.setup_bindings@.len() == 0,
            r.components@.len() == 0,
    {
        let mut scopes: Vec<TemplateScope> = Vec::new();
        scopes.push(TemplateScope { variables: Vec::new(), parent: 0 });
        BindingsHelper { template_scopes: scopes, setup_bindings: Vec::new(), components: Vec::new() }
    }

    /// Walks the scope chain for `name` starting at `scope`.
    pub fn lookup_scope(&self, name: &str, scope: usize) -> (r: Option<usize>)
        requires
            self.wf(),
            scope < self.template_scopes@.len(),
        ensures
            match r {
                Some(s) => lookup_scope_spec(scopes_v(self.template_scopes@), name@, scope as int)
                    == Some(s as int),
                None => lookup_scope_spec(
                    scopes_v(self.template_scopes@),
                    name@,
                    scope as int,
                ) is None,
            },
    {
        let mut s = scope;
        loop
            invariant
                self.wf(),
                s < self.template_scopes@.len(),
                lookup_scope_spec(scopes_v(self.template_scopes@), name@, scope as int)
                    == lookup_scope_spec(scopes_v(self.template_scopes@), name@, s as int),
            decreases s,
        {
            if Self::scope_has_var(&self.template_scopes[s], name) {
                return Some(s);
            }
            if s == 0 {
                return None;
            }
            s = self.template_scopes[s].parent;
        }
    }

    /// Whether one scope introduces `name`.
    fn scope_has_var(scope: &TemplateScope, name: &str) -> (r: bool)
        ensures
            r == vars_contain(scope.variables@, name@),
    {
        let n = scope.variables.len();
        let mut i: usize = 0;
        while i < n
            invariant
                0 <= i <= n,
                n == scope.variables@.len(),
                forall|j: int| 0 <= j < i ==> (#[trigger] scope.variables@[j])@ != name@,
            decreases n - i,
        {
            if crate::strutil::str_eq(scope.variables[i].as_str(), name) {
                return true;
            }
            i = i + 1;
        }
        false
    }

    /// First declared binding named `name`.
    pub fn find_binding(&self, name: &str) -> (r: Option<BindingKind>)
        ensures
            r == find_binding_spec(self.setup_bindings@, name@),
    {
        let n = self.setup_bindings.len();
        let mut i: usize = 0;
        proof {
            assert(self.setup_bindings@.skip(0) =~= self.setup_bindings@);
        }
        while i < n
            invariant
                0 <= i <= n,
                n == self.setup_bindings@.len(),
                find_binding_spec(self.setup_bindings@, name@) == find_binding_spec(
                    self.setup_bindings@.skip(i as int),
                    name@,
                ),
            decreases n - i,
        {
            proof {
                assert(self.setup_bindings@.skip(i as int)[0] == self.setup_bindings@[i as int]);
                assert(self.setup_bindings@.skip(i as int).drop_first() =~= self.setup_bindings@.skip(
                    i as int + 1,
                ));
            }
            if crate::strutil::str_eq(self.setup_bindings[i].name.as_str(), name) {
                return Some(self.setup_bindings[i].kind);
            }
            i = i + 1;
        }
        proof {
            assert(self.setup_bindings@.skip(n as int).len() == 0);
        }
        None
    }

    /// First declared binding whose name is the normalized form of
    /// `tag`.
    pub fn find_binding_normalized(&self, tag: &str) -> (r: Option<&SetupBinding>)
        ensures
            match r {
                Some(b) => find_binding_full_spec(
                    self.setup_bindings@,
                    crate::strutil::normalize_tag(tag@),
                ) == Some(*b),
                None => find_binding_full_spec(
                    self.setup_bindings@,
                    crate::strutil::normalize_tag(tag@),
                ) is None,
            },
    {
        let ghost key = crate::strutil::normalize_tag(tag@);
        let has_dash = crate::strutil::str_contains_dash(tag);
        let n = self.setup_bindings.len();
        let mut i: usize = 0;
        proof {
            assert(self.setup_bindings@.skip(0) =~= self.setup_bindings@);
        }
        while i < n
            invariant
                0 <= i <= n,
                n == self.setup_bindings@.len(),
                has_dash == tag@.contains('-'),
                key == crate::strutil::normalize_tag(tag@),
                find_binding_full_spec(self.setup_bindings@, key) == find_binding_full_spec(
                    self.setup_bindings@.skip(i as int),
                    key,
                ),
            decreases n - i,
        {
            proof {
                assert(self.setup_bindings@.skip(i as int)[0] == self.setup_bindings@[i as int]);
                assert(self.setup_bindings@.skip(i as int).drop_first() =~= self.setup_bindings@.skip(
                    i as int + 1,
                ));
            }
            let hit = if has_dash {
                crate::strutil::matches_normalized(tag, self.setup_bindings[i].name.as_str())
            } else {
                crate::strutil::str_eq(self.setup_bindings[i].name.as_str(), tag)
            };
            if hit {
                return Some(&self.setup_bindings[i]);
            }
            i = i + 1;
        }
        proof {
            assert(self.setup_bindings@.skip(n as int).len() == 0);
        }
        None
    }

    /// Whether a resolution for `name` is already cached.
    pub fn components_contains_key(&self, name: &str) -> (r: bool)
        ensures
            r == comps_find(self.components@, name@) is Some,
    {
        let n = self.components.len();
        let mut i: usize = 0;
        proof {
            assert(self.components@.skip(0) =~= self.components@);
        }
        while i < n
            invariant
                0 <= i <= n,
                n == self.components@.len(),
                comps_find(self.components@, name@) == comps_find(
                    self.components@.skip(i as int),
                    name@,
                ),
            decreases n - i,
        {
            proof {
                assert(self.components@.skip(i as int)[0] == self.components@[i as int]);
                assert(self.components@.skip(i as int).drop_first() =~= self.components@.skip(
                    i as int + 1,
                ));
            }
            if crate::strutil::str_eq(self.components[i].0.as_str(), name) {
                return true;
            }
            i = i + 1;
        }
        proof {
            assert(self.components@.skip(n as int).len() == 0);
        }
        false
    }

    /// The cached resolution for `name`, if any.
    pub fn components_get(&self, name: &str) -> (r: Option<&ComponentBinding>)
        ensures
            match r {
                Some(b) => comps_find(self.components@, name@) == Some(*b),
                None => comps_find(self.components@, name@) is None,
            },
    {
        let n = self.components.len();
        let mut i: usize = 0;
        proof {
            assert(self.components@.skip(0) =~= self.components@);
        }
        while i < n
            invariant
                0 <= i <= n,
                n == self.components@.len(),
                comps_find(self.components@, name@) == comps_find(
                    self.components@.skip(i as int),
                    name@,
                ),
            decreases n - i,
        {
            proof {
                assert(self.components@.skip(i as int)[0] == self.components@[i as int]);
                assert(self.components@.skip(i as int).drop_first() =~= self.components@.skip(
                    i as int + 1,
                ));
            }
            if crate::strutil::str_eq(self.components[i].0.as_str(), name) {
                return Some(&self.components[i].1);
            }
            i = i + 1;
        }
        proof {
            assert(self.components@.skip(n as int).len() == 0);
        }
        None
    }

    /// Resolves the identifiers of one expression under `scope` and
    /// rewrites it in place. Returns whether the expression touched a
    /// reactive binding.
    pub fn transform_expr(&self, expr: &mut Expr, scope: usize) -> (dynamic: bool)
        requires
            self.wf(),
            scope < self.template_scopes@.len(),
        ensures
            (*final(expr), dynamic) == transform_spec(
                scopes_v(self.template_scopes@),
                self.setup_bindings@,
                *old(expr),
                scope as int,
            ),
    {
        let (new_e, dynamic): (Expr, bool) = match &*expr {
            Expr::Lit { .. } => {
                return false;
            },
            Expr::Ident { name } => {
                match self.lookup_scope(name.as_str(), scope) {
                    Some(s) => (Expr::ScopeRef { name: name.clone(), scope: s }, true),
                    None => {
                        match self.find_binding(name.as_str()) {
                            Some(k) => (
                                Expr::BindingRef { name: name.clone(), kind: k },
                                is_reactive(k),
                            ),
                            None => (Expr::CtxRef { name: name.clone() }, true),
                        }
                    },
                }
            },
            Expr::ScopeRef { .. } => {
                return true;
            },
            Expr::BindingRef { kind, .. } => {
                return is_reactive(*kind);
            },
            Expr::CtxRef { .. } => {
                return true;
            },
        };
        *expr = new_e;
        dynamic
    }

    /// Resolves the identifiers of a two-way binding's value in place
    /// and reports whether it touched a reactive binding; the walker
    /// records the binding's patch-hint contribution from that report.
    pub fn transform_v_model(&self, v_model: &mut crate::ast::VModelDirective, scope: usize) -> (dynamic:
        bool)
        requires
            self.wf(),
            scope < self.template_scopes@.len(),
        ensures
            (final(v_model).value, dynamic) == transform_spec(
                scopes_v(self.template_scopes@),
                self.setup_bindings@,
                old(v_model).value,
                scope as int,
            ),
            final(v_model).argument == old(v_model).argument,
    {
        self.transform_expr(&mut v_model.value, scope)
    }
}

/// Executable mirror of `is_reactive_kind`.
pub fn is_reactive(k: BindingKind) -> (r: bool)
    ensures
        r == is_reactive_kind(k),
{
    match k {
        BindingKind::LocalState => true,
        BindingKind::Prop => true,
        BindingKind::Imported => true,
        BindingKind::Literal => false,
        BindingKind::Component => false,
    }
}

/// A helper whose state only grew: scopes and cached resolutions are
/// extended append-only, declared bindings are untouched.
pub open spec fn helper_extends(a: BindingsHelper, b: BindingsHelper) -> bool {
    &&& a.template_scopes@.is_prefix_of(b.template_scopes@)
    &&& a.setup_bindings@ == b.setup_bindings@
    &&& a.components@.is_prefix_of(b.components@)
}

/// A prefix of scope tables is a prefix of their views.
pub proof fn lemma_scopes_v_prefix(a: Seq<TemplateScope>, b: Seq<TemplateScope>)
    requires
        a.is_prefix_of(b),
    ensures
        scopes_v(a).is_prefix_of(scopes_v(b)),
{
    assert(scopes_v(a) =~= scopes_v(b).subrange(0, scopes_v(a).len() as int)) by {
        assert(forall|i: int| 0 <= i < a.len() ==> a[i] == #[trigger] b[i]);
    }
}

/// Growing is transitive.
pub proof fn lemma_helper_extends_trans(a: BindingsHelper, b: BindingsHelper, c: BindingsHelper)
    requires
        helper_extends(a, b),
        helper_extends(b, c),
    ensures
        helper_extends(a, c),
{
    assert(a.template_scopes@.is_prefix_of(c.template_scopes@)) by {
        assert(a.template_scopes@ =~= c.template_scopes@.subrange(
            0,
            a.template_scopes@.len() as int,
        ));
    }
    assert(a.components@.is_prefix_of(c.components@)) by {
        assert(a.components@ =~= c.components@.subrange(0, a.components@.len() as int));
    }
}

} // verus!
