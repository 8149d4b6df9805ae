//! The tree walker: classifies elements, resolves components,
//! allocates scopes, rewrites every embedded expression, accumulates
//! patch hints, runs the children optimizer and recurses.

use vstd::prelude::*;

use crate::ast::{
    children_size, cond_in_ok, cond_out_ok, cond_size, elem_size, flags_fragment_free, flags_wf,
    lemma_children_size_member, node_in_ok, node_out_ok, node_size, subtree_in_ok, subtree_out_ok,
    variant_same, AttributeOrBinding, Conditional, ConditionalNodeSequence, ElementKind,
    ElementNode, Interpolation, Node, PatchFlags, PatchHints, SfcTemplateBlock, StartingTag,
    StrOrExpr, VBindDirective, VForDirective, VModelDirective, VOnDirective, VueDirectives,
};
use crate::bindings::{
    comps_find, find_binding_full_spec, helper_extends, lemma_comps_find_none,
    lemma_comps_find_prefix, lemma_helper_extends_trans, lemma_transform_prefix, scope_v, scopes_v,
    transform_spec, BindingsHelper, ComponentBinding, ScopeV, TemplateScope,
};
use crate::classify::{has_attribute_named, recognize_spec};
use crate::expr::{BindingKind, Expr, SetupBinding};
use crate::optimize::{nodes_f, optimize_spec, CondSeqV, ElemV, NodeF};

verus! {

/// Mutable access to one vector slot.
fn vec_index_mut<T>(v: &mut Vec<T>, i: usize) -> (element: &mut T)
    requires
        i < old(v)@.len(),
    ensures
        *element == old(v)@[i as int],
        final(v)@ == old(v)@.update(i as int, *final(element)),
{
    &mut v[i]
}

/// Collects the names the element's loop and slot patterns introduce,
/// loop variables first.
fn collect_scope_vars(element_node: &ElementNode) -> (vars: Vec<String>)
    ensures
        vars@ == collected_vars(*element_node),
{
    let mut vars: Vec<String> = Vec::new();
    match &element_node.starting_tag.directives {
        Some(d) => {
            match &d.v_for {
                Some(vf) => {
                    let m = vf.itervars.len();
                    let mut k: usize = 0;
                    while k < m
                        invariant
                            0 <= k <= m,
                            m == vf.itervars@.len(),
                            vars@ =~= vf.itervars@.take(k as int),
                        decreases m - k,
                    {
                        vars.push(vf.itervars[k].clone());
                        proof {
                            assert(vf.itervars@.take(k as int + 1) =~= vf.itervars@.take(
                                k as int,
                            ).push(vf.itervars@[k as int]));
                        }
                        k = k + 1;
                    }
                    proof {
                        assert(vf.itervars@.take(m as int) =~= vf.itervars@);
                    }
                },
                None => {},
            }
            let ghost vars_mid = vars@;
            match &d.v_slot {
                Some(vs) => match &vs.value {
                    Some(vn) => {
                        let m = vn.len();
                        let mut k: usize = 0;
                        proof {
                            assert(vars@ =~= vars_mid + vn@.take(0));
                        }
                        while k < m
                            invariant
                                0 <= k <= m,
                                m == vn@.len(),
                                vars@ =~= vars_mid + vn@.take(k as int),
                            decreases m - k,
                        {
                            vars.push(vn[k].clone());
                            proof {
                                assert(vn@.take(k as int + 1) =~= vn@.take(k as int).push(
                                    vn@[k as int],
                                ));
                                assert(vars_mid + vn@.take(k as int + 1) =~= (vars_mid + vn@.take(
                                    k as int,
                                )).push(vn@[k as int]));
                            }
                            k = k + 1;
                        }
                        proof {
                            assert(vn@.take(m as int) =~= vn@);
                        }
                    },
                    None => {
                        proof {
                            assert(vars@ =~= vars_mid + Seq::<String>::empty());
                        }
                    },
                },
                None => {
                    proof {
                        assert(vars@ =~= vars_mid + Seq::<String>::empty());
                    }
                },
            }
        },
        None => {},
    }
    proof {
        assert(vars@ =~= collected_vars(*element_node));
    }
    vars
}

// ---------------------------------------------------------------------
// What one element visit does, as spec functions.
// ---------------------------------------------------------------------

/// Whether the element opens a new template scope: it declares a loop
/// directive or a value-bearing slot directive.
pub open spec fn needs_new_scope(el: ElementNode) -> bool {
    match el.starting_tag.directives {
        Some(d) => d.v_for is Some || (match d.v_slot {
            Some(vs) => vs.value is Some,
            None => false,
        }),
        None => false,
    }
}

/// The names the element's loop and slot patterns introduce, loop
/// variables first.
pub open spec fn collected_vars(el: ElementNode) -> Seq<String> {
    match el.starting_tag.directives {
        Some(d) => (match d.v_for {
            Some(vf) => vf.itervars@,
            None => Seq::empty(),
        }) + (match d.v_slot {
            Some(vs) => match vs.value {
                Some(vars) => vars@,
                None => Seq::empty(),
            },
            None => Seq::empty(),
        }),
        None => Seq::empty(),
    }
}

/// The fragment flags of a processed loop directive: a non-dynamic
/// iterable gives a stable fragment; a dynamic one gives a keyed
/// fragment when a literal `key` attribute is present and an unkeyed
/// one otherwise.
pub open spec fn set_fragment(f: PatchFlags, is_dynamic: bool, has_key: bool) -> PatchFlags {
    PatchFlags {
        stable_fragment: !is_dynamic,
        keyed_fragment: is_dynamic && has_key,
        unkeyed_fragment: is_dynamic && !has_key,
        ..f
    }
}

/// A processed loop directive: iterable rewritten, fragment flags set.
pub open spec fn vfor_processed(
    scopes: Seq<ScopeV>,
    bindings: Seq<SetupBinding>,
    scope: int,
    has_key: bool,
    vf: VForDirective,
) -> VForDirective {
    VForDirective {
        iterable: transform_spec(scopes, bindings, vf.iterable, scope).0,
        itervars: vf.itervars,
        patch_flags: set_fragment(
            vf.patch_flags,
            transform_spec(scopes, bindings, vf.iterable, scope).1,
            has_key,
        ),
    }
}

pub open spec fn opt_transformed(
    scopes: Seq<ScopeV>,
    bindings: Seq<SetupBinding>,
    scope: int,
    e: Option<Expr>,
) -> Option<Expr> {
    match e {
        Some(x) => Some(transform_spec(scopes, bindings, x, scope).0),
        None => None,
    }
}

/// A fully processed directive set: conditional markers untouched,
/// loop directive processed, every other expression rewritten under
/// the element's scope.
pub open spec fn directives_processed(
    scopes: Seq<ScopeV>,
    bindings: Seq<SetupBinding>,
    scope: int,
    has_key: bool,
    d: VueDirectives,
) -> crate::optimize::DirectivesV {
    crate::optimize::DirectivesV {
        v_if: d.v_if,
        v_else_if: d.v_else_if,
        v_else: d.v_else,
        v_for: match d.v_for {
            Some(vf) => Some(vfor_processed(scopes, bindings, scope, has_key, vf)),
            None => None,
        },
        v_slot: d.v_slot,
        v_html: opt_transformed(scopes, bindings, scope, d.v_html),
        v_memo: opt_transformed(scopes, bindings, scope, d.v_memo),
        v_show: opt_transformed(scopes, bindings, scope, d.v_show),
        v_text: opt_transformed(scopes, bindings, scope, d.v_text),
        v_model: d.v_model@.map_values(
            |m: VModelDirective| VModelDirective {
                value: transform_spec(scopes, bindings, m.value, scope).0,
                argument: m.argument,
            },
        ),
    }
}

/// One binding visited by the patch-hint accumulator: the bound value
/// is rewritten; a dynamically named binding forces full props and
/// clears the finer hints; a contributing statically named binding
/// records its hint by the component/element rules; `key` and
/// non-reactive values contribute nothing.
pub open spec fn attr_step(
    scopes: Seq<ScopeV>,
    bindings: Seq<SetupBinding>,
    scope: int,
    is_component: bool,
    h: crate::optimize::HintsV,
    attr: AttributeOrBinding,
) -> (crate::optimize::HintsV, AttributeOrBinding) {
    match attr {
        AttributeOrBinding::VBind(vb) => {
            let val2 = transform_spec(scopes, bindings, vb.value, scope).0;
            let has_bindings = transform_spec(scopes, bindings, vb.value, scope).1;
            let a2 = AttributeOrBinding::VBind(VBindDirective { argument: vb.argument, value: val2 });
            match vb.argument {
                Some(StrOrExpr::Str(arg)) => {
                    if !has_bindings || h.flags.full_props {
                        (h, a2)
                    } else if arg@ == "key"@ {
                        (h, a2)
                    } else if is_component {
                        (
                            crate::optimize::HintsV {
                                flags: PatchFlags { props: true, ..h.flags },
                                props: h.props.push(arg@),
                            },
                            a2,
                        )
                    } else if arg@ == "class"@ {
                        (
                            crate::optimize::HintsV {
                                flags: PatchFlags { class: true, ..h.flags },
                                props: h.props,
                            },
                            a2,
                        )
                    } else if arg@ == "style"@ {
                        (
                            crate::optimize::HintsV {
                                flags: PatchFlags { style: true, ..h.flags },
                                props: h.props,
                            },
                            a2,
                        )
                    } else {
                        (
                            crate::optimize::HintsV {
                                flags: PatchFlags { props: true, ..h.flags },
                                props: h.props.push(arg@),
                            },
                            a2,
                        )
                    }
                },
                _ => (
                    crate::optimize::HintsV {
                        flags: PatchFlags {
                            class: false,
                            style: false,
                            props: false,
                            full_props: true,
                            ..h.flags
                        },
                        props: Seq::empty(),
                    },
                    a2,
                ),
            }
        },
        AttributeOrBinding::VOn(von) => match von.handler {
            Some(hd) => (
                h,
                AttributeOrBinding::VOn(
                    VOnDirective {
                        event: von.event,
                        handler: Some(transform_spec(scopes, bindings, hd, scope).0),
                    },
                ),
            ),
            None => (h, attr),
        },
        _ => (h, attr),
    }
}

/// The accumulator folded over a whole attribute list.
pub open spec fn attrs_steps(
    scopes: Seq<ScopeV>,
    bindings: Seq<SetupBinding>,
    scope: int,
    is_component: bool,
    h: crate::optimize::HintsV,
    attrs: Seq<AttributeOrBinding>,
) -> (crate::optimize::HintsV, Seq<AttributeOrBinding>)
    decreases attrs.len(),
{
    if attrs.len() == 0 {
        (h, Seq::empty())
    } else {
        let prev = attrs_steps(scopes, bindings, scope, is_component, h, attrs.drop_last());
        let last = attr_step(scopes, bindings, scope, is_component, prev.0, attrs.last());
        (last.0, prev.1.push(last.1))
    }
}

/// The prop a two-way binding targets: its static argument, or the
/// default model prop.
pub open spec fn vmodel_prop_name(m: VModelDirective) -> Seq<char> {
    match m.argument {
        Some(StrOrExpr::Str(s)) => s@,
        _ => "modelValue"@,
    }
}

/// One two-way binding visited by the patch-hint accumulator: a
/// dynamically named one forces full props and clears the finer
/// hints; a contributing one records its target prop and sets the
/// props flag, under the same gates as any other binding.
pub open spec fn vmodel_hint_step(
    scopes: Seq<ScopeV>,
    bindings: Seq<SetupBinding>,
    scope: int,
    h: crate::optimize::HintsV,
    m: VModelDirective,
) -> crate::optimize::HintsV {
    match m.argument {
        Some(StrOrExpr::Expr(_)) => crate::optimize::HintsV {
            flags: PatchFlags {
                class: false,
                style: false,
                props: false,
                full_props: true,
                ..h.flags
            },
            props: Seq::empty(),
        },
        _ => {
            if !transform_spec(scopes, bindings, m.value, scope).1 || h.flags.full_props {
                h
            } else {
                crate::optimize::HintsV {
                    flags: PatchFlags { props: true, ..h.flags },
                    props: h.props.push(vmodel_prop_name(m)),
                }
            }
        },
    }
}

/// The accumulator folded over a whole two-way-binding list.
pub open spec fn vmodel_steps(
    scopes: Seq<ScopeV>,
    bindings: Seq<SetupBinding>,
    scope: int,
    h: crate::optimize::HintsV,
    models: Seq<VModelDirective>,
) -> crate::optimize::HintsV
    decreases models.len(),
{
    if models.len() == 0 {
        h
    } else {
        vmodel_hint_step(
            scopes,
            bindings,
            scope,
            vmodel_steps(scopes, bindings, scope, h, models.drop_last()),
            models.last(),
        )
    }
}

/// The element's two-way-binding list, if it has directives.
pub open spec fn models_of(el: ElementNode) -> Seq<VModelDirective> {
    match el.starting_tag.directives {
        Some(d) => d.v_model@,
        None => Seq::empty(),
    }
}

/// Whether a node's variant blocks the text-only patch hint.
pub open spec fn child_blocks_text(n: Node) -> bool {
    n is Element || n is ConditionalSeq
}

/// Whether a node is an interpolation whose expression touched a
/// reactive binding.
pub open spec fn child_dynamic_interp(n: Node) -> bool {
    match n {
        Node::Interpolation(itp) => itp.patch_flag,
        _ => false,
    }
}

/// The text-only patch hint rule: a plain element with children, none
/// of them elements or conditional sequences, at least one a dynamic
/// interpolation.
pub open spec fn text_rule(kind: ElementKind, children: Seq<Node>) -> bool {
    &&& kind is Element
    &&& children.len() > 0
    &&& forall|i: int| 0 <= i < children.len() ==> !child_blocks_text(#[trigger] children[i])
    &&& exists|i: int| 0 <= i < children.len() && child_dynamic_interp(#[trigger] children[i])
}

/// A node view and a node of the same variant.
pub open spec fn variant_same_nf(nf: NodeF, n: Node) -> bool {
    match (nf, n) {
        (NodeF::El(_), Node::Element(_)) => true,
        (NodeF::Tx(_), Node::Text(_)) => true,
        (NodeF::In(_), Node::Interpolation(_)) => true,
        (NodeF::Cm(_), Node::Comment(_)) => true,
        (NodeF::Cs(_), Node::ConditionalSeq(_)) => true,
        _ => false,
    }
}

/// What resolving a tag name against the declared bindings yields: a
/// reference to the first binding whose name is the normalized tag
/// name — rewritten under the current scope unless the binding is a
/// statically known component — or the unresolved marker.
pub open spec fn resolved_binding_spec(
    scopes: Seq<ScopeV>,
    bindings: Seq<SetupBinding>,
    scope: int,
    tag: Seq<char>,
) -> ComponentBinding {
    match find_binding_full_spec(bindings, crate::strutil::normalize_tag(tag)) {
        Some(b) => ComponentBinding::Resolved(
            if b.kind == BindingKind::Component {
                Expr::Ident { name: b.name }
            } else {
                transform_spec(scopes, bindings, Expr::Ident { name: b.name }, scope).0
            },
        ),
        None => ComponentBinding::Unresolved,
    }
}

/// Everything one element visit pins down about the element itself:
/// its kind, scope id, rewritten attributes and directives, exact
/// patch hints, the shape of its optimized children and the hint
/// invariant over the whole subtree.
pub open spec fn element_visited(
    scopes0: Seq<ScopeV>,
    bindings: Seq<SetupBinding>,
    cs: int,
    oel: ElementNode,
    fel: ElementNode,
) -> bool {
    let kind = recognize_spec(oel.starting_tag);
    let scoped = needs_new_scope(oel);
    let scope_used: int = if scoped {
        scopes0.len() as int
    } else {
        cs
    };
    let scopes1 = if scoped {
        scopes0.push(ScopeV { variables: collected_vars(oel), parent: cs as usize })
    } else {
        scopes0
    };
    let has_key = has_attribute_named(oel.starting_tag.attributes@, "key"@);
    let stepped = attrs_steps(
        scopes1,
        bindings,
        scope_used,
        kind is Component,
        crate::optimize::hints_v(oel.patch_hints),
        oel.starting_tag.attributes@,
    );
    let hm = vmodel_steps(scopes1, bindings, scope_used, stepped.0, models_of(oel));
    &&& fel.kind == kind
    &&& fel.starting_tag.tag_name@ == oel.starting_tag.tag_name@
    &&& fel.template_scope == scope_used
    &&& fel.starting_tag.attributes@ == stepped.1
    &&& crate::optimize::directives_opt_v(fel.starting_tag.directives) == (match oel.starting_tag.directives {
        Some(d) => Some(directives_processed(scopes1, bindings, scope_used, has_key, d)),
        None => None::<crate::optimize::DirectivesV>,
    })
    &&& crate::optimize::hints_v(fel.patch_hints).props == hm.props
    &&& fel.patch_hints.flags == (PatchFlags {
        text: hm.flags.text || text_rule(kind, fel.children@),
        ..hm.flags
    })
    &&& fel.children@.len() == optimize_spec(oel.children@, kind).len()
    &&& forall|j: int|
        0 <= j < fel.children@.len() ==> variant_same_nf(
            optimize_spec(oel.children@, kind)[j],
            #[trigger] fel.children@[j],
        )
    &&& subtree_out_ok(fel)
}

/// Executable check of the text-only patch hint rule.
fn children_text_rule(element_kind: ElementKind, children: &Vec<Node>) -> (r: bool)
    ensures
        r == text_rule(element_kind, children@),
{
    let mut is_children_text_only = matches!(element_kind, ElementKind::Element) && children.len()
        > 0;
    let mut has_dynamic_interpolation = false;
    let n_children = children.len();
    let mut j: usize = 0;
    while j < n_children
        invariant
            0 <= j <= n_children,
            children@.len() == n_children,
            is_children_text_only == ((element_kind is Element) && n_children > 0 && (forall|
                k: int,
            |
                0 <= k < j ==> !child_blocks_text(#[trigger] children@[k]))),
            has_dynamic_interpolation == (exists|k: int|
                0 <= k < j && child_dynamic_interp(#[trigger] children@[k])),
        decreases n_children - j,
    {
        match &children[j] {
            Node::Element(_) => {
                is_children_text_only = false;
            },
            Node::ConditionalSeq(_) => {
                is_children_text_only = false;
            },
            Node::Interpolation(itp) => {
                has_dynamic_interpolation = has_dynamic_interpolation || itp.patch_flag;
            },
            _ => {},
        }
        j = j + 1;
    }
    is_children_text_only && has_dynamic_interpolation
}

/// An element visit that happened under some append-only extension of
/// the given scope table: what later siblings can still say of an
/// earlier visit.
pub open spec fn element_visited_ex(
    scopes0: Seq<ScopeV>,
    bindings: Seq<SetupBinding>,
    cs: int,
    o: ElementNode,
    f: ElementNode,
) -> bool {
    exists|scopes: Seq<ScopeV>|
        #![auto]
        scopes0.is_prefix_of(scopes) && element_visited(scopes, bindings, cs, o, f)
}

/// What visiting a folded conditional sequence pins down: every
/// condition rewritten under the enclosing scope, the opening branch
/// visited under the entry state, every later branch visited under the
/// helper state then in effect, and the terminal branch present
/// exactly as before.
pub open spec fn cond_visited(
    scopes0: Seq<ScopeV>,
    bindings: Seq<SetupBinding>,
    cs: int,
    o: ConditionalNodeSequence,
    f: ConditionalNodeSequence,
) -> bool {
    &&& f.if_node.condition == transform_spec(scopes0, bindings, o.if_node.condition, cs).0
    &&& element_visited(scopes0, bindings, cs, o.if_node.node, f.if_node.node)
    &&& f.else_if_nodes@.len() == o.else_if_nodes@.len()
    &&& forall|i: int|
        0 <= i < f.else_if_nodes@.len() ==> {
            &&& (#[trigger] f.else_if_nodes@[i]).condition == transform_spec(
                scopes0,
                bindings,
                o.else_if_nodes@[i].condition,
                cs,
            ).0
            &&& element_visited_ex(
                scopes0,
                bindings,
                cs,
                o.else_if_nodes@[i].node,
                f.else_if_nodes@[i].node,
            )
        }
    &&& (f.else_node is Some <==> o.else_node is Some)
    &&& match (o.else_node, f.else_node) {
        (Some(ob), Some(fb)) => element_visited_ex(scopes0, bindings, cs, *ob, *fb),
        _ => true,
    }
}

/// What one node visit pins down, by variant, under a given scope
/// table: elements and conditional sequences carry their visited
/// relations, an interpolation its scope and rewritten expression,
/// text and comments pass untouched.
pub open spec fn node_visited_at(
    scopes: Seq<ScopeV>,
    bindings: Seq<SetupBinding>,
    cs: int,
    o: Node,
    f: Node,
) -> bool {
    match (o, f) {
        (Node::Element(oe), Node::Element(fe)) => element_visited(scopes, bindings, cs, oe, fe),
        (Node::ConditionalSeq(oc), Node::ConditionalSeq(fc)) => cond_visited(
            scopes,
            bindings,
            cs,
            oc,
            fc,
        ),
        (Node::Interpolation(oi), Node::Interpolation(fi)) => fi.template_scope as int == cs && (
        fi.value,
        fi.patch_flag,
        ) == transform_spec(scopes, bindings, oi.value, cs),
        (Node::Text(_), Node::Text(_)) => f == o,
        (Node::Comment(_), Node::Comment(_)) => f == o,
        _ => false,
    }
}

/// A node visit that happened under some append-only extension of the
/// given scope table.
pub open spec fn node_visited_ex(
    scopes0: Seq<ScopeV>,
    bindings: Seq<SetupBinding>,
    cs: int,
    o: Node,
    f: Node,
) -> bool {
    exists|scopes: Seq<ScopeV>|
        #![auto]
        scopes0.is_prefix_of(scopes) && node_visited_at(scopes, bindings, cs, o, f)
}

// ---------------------------------------------------------------------
// Component-table coverage: every component-classified element of a
// visited tree has a cached resolution.
// ---------------------------------------------------------------------

pub open spec fn components_covered_el(
    el: ElementNode,
    comps: Seq<(String, ComponentBinding)>,
) -> bool
    decreases el,
{
    &&& ((el.kind is Component) ==> comps_find(comps, el.starting_tag.tag_name@) is Some)
    &&& forall|i: int|
        0 <= i < el.children@.len() ==> components_covered_node(#[trigger] el.children@[i], comps)
}

pub open spec fn components_covered_cond(
    c: ConditionalNodeSequence,
    comps: Seq<(String, ComponentBinding)>,
) -> bool
    decreases c,
{
    &&& components_covered_el(c.if_node.node, comps)
    &&& forall|i: int|
        0 <= i < c.else_if_nodes@.len() ==> components_covered_el(
            (#[trigger] c.else_if_nodes@[i]).node,
            comps,
        )
    &&& match c.else_node {
        Some(el) => components_covered_el(*el, comps),
        None => true,
    }
}

pub open spec fn components_covered_node(n: Node, comps: Seq<(String, ComponentBinding)>) -> bool
    decreases n,
{
    match n {
        Node::Element(el) => components_covered_el(el, comps),
        Node::ConditionalSeq(c) => components_covered_cond(c, comps),
        _ => true,
    }
}

/// Coverage survives extending the table.
pub proof fn lemma_covered_monotone(n: Node, a: Seq<(String, ComponentBinding)>, b: Seq<(String, ComponentBinding)>)
    requires
        components_covered_node(n, a),
        a.is_prefix_of(b),
    ensures
        components_covered_node(n, b),
    decreases n,
{
    match n {
        Node::Element(el) => {
            lemma_covered_monotone_el(el, a, b);
        },
        Node::ConditionalSeq(c) => {
            lemma_covered_monotone_el(c.if_node.node, a, b);
            assert forall|i: int| 0 <= i < c.else_if_nodes@.len() implies components_covered_el(
                (#[trigger] c.else_if_nodes@[i]).node,
                b,
            ) by {
                lemma_covered_monotone_el(c.else_if_nodes@[i].node, a, b);
            }
            match c.else_node {
                Some(el) => {
                    lemma_covered_monotone_el(*el, a, b);
                },
                None => {},
            }
        },
        _ => {},
    }
}

pub proof fn lemma_covered_monotone_el(
    el: ElementNode,
    a: Seq<(String, ComponentBinding)>,
    b: Seq<(String, ComponentBinding)>,
)
    requires
        components_covered_el(el, a),
        a.is_prefix_of(b),
    ensures
        components_covered_el(el, b),
    decreases el,
{
    if el.kind is Component {
        lemma_comps_find_prefix(a, b, el.starting_tag.tag_name@);
    }
    assert forall|i: int| 0 <= i < el.children@.len() implies components_covered_node(
        #[trigger] el.children@[i],
        b,
    ) by {
        lemma_covered_monotone(el.children@[i], a, b);
    }
}

// ---------------------------------------------------------------------
// The visitor.
// ---------------------------------------------------------------------

/// The stateful tree walker: the shared binding state and the scope
/// the walk currently stands in.
pub struct TemplateVisitor {
    pub bindings_helper: BindingsHelper,
    pub current_scope: usize,
}

impl TemplateVisitor {
    /// The visitor invariant: helper well-formed, current scope in the
    /// table.
    pub open spec fn wf(self) -> bool {
        &&& self.bindings_helper.wf()
        &&& self.current_scope < self.bindings_helper.template_scopes@.len()
    }

    /// Classifies an opening tag (see `recognize_spec`).
    pub fn recognize_element_kind(&self, starting_tag: &StartingTag) -> (r: ElementKind)
        ensures
            r == recognize_spec(*starting_tag),
    {
        crate::classify::recognize_element_kind_impl(starting_tag)
    }

    /// Fuzzy-matches a component tag name against the declared
    /// bindings and caches the outcome; a name already cached is left
    /// exactly as it is.
    pub fn maybe_resolve_component(&mut self, tag_name: &str)
        requires
            old(self).wf(),
        ensures
            final(self).wf(),
            final(self).current_scope == old(self).current_scope,
            final(self).bindings_helper.template_scopes == old(
                self,
            ).bindings_helper.template_scopes,
            final(self).bindings_helper.setup_bindings == old(self).bindings_helper.setup_bindings,
            helper_extends(old(self).bindings_helper, final(self).bindings_helper),
            comps_find(old(self).bindings_helper.components@, tag_name@) is Some ==> *final(self)
                == *old(self),
            comps_find(old(self).bindings_helper.components@, tag_name@) is None ==> {
                &&& final(self).bindings_helper.components@.len() == old(
                    self,
                ).bindings_helper.components@.len() + 1
                &&& comps_find(final(self).bindings_helper.components@, tag_name@) == Some(
                    resolved_binding_spec(
                        scopes_v(old(self).bindings_helper.template_scopes@),
                        old(self).bindings_helper.setup_bindings@,
                        old(self).current_scope as int,
                        tag_name@,
                    ),
                )
            },
            comps_find(final(self).bindings_helper.components@, tag_name@) is Some,
    {
        let ghost comps0 = self.bindings_helper.components@;
        if self.bindings_helper.components_contains_key(tag_name) {
            proof {
                assert(self.bindings_helper.components@.is_prefix_of(
                    self.bindings_helper.components@,
                ));
            }
            return ;
        }
        let found_pair: Option<(String, BindingKind)> = match self.bindings_helper
            .find_binding_normalized(tag_name) {
            Some(b) => Some((b.name.clone(), b.kind)),
            None => None,
        };
        let entry_value: ComponentBinding = match found_pair {
            Some((bname, k)) => {
                let mut resolved_to = Expr::Ident { name: bname };
                if !matches!(k, BindingKind::Component) {
                    let _ = self.bindings_helper.transform_expr(&mut resolved_to, self.current_scope);
                }
                ComponentBinding::Resolved(resolved_to)
            },
            None => ComponentBinding::Unresolved,
        };
        let key = tag_name.to_owned();
        proof {
            lemma_comps_find_none(comps0, tag_name@);
            crate::bindings::lemma_comps_find_push(
                comps0,
                (key, entry_value),
                tag_name@,
            );
        }
        self.bindings_helper.components.push((key, entry_value));
        proof {
            assert(comps0.is_prefix_of(self.bindings_helper.components@)) by {
                assert(comps0 =~= self.bindings_helper.components@.subrange(
                    0,
                    comps0.len() as int,
                ));
            }
            assert(self.bindings_helper.wf()) by {
                assert forall|i: int, j: int|
                    0 <= i < j < self.bindings_helper.components@.len() implies (
                #[trigger] self.bindings_helper.components@[i].0)@ != (
                #[trigger] self.bindings_helper.components@[j].0)@ by {
                    if j == comps0.len() as int {
                        assert(self.bindings_helper.components@[i] == comps0[i]);
                    }
                }
            }
        }
    }

    /// Visits an interpolation: records the current scope, rewrites
    /// the expression and stores whether it touched a reactive
    /// binding.
    pub fn visit_interpolation(&mut self, interpolation: &mut Interpolation)
        requires
            old(self).wf(),
        ensures
            *final(self) == *old(self),
            final(interpolation).template_scope == old(self).current_scope,
            (final(interpolation).value, final(interpolation).patch_flag) == transform_spec(
                scopes_v(old(self).bindings_helper.template_scopes@),
                old(self).bindings_helper.setup_bindings@,
                old(interpolation).value,
                old(self).current_scope as int,
            ),
    {
        interpolation.template_scope = self.current_scope;
        let has_js = self.bindings_helper.transform_expr(
            &mut interpolation.value,
            self.current_scope,
        );
        interpolation.patch_flag = has_js;
    }

    /// Walks the element's bindings: rewrites every bound value and
    /// handler and accumulates the element's patch hints.
    #[verifier::rlimit(100)]
    fn process_attributes(&self, element_node: &mut ElementNode, scope: usize)
        requires
            self.wf(),
            scope < self.bindings_helper.template_scopes@.len(),
        ensures
            ({
                let stepped = attrs_steps(
                    scopes_v(self.bindings_helper.template_scopes@),
                    self.bindings_helper.setup_bindings@,
                    scope as int,
                    old(element_node).kind is Component,
                    crate::optimize::hints_v(old(element_node).patch_hints),
                    old(element_node).starting_tag.attributes@,
                );
                &&& final(element_node).starting_tag.attributes@ == stepped.1
                &&& crate::optimize::hints_v(final(element_node).patch_hints) == stepped.0
            }),
            final(element_node).kind == old(element_node).kind,
            final(element_node).starting_tag.tag_name == old(element_node).starting_tag.tag_name,
            final(element_node).starting_tag.directives == old(
                element_node,
            ).starting_tag.directives,
            final(element_node).children == old(element_node).children,
            final(element_node).template_scope == old(element_node).template_scope,
    {
        let ghost oel = *element_node;
        let ghost scopes1 = scopes_v(self.bindings_helper.template_scopes@);
        let ghost bindings = self.bindings_helper.setup_bindings@;
        let ghost su = scope as int;
        let ghost attrs0 = oel.starting_tag.attributes@;
        let ghost h00 = crate::optimize::hints_v(oel.patch_hints);
        let is_component = matches!(element_node.kind, ElementKind::Component);
        let mut new_attrs: Vec<AttributeOrBinding> = Vec::new();
        let n_attrs = element_node.starting_tag.attributes.len();
        let mut i: usize = 0;
        proof {
            assert(attrs0.skip(0) =~= attrs0);
            assert(attrs0.take(0) =~= Seq::<AttributeOrBinding>::empty());
        }
        while element_node.starting_tag.attributes.len() > 0
            invariant
                0 <= i <= n_attrs,
                n_attrs == attrs0.len(),
                self.wf(),
                scope < self.bindings_helper.template_scopes@.len(),
                scopes1 == scopes_v(self.bindings_helper.template_scopes@),
                bindings == self.bindings_helper.setup_bindings@,
                su == scope as int,
                is_component == (oel.kind is Component),
                element_node.starting_tag.attributes@ =~= attrs0.skip(i as int),
                element_node.starting_tag.directives == oel.starting_tag.directives,
                element_node.starting_tag.tag_name == oel.starting_tag.tag_name,
                element_node.kind == oel.kind,
                element_node.template_scope == oel.template_scope,
                element_node.children == oel.children,
                crate::optimize::hints_v(element_node.patch_hints) == attrs_steps(
                    scopes1,
                    bindings,
                    su,
                    is_component,
                    h00,
                    attrs0.take(i as int),
                ).0,
                new_attrs@ == attrs_steps(
                    scopes1,
                    bindings,
                    su,
                    is_component,
                    h00,
                    attrs0.take(i as int),
                ).1,
            decreases n_attrs - i,
        {
            let a = element_node.starting_tag.attributes.remove(0);
            proof {
                assert(element_node.starting_tag.attributes@ =~= attrs0.skip(i as int + 1)) by {
                    assert(attrs0.skip(i as int).remove(0) =~= attrs0.skip(i as int + 1));
                }
                assert(a == attrs0.skip(i as int)[0]);
                assert(a == attrs0[i as int]);
                assert(attrs0.take(i as int + 1).drop_last() =~= attrs0.take(i as int));
                assert(attrs0.take(i as int + 1).last() == attrs0[i as int]);
            }
            let ghost pre = attrs_steps(scopes1, bindings, su, is_component, h00, attrs0.take(i as int));
            match a {
                AttributeOrBinding::VBind(vb0) => {
                    let mut vb = vb0;
                    let has_b = self.bindings_helper.transform_expr(&mut vb.value, scope);
                    match &vb.argument {
                        Some(StrOrExpr::Str(arg)) => {
                            let skip_it = !has_b || element_node.patch_hints.flags.full_props;
                            if !skip_it {
                                if crate::strutil::str_eq(arg.as_str(), "key") {
                                } else if is_component {
                                    element_node.patch_hints.flags.props = true;
                                    element_node.patch_hints.props.push(arg.clone());
                                } else if crate::strutil::str_eq(arg.as_str(), "class") {
                                    element_node.patch_hints.flags.class = true;
                                } else if crate::strutil::str_eq(arg.as_str(), "style") {
                                    element_node.patch_hints.flags.style = true;
                                } else {
                                    element_node.patch_hints.flags.props = true;
                                    element_node.patch_hints.props.push(arg.clone());
                                }
                            }
                        },
                        _ => {
                            element_node.patch_hints.flags.class = false;
                            element_node.patch_hints.flags.style = false;
                            element_node.patch_hints.flags.props = false;
                            element_node.patch_hints.flags.full_props = true;
                            element_node.patch_hints.props.truncate(0);
                            proof {
                                assert(element_node.patch_hints.props@ =~= Seq::<String>::empty());
                            }
                        },
                    }
                    new_attrs.push(AttributeOrBinding::VBind(vb));
                    proof {
                        assert(crate::optimize::hints_v(element_node.patch_hints) =~~= attr_step(
                            scopes1,
                            bindings,
                            su,
                            is_component,
                            pre.0,
                            attrs0[i as int],
                        ).0);
                        assert(new_attrs@ =~~= attrs_steps(
                            scopes1,
                            bindings,
                            su,
                            is_component,
                            h00,
                            attrs0.take(i as int + 1),
                        ).1);
                    }
                },
                AttributeOrBinding::VOn(von0) => {
                    let mut von = von0;
                    match &mut von.handler {
                        Some(hd) => {
                            let _ = self.bindings_helper.transform_expr(hd, scope);
                        },
                        None => {},
                    }
                    new_attrs.push(AttributeOrBinding::VOn(von));
                    proof {
                        assert(new_attrs@ =~~= attrs_steps(
                            scopes1,
                            bindings,
                            su,
                            is_component,
                            h00,
                            attrs0.take(i as int + 1),
                        ).1);
                    }
                },
                a2 => {
                    new_attrs.push(a2);
                    proof {
                        assert(new_attrs@ =~~= attrs_steps(
                            scopes1,
                            bindings,
                            su,
                            is_component,
                            h00,
                            attrs0.take(i as int + 1),
                        ).1);
                    }
                },
            }
            i = i + 1;
        }
        proof {
            assert(i == n_attrs);
            assert(attrs0.take(n_attrs as int) =~= attrs0);
        }
        element_node.starting_tag.attributes = new_attrs;
    }

    /// Rewrites the non-loop directive expressions — raw HTML, memo
    /// key, show condition, text override and two-way bindings — and
    /// accumulates the patch hints the two-way bindings contribute.
    fn transform_directives(&self, element_node: &mut ElementNode, scope: usize)
        requires
            self.wf(),
            scope < self.bindings_helper.template_scopes@.len(),
        ensures
            crate::optimize::directives_opt_v(final(element_node).starting_tag.directives)
                == (match old(element_node).starting_tag.directives {
                Some(d) => Some(
                    (crate::optimize::DirectivesV {
                        v_if: d.v_if,
                        v_else_if: d.v_else_if,
                        v_else: d.v_else,
                        v_for: d.v_for,
                        v_slot: d.v_slot,
                        v_html: opt_transformed(
                            scopes_v(self.bindings_helper.template_scopes@),
                            self.bindings_helper.setup_bindings@,
                            scope as int,
                            d.v_html,
                        ),
                        v_memo: opt_transformed(
                            scopes_v(self.bindings_helper.template_scopes@),
                            self.bindings_helper.setup_bindings@,
                            scope as int,
                            d.v_memo,
                        ),
                        v_show: opt_transformed(
                            scopes_v(self.bindings_helper.template_scopes@),
                            self.bindings_helper.setup_bindings@,
                            scope as int,
                            d.v_show,
                        ),
                        v_text: opt_transformed(
                            scopes_v(self.bindings_helper.template_scopes@),
                            self.bindings_helper.setup_bindings@,
                            scope as int,
                            d.v_text,
                        ),
                        v_model: d.v_model@.map_values(
                            |m: VModelDirective| VModelDirective {
                                value: transform_spec(
                                    scopes_v(self.bindings_helper.template_scopes@),
                                    self.bindings_helper.setup_bindings@,
                                    m.value,
                                    scope as int,
                                ).0,
                                argument: m.argument,
                            },
                        ),
                    }),
                ),
                None => None::<crate::optimize::DirectivesV>,
            }),
            final(element_node).starting_tag.attributes == old(
                element_node,
            ).starting_tag.attributes,
            final(element_node).starting_tag.tag_name == old(element_node).starting_tag.tag_name,
            final(element_node).kind == old(element_node).kind,
            final(element_node).children == old(element_node).children,
            final(element_node).template_scope == old(element_node).template_scope,
            crate::optimize::hints_v(final(element_node).patch_hints) == vmodel_steps(
                scopes_v(self.bindings_helper.template_scopes@),
                self.bindings_helper.setup_bindings@,
                scope as int,
                crate::optimize::hints_v(old(element_node).patch_hints),
                models_of(*old(element_node)),
            ),
    {
        let ghost scopes1 = scopes_v(self.bindings_helper.template_scopes@);
        let ghost bindings = self.bindings_helper.setup_bindings@;
        let ghost su = scope as int;
        let ghost h_start = crate::optimize::hints_v(element_node.patch_hints);
        let ghost models_all = models_of(*element_node);
        match &mut element_node.starting_tag.directives {
            Some(d) => {
                match &mut d.v_html {
                    Some(e) => {
                        let _ = self.bindings_helper.transform_expr(e, scope);
                    },
                    None => {},
                }
                match &mut d.v_memo {
                    Some(e) => {
                        let _ = self.bindings_helper.transform_expr(e, scope);
                    },
                    None => {},
                }
                match &mut d.v_show {
                    Some(e) => {
                        let _ = self.bindings_helper.transform_expr(e, scope);
                    },
                    None => {},
                }
                match &mut d.v_text {
                    Some(e) => {
                        let _ = self.bindings_helper.transform_expr(e, scope);
                    },
                    None => {},
                }
            },
            None => {},
        }
        let mut models: Vec<VModelDirective> = Vec::new();
        match &mut element_node.starting_tag.directives {
            Some(d) => {
                core::mem::swap(&mut d.v_model, &mut models);
            },
            None => {},
        }
        let ghost models0 = models@;
        proof {
            assert(models0 == models_all);
            assert(models0.skip(0) =~= models0);
            assert(models0.take(0) =~= Seq::<VModelDirective>::empty());
        }
        let ghost el_mid = *element_node;
        let mut new_models: Vec<VModelDirective> = Vec::new();
        let n_models = models.len();
        let mut k: usize = 0;
        while models.len() > 0
            invariant
                0 <= k <= n_models,
                n_models == models0.len(),
                self.wf(),
                scope < self.bindings_helper.template_scopes@.len(),
                scopes1 == scopes_v(self.bindings_helper.template_scopes@),
                bindings == self.bindings_helper.setup_bindings@,
                su == scope as int,
                models@ =~= models0.skip(k as int),
                element_node.starting_tag == el_mid.starting_tag,
                element_node.kind == el_mid.kind,
                element_node.children == el_mid.children,
                element_node.template_scope == el_mid.template_scope,
                crate::optimize::hints_v(element_node.patch_hints) == vmodel_steps(
                    scopes1,
                    bindings,
                    su,
                    h_start,
                    models0.take(k as int),
                ),
                new_models@.len() == k,
                forall|j: int|
                    0 <= j < k ==> #[trigger] new_models@[j] == (VModelDirective {
                        value: transform_spec(scopes1, bindings, models0[j].value, su).0,
                        argument: models0[j].argument,
                    }),
            decreases n_models - k,
        {
            let mut m = models.remove(0);
            proof {
                assert(models@ =~= models0.skip(k as int + 1)) by {
                    assert(models0.skip(k as int).remove(0) =~= models0.skip(k as int + 1));
                }
                assert(m == models0.skip(k as int)[0]);
                assert(m == models0[k as int]);
                assert(models0.take(k as int + 1).drop_last() =~= models0.take(k as int));
                assert(models0.take(k as int + 1).last() == models0[k as int]);
            }
            let ghost h_pre = crate::optimize::hints_v(element_node.patch_hints);
            let reactive = self.bindings_helper.transform_v_model(&mut m, scope);
            match &m.argument {
                Some(StrOrExpr::Expr(_)) => {
                    element_node.patch_hints.flags.class = false;
                    element_node.patch_hints.flags.style = false;
                    element_node.patch_hints.flags.props = false;
                    element_node.patch_hints.flags.full_props = true;
                    element_node.patch_hints.props.truncate(0);
                    proof {
                        assert(element_node.patch_hints.props@ =~= Seq::<String>::empty());
                        assert(crate::optimize::hints_v(element_node.patch_hints)
                            =~~= vmodel_hint_step(scopes1, bindings, su, h_pre, models0[k as int]));
                    }
                },
                _ => {
                    if reactive && !element_node.patch_hints.flags.full_props {
                        element_node.patch_hints.flags.props = true;
                        match &m.argument {
                            Some(StrOrExpr::Str(a)) => {
                                element_node.patch_hints.props.push(a.clone());
                            },
                            _ => {
                                element_node.patch_hints.props.push(String::from_str("modelValue"));
                            },
                        }
                    }
                    proof {
                        assert(crate::optimize::hints_v(element_node.patch_hints)
                            =~~= vmodel_hint_step(scopes1, bindings, su, h_pre, models0[k as int]));
                    }
                },
            }
            new_models.push(m);
            k = k + 1;
        }
        proof {
            assert(models0.take(n_models as int) =~= models0);
            assert(new_models@ =~= models0.map_values(
                |m: VModelDirective| VModelDirective {
                    value: transform_spec(scopes1, bindings, m.value, su).0,
                    argument: m.argument,
                },
            ));
        }
        match &mut element_node.starting_tag.directives {
            Some(d) => {
                d.v_model = new_models;
            },
            None => {},
        }
    }

    /// Visits each child of an already optimized sibling list.
    #[verifier::loop_isolation(false)]
    fn visit_children(&mut self, children: &mut Vec<Node>)
        requires
            old(self).wf(),
            forall|i: int| 0 <= i < old(children)@.len() ==> node_in_ok(#[trigger] old(children)@[i]),
        ensures
            final(self).wf(),
            final(self).current_scope == old(self).current_scope,
            helper_extends(old(self).bindings_helper, final(self).bindings_helper),
            final(children)@.len() == old(children)@.len(),
            forall|i: int|
                0 <= i < final(children)@.len() ==> node_out_ok(#[trigger] final(children)@[i])
                    && variant_same(old(children)@[i], final(children)@[i]),
            forall|i: int|
                0 <= i < final(children)@.len() ==> node_visited_ex(
                    scopes_v(old(self).bindings_helper.template_scopes@),
                    old(self).bindings_helper.setup_bindings@,
                    old(self).current_scope as int,
                    old(children)@[i],
                    #[trigger] final(children)@[i],
                ),
            forall|i: int|
                0 <= i < final(children)@.len() ==> components_covered_node(
                    #[trigger] final(children)@[i],
                    final(self).bindings_helper.components@,
                ),
        decreases children_size(children@), 3int,
    {
        let ghost c0 = children@;
        let ghost h0 = self.bindings_helper;
        let n = children.len();
        let mut j: usize = 0;
        proof {
            assert(c0.skip(0) =~= c0);
            assert(helper_extends(h0, h0)) by {
                assert(h0.template_scopes@.is_prefix_of(h0.template_scopes@));
                assert(h0.components@.is_prefix_of(h0.components@));
            }
        }
        while j < n
            invariant
                0 <= j <= n,
                n == c0.len(),
                children@.len() == n,
                self.wf(),
                self.current_scope == old(self).current_scope,
                helper_extends(h0, self.bindings_helper),
                children@.skip(j as int) =~= c0.skip(j as int),
                forall|k: int|
                    0 <= k < j ==> node_out_ok(#[trigger] children@[k]) && variant_same(
                        c0[k],
                        children@[k],
                    ),
                forall|k: int|
                    0 <= k < j ==> node_visited_ex(
                        scopes_v(h0.template_scopes@),
                        h0.setup_bindings@,
                        old(self).current_scope as int,
                        c0[k],
                        #[trigger] children@[k],
                    ),
                forall|k: int|
                    0 <= k < j ==> components_covered_node(
                        #[trigger] children@[k],
                        self.bindings_helper.components@,
                    ),
            decreases n - j,
        {
            proof {
                assert(children@[j as int] == children@.skip(j as int)[0]);
                assert(children@[j as int] == c0[j as int]);
                assert(node_in_ok(old(children)@[j as int]));
                assert(node_in_ok(children@[j as int]));
                lemma_children_size_member(c0, j as int);
                assert(node_size(children@[j as int]) <= children_size(c0));
            }
            let ghost pre_children = children@;
            let ghost h_pre = self.bindings_helper;
            let child = vec_index_mut(children, j);
            self.visit_mut_with(child);
            proof {
                lemma_helper_extends_trans(h0, h_pre, self.bindings_helper);
                crate::bindings::lemma_scopes_v_prefix(
                    h0.template_scopes@,
                    h_pre.template_scopes@,
                );
                assert forall|k: int| 0 <= k < j + 1 implies node_visited_ex(
                    scopes_v(h0.template_scopes@),
                    h0.setup_bindings@,
                    old(self).current_scope as int,
                    c0[k],
                    #[trigger] children@[k],
                ) by {
                    if k < j {
                        assert(children@[k] == pre_children[k]);
                    } else {
                        assert(scopes_v(h0.template_scopes@).is_prefix_of(
                            scopes_v(h_pre.template_scopes@),
                        ) && node_visited_at(
                            scopes_v(h_pre.template_scopes@),
                            h0.setup_bindings@,
                            old(self).current_scope as int,
                            c0[k],
                            children@[k],
                        ));
                    }
                }
                assert forall|k: int| 0 <= k < j + 1 implies components_covered_node(
                    #[trigger] children@[k],
                    self.bindings_helper.components@,
                ) by {
                    if k < j {
                        assert(children@[k] == pre_children[k]);
                        lemma_covered_monotone(
                            children@[k],
                            h_pre.components@,
                            self.bindings_helper.components@,
                        );
                    }
                }
                assert forall|k: int|
                    0 <= k < j + 1 implies node_out_ok(#[trigger] children@[k]) && variant_same(
                    c0[k],
                    children@[k],
                ) by {
                    if k < j {
                        assert(children@[k] == pre_children[k]);
                    } else {
                        assert(variant_same(pre_children[j as int], children@[k]));
                    }
                }
                assert(children@.skip(j as int + 1) =~= c0.skip(j as int + 1)) by {
                    assert forall|k: int|
                        0 <= k < children@.skip(j as int + 1).len() implies #[trigger] children@.skip(
                        j as int + 1,
                    )[k] == c0.skip(j as int + 1)[k] by {
                        assert(children@[j as int + 1 + k] == pre_children[j as int + 1 + k]);
                        assert(pre_children[j as int + 1 + k] == pre_children.skip(j as int)[k
                            + 1]);
                        assert(c0[j as int + 1 + k] == c0.skip(j as int)[k + 1]);
                    }
                }
            }
            j = j + 1;
        }
    }

    /// Opens the element's scope where it declares a loop or
    /// value-bearing slot directive: allocates the scope, collects its
    /// names and makes it current.
    fn enter_scope(&mut self, element_node: &ElementNode) -> (scope_to_use: usize)
        requires
            old(self).wf(),
        ensures
            final(self).wf(),
            final(self).bindings_helper.setup_bindings == old(self).bindings_helper.setup_bindings,
            final(self).bindings_helper.components == old(self).bindings_helper.components,
            final(self).current_scope == scope_to_use,
            scope_to_use < final(self).bindings_helper.template_scopes@.len(),
            scope_to_use as int == (if needs_new_scope(*element_node) {
                old(self).bindings_helper.template_scopes@.len() as int
            } else {
                old(self).current_scope as int
            }),
            scopes_v(final(self).bindings_helper.template_scopes@) == (if needs_new_scope(
                *element_node,
            ) {
                scopes_v(old(self).bindings_helper.template_scopes@).push(
                    ScopeV {
                        variables: collected_vars(*element_node),
                        parent: old(self).current_scope,
                    },
                )
            } else {
                scopes_v(old(self).bindings_helper.template_scopes@)
            }),
            old(self).bindings_helper.template_scopes@.is_prefix_of(
                final(self).bindings_helper.template_scopes@,
            ),
            needs_new_scope(*element_node) ==> final(self).bindings_helper.template_scopes@.len()
                == old(self).bindings_helper.template_scopes@.len() + 1,
    {
        let ghost scopes0 = scopes_v(self.bindings_helper.template_scopes@);
        let parent_scope = self.current_scope;
        let scoped = match &element_node.starting_tag.directives {
            Some(d) => d.v_for.is_some() || (match &d.v_slot {
                Some(vs) => vs.value.is_some(),
                None => false,
            }),
            None => false,
        };
        proof {
            assert(scoped == needs_new_scope(*element_node));
        }
        let mut scope_to_use = parent_scope;
        if scoped {
            scope_to_use = self.bindings_helper.template_scopes.len();
            let vars = collect_scope_vars(element_node);
            let new_scope = TemplateScope { variables: vars, parent: parent_scope };
            proof {
                assert(scope_v(new_scope) == (ScopeV {
                    variables: collected_vars(*element_node),
                    parent: parent_scope,
                }));
            }
            self.bindings_helper.template_scopes.push(new_scope);
            proof {
                assert(scopes_v(self.bindings_helper.template_scopes@) =~= scopes0.push(
                    scope_v(new_scope),
                ));
            }
        }
        self.current_scope = scope_to_use;
        proof {
            assert(old(self).bindings_helper.template_scopes@.is_prefix_of(
                self.bindings_helper.template_scopes@,
            )) by {
                assert(old(self).bindings_helper.template_scopes@
                    =~= self.bindings_helper.template_scopes@.subrange(
                    0,
                    old(self).bindings_helper.template_scopes@.len() as int,
                ));
            }
        }
        scope_to_use
    }

    /// Rewrites the loop directive's iterable and sets its fragment
    /// flags.
    fn process_loop_directive(&self, element_node: &mut ElementNode, scope: usize, has_key: bool)
        requires
            self.wf(),
            scope < self.bindings_helper.template_scopes@.len(),
        ensures
            final(element_node).kind == old(element_node).kind,
            final(element_node).starting_tag.tag_name == old(element_node).starting_tag.tag_name,
            final(element_node).starting_tag.attributes == old(
                element_node,
            ).starting_tag.attributes,
            final(element_node).children == old(element_node).children,
            final(element_node).template_scope == old(element_node).template_scope,
            final(element_node).patch_hints == old(element_node).patch_hints,
            crate::optimize::directives_opt_v(final(element_node).starting_tag.directives)
                == (match old(element_node).starting_tag.directives {
                Some(d) => Some(
                    (crate::optimize::DirectivesV {
                        v_for: match d.v_for {
                            Some(vf) => Some(
                                vfor_processed(
                                    scopes_v(self.bindings_helper.template_scopes@),
                                    self.bindings_helper.setup_bindings@,
                                    scope as int,
                                    has_key,
                                    vf,
                                ),
                            ),
                            None => None,
                        },
                        ..crate::optimize::directives_v(d)
                    }),
                ),
                None => None::<crate::optimize::DirectivesV>,
            }),
    {
        match &mut element_node.starting_tag.directives {
            Some(d) => {
                match &mut d.v_for {
                    Some(vf) => {
                        let is_dynamic = self.bindings_helper.transform_expr(&mut vf.iterable, scope);
                        vf.patch_flags.stable_fragment = !is_dynamic;
                        vf.patch_flags.keyed_fragment = is_dynamic && has_key;
                        vf.patch_flags.unkeyed_fragment = is_dynamic && !has_key;
                    },
                    None => {},
                }
            },
            None => {},
        }
    }

    /// Visits one element: classify, resolve, scope, rewrite every
    /// expression, accumulate patch hints, optimize the children and
    /// recurse; the scope is restored on exit.
    #[verifier::rlimit(100)]
    pub fn visit_element_node(&mut self, element_node: &mut ElementNode)
        requires
            old(self).wf(),
            subtree_in_ok(*old(element_node)),
        ensures
            final(self).wf(),
            final(self).current_scope == old(self).current_scope,
            helper_extends(old(self).bindings_helper, final(self).bindings_helper),
            element_visited(
                scopes_v(old(self).bindings_helper.template_scopes@),
                old(self).bindings_helper.setup_bindings@,
                old(self).current_scope as int,
                *old(element_node),
                *final(element_node),
            ),
            needs_new_scope(*old(element_node)) ==> {
                &&& final(self).bindings_helper.template_scopes@.len() > old(
                    self,
                ).bindings_helper.template_scopes@.len()
                &&& scope_v(
                    final(self).bindings_helper.template_scopes@[old(
                        self,
                    ).bindings_helper.template_scopes@.len() as int],
                ) == (ScopeV {
                    variables: collected_vars(*old(element_node)),
                    parent: old(self).current_scope,
                })
            },
            (recognize_spec(old(element_node).starting_tag) is Component) ==> comps_find(
                final(self).bindings_helper.components@,
                old(element_node).starting_tag.tag_name@,
            ) is Some,
            ((recognize_spec(old(element_node).starting_tag) is Component) && comps_find(
                old(self).bindings_helper.components@,
                old(element_node).starting_tag.tag_name@,
            ) is None) ==> comps_find(
                final(self).bindings_helper.components@,
                old(element_node).starting_tag.tag_name@,
            ) == Some(
                resolved_binding_spec(
                    scopes_v(old(self).bindings_helper.template_scopes@),
                    old(self).bindings_helper.setup_bindings@,
                    old(self).current_scope as int,
                    old(element_node).starting_tag.tag_name@,
                ),
            ),
            components_covered_el(*final(element_node), final(self).bindings_helper.components@),
        decreases elem_size(*element_node), 0int,
    {
        let ghost oel = *element_node;
        let ghost h0 = self.bindings_helper;
        let ghost scopes0 = scopes_v(h0.template_scopes@);
        let ghost bindings = h0.setup_bindings@;
        let parent_scope = self.current_scope;
        let ghost cs = parent_scope as int;

        // Classify, and resolve components.
        let element_kind = self.recognize_element_kind(&element_node.starting_tag);
        let is_component = matches!(element_kind, ElementKind::Component);
        element_node.kind = element_kind;
        if is_component {
            self.maybe_resolve_component(element_node.starting_tag.tag_name.as_str());
        }
        let ghost h1 = self.bindings_helper;
        proof {
            assert(helper_extends(h0, h1)) by {
                assert(h0.template_scopes@.is_prefix_of(h1.template_scopes@)) by {
                    assert(h0.template_scopes@ =~= h1.template_scopes@.subrange(
                        0,
                        h0.template_scopes@.len() as int,
                    ));
                }
                assert(h0.components@.is_prefix_of(h1.components@) || h0.components@
                    =~= h1.components@);
            }
        }

        // Allocate a scope for a loop or value-bearing slot directive
        // and collect its introduced names.
        let scope_to_use = self.enter_scope(element_node);
        element_node.template_scope = scope_to_use;
        let ghost scopes1 = scopes_v(self.bindings_helper.template_scopes@);
        let ghost su = scope_to_use as int;

        // Process the loop directive: rewrite the iterable, set the
        // fragment flags.
        let has_key = crate::classify::attrs_have_named(&element_node.starting_tag.attributes, "key");
        self.process_loop_directive(element_node, scope_to_use, has_key);

        // Walk the bindings, then the remaining directive
        // expressions.
        self.process_attributes(element_node, scope_to_use);
        let ghost hints_attrs = crate::optimize::hints_v(element_node.patch_hints);
        proof {
            assert(models_of(*element_node) == models_of(oel));
        }
        self.transform_directives(element_node, scope_to_use);
        let ghost hints_mid = crate::optimize::hints_v(element_node.patch_hints);
        proof {
            assert(hints_mid == vmodel_steps(scopes1, bindings, su, hints_attrs, models_of(oel)));
        }
        proof {
            assert(crate::optimize::directives_opt_v(element_node.starting_tag.directives)
                =~~= (match oel.starting_tag.directives {
                Some(d) => Some(directives_processed(scopes1, bindings, su, has_key, d)),
                None => None::<crate::optimize::DirectivesV>,
            })) by {
                match oel.starting_tag.directives {
                    Some(d) => {
                        assert(directives_processed(scopes1, bindings, su, has_key, d).v_model
                            =~= d.v_model@.map_values(
                            |m: VModelDirective| VModelDirective {
                                value: transform_spec(scopes1, bindings, m.value, su).0,
                                argument: m.argument,
                            },
                        ));
                    },
                    None => {},
                }
            }
        }

        // Optimize the child list, then visit each surviving child.
        crate::optimize::optimize_children(&mut element_node.children, element_kind);
        let ghost copt = element_node.children@;
        proof {
            crate::optimize::lemma_optimize_in_ok(oel.children@, element_kind);
            assert forall|j: int| 0 <= j < copt.len() implies node_in_ok(#[trigger] copt[j]) by {
                assert(nodes_f(copt)[j] == crate::optimize::node_f(copt[j]));
                crate::optimize::lemma_node_f_in_ok(copt[j]);
            }
            assert(children_size(copt) < elem_size(oel));
        }
        let ghost h2 = self.bindings_helper;
        self.visit_children(&mut element_node.children);

        // Text-only patch hint.
        let apply_text = children_text_rule(element_kind, &element_node.children);
        if apply_text {
            element_node.patch_hints.flags.text = true;
        }
        self.current_scope = parent_scope;
        proof {
            lemma_helper_extends_trans(h0, h1, h2);
            lemma_helper_extends_trans(h0, h2, self.bindings_helper);
            let fel = *element_node;
            assert(fel.patch_hints.flags == (PatchFlags {
                text: hints_mid.flags.text || text_rule(element_kind, fel.children@),
                ..hints_mid.flags
            }));
            lemma_attrs_steps_wf(
                scopes1,
                bindings,
                su,
                is_component,
                crate::optimize::hints_v(oel.patch_hints),
                oel.starting_tag.attributes@,
            );
            lemma_vmodel_steps_wf(scopes1, bindings, su, hints_attrs, models_of(oel));
            assert(flags_wf(fel.patch_hints.flags) && flags_fragment_free(
                fel.patch_hints.flags,
            ));
            assert(subtree_out_ok(fel)) by {
                assert(crate::ast::elem_hints_out_ok(fel)) by {
                    match fel.starting_tag.directives {
                        Some(fd) => {
                            match fd.v_for {
                                Some(fvf) => {
                                    assert(crate::ast::flags_one_fragment(fvf.patch_flags));
                                },
                                None => {},
                            }
                        },
                        None => {},
                    }
                }
            }
            assert forall|jj: int| 0 <= jj < fel.children@.len() implies variant_same_nf(
                optimize_spec(oel.children@, element_kind)[jj],
                #[trigger] fel.children@[jj],
            ) by {
                assert(nodes_f(copt)[jj] == crate::optimize::node_f(copt[jj]));
                assert(variant_same(copt[jj], fel.children@[jj]));
            }
            assert(element_visited(scopes0, bindings, cs, oel, fel));
            if recognize_spec(oel.starting_tag) is Component {
                assert(comps_find(h1.components@, oel.starting_tag.tag_name@) is Some);
                assert(h1.components@.is_prefix_of(self.bindings_helper.components@)) by {
                    assert(h2.components@ == h1.components@);
                }
                lemma_comps_find_prefix(
                    h1.components@,
                    self.bindings_helper.components@,
                    oel.starting_tag.tag_name@,
                );
            }
            assert(components_covered_el(fel, self.bindings_helper.components@));
        }
    }

    /// Dispatches the visit over a node's variant; text and comments
    /// are left untouched.
    pub fn visit_mut_with(&mut self, node: &mut Node)
        requires
            old(self).wf(),
            node_in_ok(*old(node)),
        ensures
            final(self).wf(),
            final(self).current_scope == old(self).current_scope,
            helper_extends(old(self).bindings_helper, final(self).bindings_helper),
            variant_same(*old(node), *final(node)),
            node_out_ok(*final(node)),
            *old(node) is Text ==> *final(node) == *old(node),
            *old(node) is Comment ==> *final(node) == *old(node),
            node_visited_at(
                scopes_v(old(self).bindings_helper.template_scopes@),
                old(self).bindings_helper.setup_bindings@,
                old(self).current_scope as int,
                *old(node),
                *final(node),
            ),
            components_covered_node(*final(node), final(self).bindings_helper.components@),
        decreases node_size(*node), 2int,
    {
        match node {
            Node::Element(el) => {
                self.visit_element_node(el);
            },
            Node::ConditionalSeq(cond) => {
                self.visit_conditional_node(cond);
            },
            Node::Interpolation(interpolation) => {
                self.visit_interpolation(interpolation);
            },
            _ => {
                proof {
                    assert(self.bindings_helper.template_scopes@.is_prefix_of(
                        self.bindings_helper.template_scopes@,
                    ));
                    assert(self.bindings_helper.components@.is_prefix_of(
                        self.bindings_helper.components@,
                    ));
                }
            },
        }
    }

    /// Visits a folded conditional sequence: the conditions are
    /// rewritten under the enclosing scope — they logically wrap the
    /// node — and each branch element is visited normally.
    #[verifier::loop_isolation(false)]
    #[verifier::rlimit(100)]
    pub fn visit_conditional_node(&mut self, conditional_node: &mut ConditionalNodeSequence)
        requires
            old(self).wf(),
            cond_in_ok(*old(conditional_node)),
        ensures
            final(self).wf(),
            final(self).current_scope == old(self).current_scope,
            helper_extends(old(self).bindings_helper, final(self).bindings_helper),
            cond_out_ok(*final(conditional_node)),
            final(conditional_node).if_node.condition == transform_spec(
                scopes_v(old(self).bindings_helper.template_scopes@),
                old(self).bindings_helper.setup_bindings@,
                old(conditional_node).if_node.condition,
                old(self).current_scope as int,
            ).0,
            element_visited(
                scopes_v(old(self).bindings_helper.template_scopes@),
                old(self).bindings_helper.setup_bindings@,
                old(self).current_scope as int,
                old(conditional_node).if_node.node,
                final(conditional_node).if_node.node,
            ),
            cond_visited(
                scopes_v(old(self).bindings_helper.template_scopes@),
                old(self).bindings_helper.setup_bindings@,
                old(self).current_scope as int,
                *old(conditional_node),
                *final(conditional_node),
            ),
            components_covered_cond(
                *final(conditional_node),
                final(self).bindings_helper.components@,
            ),
        decreases cond_size(*conditional_node), 1int,
    {
        let ghost c0 = *conditional_node;
        let ghost h0 = self.bindings_helper;
        let ghost scopes0 = scopes_v(h0.template_scopes@);
        let ghost bindings = h0.setup_bindings@;
        let ghost cs = self.current_scope as int;
        let _ = self.bindings_helper.transform_expr(
            &mut conditional_node.if_node.condition,
            self.current_scope,
        );
        self.visit_element_node(&mut conditional_node.if_node.node);
        let ghost h_if = self.bindings_helper;
        let n = conditional_node.else_if_nodes.len();
        let mut i: usize = 0;
        while i < n
            invariant
                0 <= i <= n,
                conditional_node.else_if_nodes@.len() == n,
                n == c0.else_if_nodes@.len(),
                self.wf(),
                self.current_scope as int == cs,
                cs < scopes0.len(),
                helper_extends(h0, self.bindings_helper),
                bindings == self.bindings_helper.setup_bindings@,
                conditional_node.if_node.condition == transform_spec(
                    scopes0,
                    bindings,
                    c0.if_node.condition,
                    cs,
                ).0,
                element_visited(
                    scopes0,
                    bindings,
                    cs,
                    c0.if_node.node,
                    conditional_node.if_node.node,
                ),
                conditional_node.else_node == c0.else_node,
                conditional_node.else_if_nodes@.skip(i as int) =~= c0.else_if_nodes@.skip(i as int),
                components_covered_el(
                    conditional_node.if_node.node,
                    self.bindings_helper.components@,
                ),
                forall|k: int|
                    0 <= k < i ==> {
                        &&& (#[trigger] conditional_node.else_if_nodes@[k]).condition
                            == transform_spec(
                            scopes0,
                            bindings,
                            c0.else_if_nodes@[k].condition,
                            cs,
                        ).0
                        &&& element_visited_ex(
                            scopes0,
                            bindings,
                            cs,
                            c0.else_if_nodes@[k].node,
                            conditional_node.else_if_nodes@[k].node,
                        )
                        &&& components_covered_el(
                            conditional_node.else_if_nodes@[k].node,
                            self.bindings_helper.components@,
                        )
                        &&& subtree_out_ok(conditional_node.else_if_nodes@[k].node)
                    },
            decreases n - i,
        {
            proof {
                assert(conditional_node.else_if_nodes@[i as int]
                    == conditional_node.else_if_nodes@.skip(i as int)[0]);
                assert(conditional_node.else_if_nodes@[i as int] == c0.else_if_nodes@[i as int]);
                crate::ast::lemma_cond_list_size_member(c0.else_if_nodes@, i as int);
            }
            let ghost pre_list = conditional_node.else_if_nodes@;
            let ghost h_pre = self.bindings_helper;
            let branch = vec_index_mut(&mut conditional_node.else_if_nodes, i);
            proof {
                crate::bindings::lemma_scopes_v_prefix(
                    h0.template_scopes@,
                    h_pre.template_scopes@,
                );
                lemma_transform_prefix(
                    scopes0,
                    scopes_v(h_pre.template_scopes@),
                    bindings,
                    branch.condition,
                    cs,
                );
            }
            let _ = self.bindings_helper.transform_expr(&mut branch.condition, self.current_scope);
            self.visit_element_node(&mut branch.node);
            proof {
                lemma_helper_extends_trans(h0, h_pre, self.bindings_helper);
                assert(conditional_node.else_if_nodes@.skip(i as int + 1)
                    =~= c0.else_if_nodes@.skip(i as int + 1)) by {
                    assert forall|k: int|
                        0 <= k < conditional_node.else_if_nodes@.skip(i as int + 1).len() implies
                        #[trigger] conditional_node.else_if_nodes@.skip(i as int + 1)[k]
                            == c0.else_if_nodes@.skip(i as int + 1)[k] by {
                        assert(conditional_node.else_if_nodes@[i as int + 1 + k] == pre_list[i
                            as int + 1 + k]);
                        assert(pre_list[i as int + 1 + k] == pre_list.skip(i as int)[k + 1]);
                        assert(c0.else_if_nodes@[i as int + 1 + k] == c0.else_if_nodes@.skip(
                            i as int,
                        )[k + 1]);
                    }
                }
                lemma_covered_monotone_el(
                    conditional_node.if_node.node,
                    h_pre.components@,
                    self.bindings_helper.components@,
                );
                assert forall|k: int| 0 <= k < i + 1 implies (
                #[trigger] conditional_node.else_if_nodes@[k]).condition == transform_spec(
                    scopes0,
                    bindings,
                    c0.else_if_nodes@[k].condition,
                    cs,
                ).0 && element_visited_ex(
                    scopes0,
                    bindings,
                    cs,
                    c0.else_if_nodes@[k].node,
                    conditional_node.else_if_nodes@[k].node,
                ) && components_covered_el(
                    conditional_node.else_if_nodes@[k].node,
                    self.bindings_helper.components@,
                ) && subtree_out_ok(conditional_node.else_if_nodes@[k].node) by {
                    if k < i {
                        assert(conditional_node.else_if_nodes@[k] == pre_list[k]);
                        lemma_covered_monotone_el(
                            conditional_node.else_if_nodes@[k].node,
                            h_pre.components@,
                            self.bindings_helper.components@,
                        );
                    } else {
                        assert(scopes0.is_prefix_of(scopes_v(h_pre.template_scopes@))
                            && element_visited(
                            scopes_v(h_pre.template_scopes@),
                            bindings,
                            cs,
                            c0.else_if_nodes@[k].node,
                            conditional_node.else_if_nodes@[k].node,
                        ));
                    }
                }
            }
            i = i + 1;
        }
        let ghost h_before_else = self.bindings_helper;
        let ghost list_before_else = conditional_node.else_if_nodes@;
        match &mut conditional_node.else_node {
            Some(el) => {
                proof {
                    assert(cond_size(c0) >= elem_size(*c0.else_node.unwrap()));
                }
                self.visit_element_node(el);
            },
            None => {},
        }
        proof {
            lemma_helper_extends_trans(h0, h_before_else, self.bindings_helper);
            assert(cond_out_ok(*conditional_node)) by {
                assert(subtree_out_ok(conditional_node.if_node.node));
                assert forall|k: int|
                    0 <= k < conditional_node.else_if_nodes@.len() implies subtree_out_ok(
                    #[trigger] conditional_node.else_if_nodes@[k].node,
                ) by {}
            }
            lemma_covered_monotone_el(
                conditional_node.if_node.node,
                h_before_else.components@,
                self.bindings_helper.components@,
            );
            assert forall|k: int|
                0 <= k < conditional_node.else_if_nodes@.len() implies components_covered_el(
                (#[trigger] conditional_node.else_if_nodes@[k]).node,
                self.bindings_helper.components@,
            ) by {
                lemma_covered_monotone_el(
                    conditional_node.else_if_nodes@[k].node,
                    h_before_else.components@,
                    self.bindings_helper.components@,
                );
            }
            if c0.else_node is Some {
                let ob = *c0.else_node.unwrap();
                let fb = *conditional_node.else_node.unwrap();
                assert(element_visited_ex(scopes0, bindings, cs, ob, fb)) by {
                    crate::bindings::lemma_scopes_v_prefix(
                        h0.template_scopes@,
                        h_before_else.template_scopes@,
                    );
                    assert(scopes0.is_prefix_of(scopes_v(h_before_else.template_scopes@))
                        && element_visited(
                        scopes_v(h_before_else.template_scopes@),
                        bindings,
                        cs,
                        ob,
                        fb,
                    ));
                }
            }
            assert(cond_visited(scopes0, bindings, cs, c0, *conditional_node));
            assert(components_covered_cond(
                *conditional_node,
                self.bindings_helper.components@,
            ));
        }
    }
}

/// A node view that renders as text: a text or interpolation node.
pub open spec fn nf_text_like(nf: NodeF) -> bool {
    nf is Tx || nf is In
}

/// Whether the optimized root list is wrapped into one synthetic root:
/// it has several roots and not all of them are text-like.
pub open spec fn roots_merged(t: Seq<NodeF>) -> bool {
    t.len() > 1 && !(forall|i: int| 0 <= i < t.len() ==> nf_text_like(#[trigger] t[i]))
}

/// Transforms the template: optimizes the root list, wraps several
/// non-text roots into one synthetic `template` root, and walks every
/// root with a fresh visitor rooted at scope 0.
pub fn transform_and_record_template(
    template: &mut SfcTemplateBlock,
    bindings_helper: &mut BindingsHelper,
)
    requires
        old(bindings_helper).wf(),
        forall|i: int|
            0 <= i < old(template).roots@.len() ==> node_in_ok(#[trigger] old(template).roots@[i]),
    ensures
        final(bindings_helper).wf(),
        helper_extends(*old(bindings_helper), *final(bindings_helper)),
        final(template).lang == old(template).lang,
        ({
            let t = optimize_spec(old(template).roots@, ElementKind::Element);
            &&& (!roots_merged(t) ==> final(template).roots@.len() == t.len() && (forall|i: int|
                0 <= i < t.len() ==> variant_same_nf(t[i], #[trigger] final(template).roots@[i])
                    && node_out_ok(final(template).roots@[i])))
            &&& (roots_merged(t) ==> final(template).roots@.len() == 1 && (match final(template).roots@[0] {
                Node::Element(el) => {
                    &&& el.starting_tag.tag_name@ == "template"@
                    &&& el.kind == ElementKind::Element
                    &&& subtree_out_ok(el)
                },
                _ => false,
            }))
            &&& (!roots_merged(t) ==> (exists|mid: Seq<Node>|
                #![auto]
                {
                    &&& nodes_f(mid) == t
                    &&& final(template).roots@.len() == mid.len()
                    &&& forall|i: int|
                        0 <= i < mid.len() ==> node_visited_ex(
                            scopes_v(old(bindings_helper).template_scopes@),
                            old(bindings_helper).setup_bindings@,
                            0,
                            mid[i],
                            final(template).roots@[i],
                        )
                }))
            &&& (roots_merged(t) ==> (exists|wrapper: ElementNode|
                #![auto]
                {
                    &&& wrapper.starting_tag.tag_name@ == "template"@
                    &&& wrapper.starting_tag.attributes@ == Seq::<AttributeOrBinding>::empty()
                    &&& wrapper.starting_tag.directives is None
                    &&& wrapper.patch_hints.flags == PatchFlags::empty()
                    &&& wrapper.patch_hints.props@ == Seq::<String>::empty()
                    &&& wrapper.template_scope == 0
                    &&& nodes_f(wrapper.children@) == t
                    &&& match final(template).roots@[0] {
                        Node::Element(fe) => element_visited_ex(
                            scopes_v(old(bindings_helper).template_scopes@),
                            old(bindings_helper).setup_bindings@,
                            0,
                            wrapper,
                            fe,
                        ),
                        _ => false,
                    }
                }))
            &&& forall|i: int|
                0 <= i < final(template).roots@.len() ==> components_covered_node(
                    #[trigger] final(template).roots@[i],
                    final(bindings_helper).components@,
                )
        }),
{
    let ghost roots0 = template.roots@;
    crate::optimize::optimize_children(&mut template.roots, ElementKind::Element);
    let ghost t = nodes_f(template.roots@);
    proof {
        crate::optimize::lemma_optimize_in_ok(roots0, ElementKind::Element);
        assert forall|i: int| 0 <= i < template.roots@.len() implies node_in_ok(
            #[trigger] template.roots@[i],
        ) by {
            assert(nodes_f(template.roots@)[i] == crate::optimize::node_f(template.roots@[i]));
            crate::optimize::lemma_node_f_in_ok(template.roots@[i]);
        }
    }
    let n_roots = template.roots.len();
    let mut all_text_like = true;
    let mut i: usize = 0;
    while i < n_roots
        invariant
            0 <= i <= n_roots,
            template.roots@.len() == n_roots,
            t == nodes_f(template.roots@),
            all_text_like == (forall|k: int|
                0 <= k < i ==> nf_text_like(#[trigger] t[k])),
        decreases n_roots - i,
    {
        proof {
            assert(t[i as int] == crate::optimize::node_f(template.roots@[i as int]));
        }
        match &template.roots[i] {
            Node::Text(_) => {},
            Node::Interpolation(_) => {},
            _ => {
                all_text_like = false;
            },
        }
        i = i + 1;
    }
    let merge = template.roots.len() > 1 && !all_text_like;
    proof {
        assert(merge == roots_merged(t));
    }
    let mut helper = BindingsHelper::new();
    core::mem::swap(bindings_helper, &mut helper);
    let mut template_visitor = TemplateVisitor { bindings_helper: helper, current_scope: 0 };
    if merge {
        let mut all_roots: Vec<Node> = Vec::new();
        core::mem::swap(&mut template.roots, &mut all_roots);
        let new_root_el = ElementNode {
            kind: ElementKind::Element,
            starting_tag: StartingTag {
                tag_name: "template".to_owned(),
                attributes: Vec::new(),
                directives: None,
            },
            children: all_roots,
            template_scope: 0,
            patch_hints: PatchHints::new(),
        };
        let ghost wrapper0 = new_root_el;
        proof {
            assert(subtree_in_ok(new_root_el));
            assert(nodes_f(wrapper0.children@) == t);
        }
        template.roots.push(Node::Element(new_root_el));
        let root_ref = vec_index_mut(&mut template.roots, 0);
        template_visitor.visit_mut_with(root_ref);
        proof {
            match template.roots@[0] {
                Node::Element(fe) => {
                    assert(element_visited_ex(
                        scopes_v(old(bindings_helper).template_scopes@),
                        old(bindings_helper).setup_bindings@,
                        0,
                        wrapper0,
                        fe,
                    )) by {
                        assert(scopes_v(old(bindings_helper).template_scopes@).is_prefix_of(
                            scopes_v(old(bindings_helper).template_scopes@),
                        ) && element_visited(
                            scopes_v(old(bindings_helper).template_scopes@),
                            old(bindings_helper).setup_bindings@,
                            0,
                            wrapper0,
                            fe,
                        ));
                    }
                },
                _ => {
                    assert(false);
                },
            }
            reveal_strlit("template");
            reveal_strlit("component");
            reveal_strlit("keep-alive");
            reveal_strlit("KeepAlive");
            reveal_strlit("slot");
            reveal_strlit("suspense");
            reveal_strlit("Suspense");
            reveal_strlit("teleport");
            reveal_strlit("Teleport");
            reveal_strlit("transition");
            reveal_strlit("Transition");
            reveal_strlit("transition-group");
            reveal_strlit("TransitionGroup");
            assert("template"@.len() == 8);
            assert("component"@.len() == 9);
            assert("keep-alive"@.len() == 10);
            assert("KeepAlive"@.len() == 9);
            assert("slot"@.len() == 4);
            assert("suspense"@.len() == 8);
            assert("Suspense"@.len() == 8);
            assert("teleport"@.len() == 8);
            assert("Teleport"@.len() == 8);
            assert("transition"@.len() == 10);
            assert("Transition"@.len() == 10);
            assert("transition-group"@.len() == 16);
            assert("TransitionGroup"@.len() == 15);
            assert("template"@ != "suspense"@) by {
                assert("template"@[0] == 't' && "suspense"@[0] == 's');
            }
            assert("template"@ != "Suspense"@) by {
                assert("template"@[0] == 't' && "Suspense"@[0] == 'S');
            }
            assert("template"@ != "teleport"@) by {
                assert("template"@[2] == 'm' && "teleport"@[2] == 'l');
            }
            assert("template"@ != "Teleport"@) by {
                assert("template"@[0] == 't' && "Teleport"@[0] == 'T');
            }
            assert(crate::classify::builtin_kind_spec("template"@) is None);
            assert(crate::classify::is_html_tag_spec("template"@));
        }
    } else {
        let ghost pre = template.roots@;
        template_visitor.visit_children(&mut template.roots);
        proof {
            assert forall|k: int| 0 <= k < t.len() implies variant_same_nf(
                t[k],
                #[trigger] template.roots@[k],
            ) && node_out_ok(template.roots@[k]) by {
                assert(t[k] == crate::optimize::node_f(pre[k]));
                assert(variant_same(pre[k], template.roots@[k]));
            }
            assert(nodes_f(pre) == t && template.roots@.len() == pre.len() && (forall|i: int|
                0 <= i < pre.len() ==> node_visited_ex(
                    scopes_v(old(bindings_helper).template_scopes@),
                    old(bindings_helper).setup_bindings@,
                    0,
                    pre[i],
                    template.roots@[i],
                )));
        }
    }
    *bindings_helper = template_visitor.bindings_helper;
}

/// The attribute fold touches neither the text flag nor the fragment
/// flags, and keeps the full-props exclusivity invariant.
pub proof fn lemma_attrs_steps_wf(
    scopes: Seq<ScopeV>,
    bindings: Seq<SetupBinding>,
    scope: int,
    is_component: bool,
    h: crate::optimize::HintsV,
    attrs: Seq<AttributeOrBinding>,
)
    ensures
        flags_wf(h.flags) ==> flags_wf(
            attrs_steps(scopes, bindings, scope, is_component, h, attrs).0.flags,
        ),
        (flags_wf(h.flags) && (h.flags.full_props ==> h.props.len() == 0)) ==> (attrs_steps(
            scopes,
            bindings,
            scope,
            is_component,
            h,
            attrs,
        ).0.flags.full_props ==> attrs_steps(
            scopes,
            bindings,
            scope,
            is_component,
            h,
            attrs,
        ).0.props.len() == 0),
        attrs_steps(scopes, bindings, scope, is_component, h, attrs).0.flags.stable_fragment
            == h.flags.stable_fragment,
        attrs_steps(scopes, bindings, scope, is_component, h, attrs).0.flags.keyed_fragment
            == h.flags.keyed_fragment,
        attrs_steps(scopes, bindings, scope, is_component, h, attrs).0.flags.unkeyed_fragment
            == h.flags.unkeyed_fragment,
        attrs_steps(scopes, bindings, scope, is_component, h, attrs).0.flags.text == h.flags.text,
    decreases attrs.len(),
{
    if attrs.len() > 0 {
        lemma_attrs_steps_wf(scopes, bindings, scope, is_component, h, attrs.drop_last());
    }
}

/// The two-way-binding fold touches neither the text flag nor the
/// fragment flags, and keeps the full-props invariants.
pub proof fn lemma_vmodel_steps_wf(
    scopes: Seq<ScopeV>,
    bindings: Seq<SetupBinding>,
    scope: int,
    h: crate::optimize::HintsV,
    models: Seq<VModelDirective>,
)
    ensures
        flags_wf(h.flags) ==> flags_wf(
            vmodel_steps(scopes, bindings, scope, h, models).flags,
        ),
        (flags_wf(h.flags) && (h.flags.full_props ==> h.props.len() == 0)) ==> (vmodel_steps(
            scopes,
            bindings,
            scope,
            h,
            models,
        ).flags.full_props ==> vmodel_steps(scopes, bindings, scope, h, models).props.len() == 0),
        vmodel_steps(scopes, bindings, scope, h, models).flags.stable_fragment
            == h.flags.stable_fragment,
        vmodel_steps(scopes, bindings, scope, h, models).flags.keyed_fragment
            == h.flags.keyed_fragment,
        vmodel_steps(scopes, bindings, scope, h, models).flags.unkeyed_fragment
            == h.flags.unkeyed_fragment,
        vmodel_steps(scopes, bindings, scope, h, models).flags.text == h.flags.text,
    decreases models.len(),
{
    if models.len() > 0 {
        lemma_vmodel_steps_wf(scopes, bindings, scope, h, models.drop_last());
    }
}

} // verus!
