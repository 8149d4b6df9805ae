//! The children optimizer: whitespace pruning, slot reordering and
//! conditional-chain folding over a sibling list, and the rule that
//! collapses a wrapper carrying directives into its single element
//! child.

use vstd::prelude::*;

use crate::ast::{
    lemma_children_size_concat, lemma_children_size_push, lemma_node_size_pos,
    children_size, elem_size, node_size, lemma_children_size_member, AttributeOrBinding, Conditional,
    ConditionalNodeSequence, ElementKind, ElementNode, Interpolation, Node, PatchFlags, PatchHints, StartingTag,
    VForDirective, VModelDirective, VSlotDirective, VueDirectives,
};
use crate::expr::Expr;
use crate::strutil::is_blank;

verus! {

// ---------------------------------------------------------------------
// Views. Folding builds fresh nodes, so its specification compares
// trees through views in which every constructed container is a ghost
// sequence; pieces the pass merely moves stay exec values.
// ---------------------------------------------------------------------

/// View of a directive set.
#[verifier::ext_equal]
pub struct DirectivesV {
    pub v_if: Option<Expr>,
    pub v_else_if: Option<Expr>,
    pub v_else: Option<()>,
    pub v_for: Option<VForDirective>,
    pub v_slot: Option<VSlotDirective>,
    pub v_html: Option<Expr>,
    pub v_memo: Option<Expr>,
    pub v_show: Option<Expr>,
    pub v_text: Option<Expr>,
    pub v_model: Seq<VModelDirective>,
}

pub open spec fn directives_v(d: VueDirectives) -> DirectivesV {
    DirectivesV {
        v_if: d.v_if,
        v_else_if: d.v_else_if,
        v_else: d.v_else,
        v_for: d.v_for,
        v_slot: d.v_slot,
        v_html: d.v_html,
        v_memo: d.v_memo,
        v_show: d.v_show,
        v_text: d.v_text,
        v_model: d.v_model@,
    }
}

pub open spec fn directives_opt_v(d: Option<VueDirectives>) -> Option<DirectivesV> {
    match d {
        Some(dd) => Some(directives_v(dd)),
        None => None,
    }
}

/// View of patch hints; prop names as character sequences.
#[verifier::ext_equal]
pub struct HintsV {
    pub flags: PatchFlags,
    pub props: Seq<Seq<char>>,
}

pub open spec fn hints_v(h: PatchHints) -> HintsV {
    HintsV { flags: h.flags, props: h.props@.map_values(|s: String| s@) }
}

/// View of an element node.
#[verifier::ext_equal]
pub struct ElemV {
    pub kind: ElementKind,
    pub tag_name: Seq<char>,
    pub attributes: Seq<AttributeOrBinding>,
    pub directives: Option<DirectivesV>,
    pub children: Seq<Node>,
    pub template_scope: usize,
    pub patch_hints: HintsV,
}

pub open spec fn elem_v(el: ElementNode) -> ElemV {
    ElemV {
        kind: el.kind,
        tag_name: el.starting_tag.tag_name@,
        attributes: el.starting_tag.attributes@,
        directives: directives_opt_v(el.starting_tag.directives),
        children: el.children@,
        template_scope: el.template_scope,
        patch_hints: hints_v(el.patch_hints),
    }
}

/// View of one conditional branch.
#[verifier::ext_equal]
pub struct CondV {
    pub condition: Expr,
    pub node: ElemV,
}

pub open spec fn cond_v(c: Conditional) -> CondV {
    CondV { condition: c.condition, node: elem_v(c.node) }
}

/// View of a folded conditional sequence.
#[verifier::ext_equal]
pub struct CondSeqV {
    pub if_node: CondV,
    pub else_if_nodes: Seq<CondV>,
    pub else_node: Option<ElemV>,
}

pub open spec fn cond_seq_v(c: ConditionalNodeSequence) -> CondSeqV {
    CondSeqV {
        if_node: cond_v(*c.if_node),
        else_if_nodes: c.else_if_nodes@.map_values(|x: Conditional| cond_v(x)),
        else_node: match c.else_node {
            Some(b) => Some(elem_v(*b)),
            None => None,
        },
    }
}

/// View of a node, one constructor per node variant.
#[verifier::ext_equal]
pub enum NodeF {
    El(ElemV),
    Tx(Seq<char>),
    In(Interpolation),
    Cm(Seq<char>),
    Cs(CondSeqV),
}

pub open spec fn node_f(n: Node) -> NodeF {
    match n {
        Node::Element(el) => NodeF::El(elem_v(el)),
        Node::Text(t) => NodeF::Tx(t@),
        Node::Interpolation(i) => NodeF::In(i),
        Node::Comment(c) => NodeF::Cm(c@),
        Node::ConditionalSeq(c) => NodeF::Cs(cond_seq_v(c)),
    }
}

pub open spec fn nodes_f(s: Seq<Node>) -> Seq<NodeF> {
    s.map_values(|n: Node| node_f(n))
}

// ---------------------------------------------------------------------
// The wrapper collapse rule.
// ---------------------------------------------------------------------

/// Whether the element declares a loop directive.
pub open spec fn has_v_for_el(el: ElementNode) -> bool {
    match el.starting_tag.directives {
        Some(d) => d.v_for is Some,
        None => false,
    }
}

/// A directive set holding nothing but the given loop directive.
pub open spec fn only_v_for(vf: VForDirective) -> DirectivesV {
    DirectivesV {
        v_if: None,
        v_else_if: None,
        v_else: None,
        v_for: Some(vf),
        v_slot: None,
        v_html: None,
        v_memo: None,
        v_show: None,
        v_text: None,
        v_model: Seq::empty(),
    }
}

/// The collapse rule on one freshly folded branch element: a
/// `template` wrapper with exactly one element child is replaced by
/// that child; a loop directive only the wrapper declares moves onto
/// the child; a loop directive on both leaves the wrapper untouched.
pub open spec fn collapse_v(el: ElementNode) -> ElemV {
    if el.children@.len() != 1 || el.starting_tag.tag_name@ != "template"@ {
        elem_v(el)
    } else {
        match el.children@[0] {
            Node::Element(child) => {
                if has_v_for_el(el) && has_v_for_el(child) {
                    elem_v(el)
                } else if has_v_for_el(el) {
                    match el.starting_tag.directives {
                        Some(pd) => match pd.v_for {
                            Some(vf) => ElemV {
                                directives: Some(
                                    match child.starting_tag.directives {
                                        Some(cd) => DirectivesV {
                                            v_for: Some(vf),
                                            ..directives_v(cd)
                                        },
                                        None => only_v_for(vf),
                                    },
                                ),
                                ..elem_v(child)
                            },
                            None => elem_v(el),
                        },
                        None => elem_v(el),
                    }
                } else {
                    elem_v(child)
                }
            },
            _ => elem_v(el),
        }
    }
}

/// Collapses a wrapper carrying conditional and loop directives into
/// its single element child, where the rule applies.
pub fn optimize_v_if_plus_v_for(parent: ElementNode) -> (r: ElementNode)
    ensures
        elem_v(r) == collapse_v(parent),
        elem_size(r) <= elem_size(parent),
{
    let ghost p0 = parent;
    let mut parent = parent;
    if parent.children.len() != 1 {
        return parent;
    }
    if !crate::strutil::str_eq(parent.starting_tag.tag_name.as_str(), "template") {
        return parent;
    }
    let parent_has_v_for = match &parent.starting_tag.directives {
        Some(d) => d.v_for.is_some(),
        None => false,
    };
    let child_node = match parent.children.pop() {
        Some(n) => n,
        None => unreached(),
    };
    proof {
        assert(child_node == p0.children@[0]);
        lemma_children_size_member(p0.children@, 0);
    }
    let mut child = match child_node {
        Node::Element(c) => c,
        other => {
            parent.children.push(other);
            proof {
                assert(parent.children@ =~= p0.children@);
                assert(elem_v(parent) =~~= collapse_v(p0));
            }
            return parent;
        },
    };
    let child_has_v_for = match &child.starting_tag.directives {
        Some(d) => d.v_for.is_some(),
        None => false,
    };
    if parent_has_v_for && child_has_v_for {
        parent.children.push(Node::Element(child));
        proof {
            assert(parent.children@ =~= p0.children@);
            assert(elem_v(parent) =~~= collapse_v(p0));
        }
        return parent;
    }
    if parent_has_v_for {
        let vf_opt = match &mut parent.starting_tag.directives {
            Some(pd) => pd.v_for.take(),
            None => unreached(),
        };
        let vf = match vf_opt {
            Some(v) => v,
            None => unreached(),
        };
        match &mut child.starting_tag.directives {
            Some(cd) => {
                cd.v_for = Some(vf);
            },
            None => {
                child.starting_tag.directives = Some(
                    VueDirectives {
                        v_if: None,
                        v_else_if: None,
                        v_else: None,
                        v_for: Some(vf),
                        v_slot: None,
                        v_html: None,
                        v_memo: None,
                        v_show: None,
                        v_text: None,
                        v_model: Vec::new(),
                    },
                );
            },
        }
        proof {
            assert(elem_v(child) =~~= collapse_v(p0));
        }
        return child;
    }
    proof {
        assert(elem_v(child) =~~= collapse_v(p0));
    }
    child
}

// ---------------------------------------------------------------------
// Stage 1: whitespace trimming.
// ---------------------------------------------------------------------

/// A text node whose content trims to empty.
pub open spec fn is_blank_text(n: Node) -> bool {
    match n {
        Node::Text(t) => is_blank(t@),
        _ => false,
    }
}

/// An element or comment node: the neighbors between which a blank
/// text node carries no rendered spacing.
pub open spec fn is_el_or_comment(n: Node) -> bool {
    match n {
        Node::Element(_) => true,
        Node::Comment(_) => true,
        _ => false,
    }
}

/// Whether trimming discards the node at `i`: a blank text node that
/// leads, trails, or sits strictly between two element/comment
/// neighbors. A blank text node beside an interpolation stays: it
/// affects rendered spacing.
pub open spec fn discard_at(s: Seq<Node>, i: int) -> bool {
    &&& is_blank_text(s[i])
    &&& {
        ||| i == 0
        ||| i == s.len() - 1
        ||| (is_el_or_comment(s[i - 1]) && is_el_or_comment(s[i + 1]))
    }
}

/// The kept nodes among the first `i`, in order.
pub open spec fn trim_upto(s: Seq<Node>, i: int) -> Seq<Node>
    decreases i,
{
    if i <= 0 {
        Seq::empty()
    } else {
        trim_upto(s, i - 1) + if discard_at(s, i - 1) {
            Seq::empty()
        } else {
            seq![s[i - 1]]
        }
    }
}

/// The whitespace-trimmed sibling list.
pub open spec fn trim_spec(s: Seq<Node>) -> Seq<Node> {
    trim_upto(s, s.len() as int)
}

pub fn node_is_blank_text(n: &Node) -> (r: bool)
    ensures
        r == is_blank_text(*n),
{
    match n {
        Node::Text(t) => crate::strutil::str_is_blank(t.as_str()),
        _ => false,
    }
}

pub fn node_is_el_or_comment(n: &Node) -> (r: bool)
    ensures
        r == is_el_or_comment(*n),
{
    match n {
        Node::Element(_) => true,
        Node::Comment(_) => true,
        _ => false,
    }
}

/// Removes the whitespace-only text nodes that carry no rendered
/// spacing.
pub fn trim_children(children: &mut Vec<Node>)
    ensures
        final(children)@ == trim_spec(old(children)@),
        children_size(final(children)@) <= children_size(old(children)@),
{
    let ghost orig = children@;
    let n = children.len();
    let mut mask: Vec<bool> = Vec::new();
    let mut i: usize = 0;
    while i < n
        invariant
            0 <= i <= n,
            n == orig.len(),
            children@ == orig,
            mask@.len() == i,
            forall|j: int| 0 <= j < i ==> mask@[j] == discard_at(orig, j),
        decreases n - i,
    {
        let blank = node_is_blank_text(&children[i]);
        let border = i == 0 || i + 1 == n;
        let mid = if !border {
            node_is_el_or_comment(&children[i - 1]) && node_is_el_or_comment(&children[i + 1])
        } else {
            false
        };
        mask.push(blank && (border || mid));
        i = i + 1;
    }
    let mut out: Vec<Node> = Vec::new();
    let mut i: usize = 0;
    while children.len() > 0
        invariant
            0 <= i <= n,
            n == orig.len(),
            children@ =~= orig.skip(i as int),
            mask@.len() == n,
            forall|j: int| 0 <= j < n ==> mask@[j] == discard_at(orig, j),
            out@ == trim_upto(orig, i as int),
            children_size(out@) <= children_size(orig.take(i as int)),
        decreases n - i,
    {
        let nd = children.remove(0);
        proof {
            assert(nd == orig[i as int]);
            assert(orig.skip(i as int).remove(0) =~= orig.skip(i as int + 1));
            assert(orig.take(i as int + 1) =~= orig.take(i as int).push(orig[i as int]));
            lemma_children_size_push(orig.take(i as int), orig[i as int]);
        }
        if !mask[i] {
            proof {
                lemma_children_size_push(out@, nd);
                assert(trim_upto(orig, i as int + 1) =~= out@.push(nd));
            }
            out.push(nd);
        } else {
            proof {
                assert(trim_upto(orig, i as int + 1) =~= out@);
                lemma_node_size_pos(nd);
            }
        }
        i = i + 1;
    }
    proof {
        assert(i == n);
        assert(orig.take(n as int) =~= orig);
    }
    *children = out;
}

// ---------------------------------------------------------------------
// Stage 2: slot reordering for component parents.
// ---------------------------------------------------------------------

/// Whether a node belongs to the parent component's default slot: it
/// does unless it is an element whose slot directive names a slot
/// other than the default one.
pub open spec fn is_default_slot_node(n: Node) -> bool {
    match n {
        Node::Element(el) => match el.starting_tag.directives {
            Some(d) => match d.v_slot {
                Some(vs) => match vs.slot_name {
                    Some(crate::ast::StrOrExpr::Str(s)) => s@ == "default"@,
                    Some(crate::ast::StrOrExpr::Expr(_)) => false,
                    None => true,
                },
                None => true,
            },
            None => true,
        },
        _ => true,
    }
}

/// The non-default-slot nodes among the first `i`, in order.
pub open spec fn named_upto(s: Seq<Node>, i: int) -> Seq<Node>
    decreases i,
{
    if i <= 0 {
        Seq::empty()
    } else {
        named_upto(s, i - 1) + if !is_default_slot_node(s[i - 1]) {
            seq![s[i - 1]]
        } else {
            Seq::empty()
        }
    }
}

/// The default-slot nodes among the first `i`, in order.
pub open spec fn default_upto(s: Seq<Node>, i: int) -> Seq<Node>
    decreases i,
{
    if i <= 0 {
        Seq::empty()
    } else {
        default_upto(s, i - 1) + if is_default_slot_node(s[i - 1]) {
            seq![s[i - 1]]
        } else {
            Seq::empty()
        }
    }
}

/// The stable reordering that puts non-default-slot content first.
pub open spec fn reorder_spec(s: Seq<Node>) -> Seq<Node> {
    named_upto(s, s.len() as int) + default_upto(s, s.len() as int)
}

/// Executable default-slot test.
pub fn is_from_default_slot(n: &Node) -> (r: bool)
    ensures
        r == is_default_slot_node(*n),
{
    match n {
        Node::Element(el) => match &el.starting_tag.directives {
            Some(d) => match &d.v_slot {
                Some(vs) => match &vs.slot_name {
                    Some(crate::ast::StrOrExpr::Str(s)) => crate::strutil::str_eq(
                        s.as_str(),
                        "default",
                    ),
                    Some(crate::ast::StrOrExpr::Expr(_)) => false,
                    None => true,
                },
                None => true,
            },
            None => true,
        },
        _ => true,
    }
}

/// Stable-partitions the children of a component so that named-slot
/// content precedes default-slot content.
pub fn reorder_children(children: &mut Vec<Node>)
    ensures
        final(children)@ == reorder_spec(old(children)@),
        children_size(final(children)@) <= children_size(old(children)@),
{
    let ghost orig = children@;
    let n = children.len();
    let mut named: Vec<Node> = Vec::new();
    let mut defaulted: Vec<Node> = Vec::new();
    let mut i: usize = 0;
    while children.len() > 0
        invariant
            0 <= i <= n,
            n == orig.len(),
            children@ =~= orig.skip(i as int),
            named@ == named_upto(orig, i as int),
            defaulted@ == default_upto(orig, i as int),
            children_size(named@) + children_size(defaulted@) <= children_size(
                orig.take(i as int),
            ),
        decreases n - i,
    {
        let nd = children.remove(0);
        proof {
            assert(nd == orig[i as int]);
            assert(orig.skip(i as int).remove(0) =~= orig.skip(i as int + 1));
            assert(orig.take(i as int + 1) =~= orig.take(i as int).push(orig[i as int]));
            lemma_children_size_push(orig.take(i as int), orig[i as int]);
            lemma_children_size_push(named@, nd);
            lemma_children_size_push(defaulted@, nd);
            assert(named_upto(orig, i as int + 1) == named_upto(orig, i as int) + if !is_default_slot_node(
                orig[i as int],
            ) {
                seq![orig[i as int]]
            } else {
                Seq::<Node>::empty()
            });
        }
        if is_from_default_slot(&nd) {
            proof {
                assert(default_upto(orig, i as int + 1) =~= defaulted@.push(nd));
                assert(named_upto(orig, i as int + 1) =~= named@);
            }
            defaulted.push(nd);
        } else {
            proof {
                assert(named_upto(orig, i as int + 1) =~= named@.push(nd));
                assert(default_upto(orig, i as int + 1) =~= defaulted@);
            }
            named.push(nd);
        }
        i = i + 1;
    }
    proof {
        assert(i == n);
        assert(orig.take(n as int) =~= orig);
        lemma_children_size_concat(named@, defaulted@);
    }
    let mut out = named;
    out.append(&mut defaulted);
    *children = out;
}

// ---------------------------------------------------------------------
// Stage 3: conditional-chain folding.
// ---------------------------------------------------------------------

/// The fold accumulator: the open conditional sequence, if any, and
/// the finished output so far.
#[verifier::ext_equal]
pub struct FoldSt {
    pub open_seq: Option<CondSeqV>,
    pub acc: Seq<NodeF>,
}

/// Closes the open sequence, if any, into the output.
pub open spec fn close_f(st: FoldSt) -> Seq<NodeF> {
    match st.open_seq {
        Some(c) => st.acc.push(NodeF::Cs(c)),
        None => st.acc,
    }
}

/// The element with its directive set replaced.
pub open spec fn set_directives(el: ElementNode, d: VueDirectives) -> ElementNode {
    ElementNode {
        starting_tag: StartingTag { directives: Some(d), ..el.starting_tag },
        ..el
    }
}

/// One step of the left-to-right fold over an element sibling: a
/// conditional start opens a new sequence, closing any prior one; a
/// continuation extends the open sequence or passes through unmodified
/// without one; a terminal closes the open sequence or passes through
/// unmodified; any other element closes and passes through. Branch
/// elements run through the collapse rule.
pub open spec fn fold_step_element(st: FoldSt, el: ElementNode) -> FoldSt {
    match el.starting_tag.directives {
        None => FoldSt { open_seq: None, acc: close_f(st).push(NodeF::El(elem_v(el))) },
        Some(d) => match d.v_if {
            Some(cond) => FoldSt {
                open_seq: Some(
                    CondSeqV {
                        if_node: CondV {
                            condition: cond,
                            node: collapse_v(
                                set_directives(el, VueDirectives { v_if: None, ..d }),
                            ),
                        },
                        else_if_nodes: Seq::empty(),
                        else_node: None,
                    },
                ),
                acc: close_f(st),
            },
            None => match d.v_else_if {
                Some(cond) => match st.open_seq {
                    Some(o) => FoldSt {
                        open_seq: Some(
                            CondSeqV {
                                else_if_nodes: o.else_if_nodes.push(
                                    CondV {
                                        condition: cond,
                                        node: collapse_v(
                                            set_directives(
                                                el,
                                                VueDirectives { v_else_if: None, ..d },
                                            ),
                                        ),
                                    },
                                ),
                                ..o
                            },
                        ),
                        acc: st.acc,
                    },
                    None => FoldSt { open_seq: None, acc: st.acc.push(NodeF::El(elem_v(el))) },
                },
                None => match d.v_else {
                    Some(_) => match st.open_seq {
                        Some(o) => FoldSt {
                            open_seq: None,
                            acc: st.acc.push(
                                NodeF::Cs(CondSeqV { else_node: Some(collapse_v(el)), ..o }),
                            ),
                        },
                        None => FoldSt {
                            open_seq: None,
                            acc: st.acc.push(NodeF::El(elem_v(el))),
                        },
                    },
                    None => FoldSt {
                        open_seq: None,
                        acc: close_f(st).push(NodeF::El(elem_v(el))),
                    },
                },
            },
        },
    }
}

/// One step of the fold over any sibling: a comment inside an open
/// sequence is absorbed; any other non-element closes the open
/// sequence and passes through.
pub open spec fn fold_step(st: FoldSt, n: Node) -> FoldSt {
    match n {
        Node::Element(el) => fold_step_element(st, el),
        Node::Comment(c) => {
            if st.open_seq is Some {
                st
            } else {
                FoldSt { open_seq: None, acc: st.acc.push(NodeF::Cm(c@)) }
            }
        },
        _ => FoldSt { open_seq: None, acc: close_f(st).push(node_f(n)) },
    }
}

/// The fold state after the whole sibling list.
pub open spec fn fold_state(s: Seq<Node>) -> FoldSt
    decreases s.len(),
{
    if s.len() == 0 {
        FoldSt { open_seq: None, acc: Seq::empty() }
    } else {
        fold_step(fold_state(s.drop_last()), s.last())
    }
}

/// The folded sibling list: the fold's output with the last open
/// sequence force-closed.
pub open spec fn fold_spec(s: Seq<Node>) -> Seq<NodeF> {
    close_f(fold_state(s))
}

/// View of the exec fold accumulator's open sequence.
pub open spec fn opt_cond_v(o: Option<ConditionalNodeSequence>) -> Option<CondSeqV> {
    match o {
        Some(c) => Some(cond_seq_v(c)),
        None => None,
    }
}

/// Size of the exec fold accumulator's open sequence.
pub open spec fn opt_cond_size(o: Option<ConditionalNodeSequence>) -> nat {
    match o {
        Some(c) => crate::ast::cond_size(c),
        None => 0,
    }
}

/// Folds every `v-if`/`v-else-if`/`v-else` chain of the sibling list
/// into a single conditional-sequence node.
#[verifier::rlimit(100)]
pub fn fold_children(children: &mut Vec<Node>)
    ensures
        nodes_f(final(children)@) == fold_spec(old(children)@),
        children_size(final(children)@) <= children_size(old(children)@),
{
    let ghost orig = children@;
    let n = children.len();
    let mut open_seq: Option<ConditionalNodeSequence> = None;
    let mut acc: Vec<Node> = Vec::new();
    let mut i: usize = 0;
    proof {
        assert(orig.take(0) =~= Seq::<Node>::empty());
        assert(nodes_f(acc@) =~= Seq::<NodeF>::empty());
    }
    while children.len() > 0
        invariant
            0 <= i <= n,
            n == orig.len(),
            children@ =~= orig.skip(i as int),
            opt_cond_v(open_seq) == fold_state(orig.take(i as int)).open_seq,
            nodes_f(acc@) == fold_state(orig.take(i as int)).acc,
            children_size(acc@) + opt_cond_size(open_seq) <= children_size(orig.take(i as int)),
        decreases n - i,
    {
        let nd = children.remove(0);
        proof {
            assert(nd == orig[i as int]);
            assert(orig.skip(i as int).remove(0) =~= orig.skip(i as int + 1));
            assert(orig.take(i as int + 1).drop_last() =~= orig.take(i as int));
            assert(orig.take(i as int + 1).last() == orig[i as int]);
            assert(fold_state(orig.take(i as int + 1)) == fold_step(
                fold_state(orig.take(i as int)),
                orig[i as int],
            ));
            assert(orig.take(i as int + 1) =~= orig.take(i as int).push(orig[i as int]));
            lemma_children_size_push(orig.take(i as int), orig[i as int]);
            lemma_node_size_pos(orig[i as int]);
        }
        let ghost st_pre = fold_state(orig.take(i as int));
        match nd {
            Node::Element(el) => {
                let mut el = el;
                let (has_if, has_else_if, has_else) = match &el.starting_tag.directives {
                    Some(d) => (d.v_if.is_some(), d.v_else_if.is_some(), d.v_else.is_some()),
                    None => (false, false, false),
                };
                if has_if {
                    let cond = match &mut el.starting_tag.directives {
                        Some(d) => match d.v_if.take() {
                            Some(c) => c,
                            None => unreached(),
                        },
                        None => unreached(),
                    };
                    match open_seq.take() {
                        Some(c) => {
                            proof {
                                lemma_children_size_push(acc@, Node::ConditionalSeq(c));
                            }
                            acc.push(Node::ConditionalSeq(c));
                        },
                        None => {},
                    }
                    let ghost el_stripped = el;
                    let el2 = optimize_v_if_plus_v_for(el);
                    let new_open = ConditionalNodeSequence {
                        if_node: Box::new(Conditional { condition: cond, node: el2 }),
                        else_if_nodes: Vec::new(),
                        else_node: None,
                    };
                    proof {
                        assert(elem_size(el_stripped) == node_size(orig[i as int]));
                        assert(cond_seq_v(new_open).else_if_nodes =~= Seq::<CondV>::empty());
                        assert(opt_cond_v(Some(new_open)) =~~= fold_state(
                            orig.take(i as int + 1),
                        ).open_seq);
                        assert(nodes_f(acc@) =~~= fold_state(orig.take(i as int + 1)).acc);
                    }
                    open_seq = Some(new_open);
                } else if has_else_if {
                    if open_seq.is_some() {
                        let cond = match &mut el.starting_tag.directives {
                            Some(d) => match d.v_else_if.take() {
                                Some(c) => c,
                                None => unreached(),
                            },
                            None => unreached(),
                        };
                        let ghost el_stripped = el;
                        let el2 = optimize_v_if_plus_v_for(el);
                        match &mut open_seq {
                            Some(o) => {
                                proof {
                                    crate::ast::lemma_cond_list_size_push(
                                        o.else_if_nodes@,
                                        Conditional { condition: cond, node: el2 },
                                    );
                                }
                                o.else_if_nodes.push(Conditional { condition: cond, node: el2 });
                            },
                            None => unreached(),
                        }
                        proof {
                            assert(elem_size(el_stripped) == node_size(orig[i as int]));
                            assert(opt_cond_v(open_seq) =~~= fold_state(
                                orig.take(i as int + 1),
                            ).open_seq);
                            assert(nodes_f(acc@) =~~= fold_state(orig.take(i as int + 1)).acc);
                        }
                    } else {
                        proof {
                            lemma_children_size_push(acc@, Node::Element(el));
                        }
                        acc.push(Node::Element(el));
                        proof {
                            assert(nodes_f(acc@) =~~= fold_state(orig.take(i as int + 1)).acc);
                        }
                    }
                } else if has_else {
                    if open_seq.is_some() {
                        let el2 = optimize_v_if_plus_v_for(el);
                        let mut c = match open_seq.take() {
                            Some(c) => c,
                            None => unreached(),
                        };
                        c.else_node = Some(Box::new(el2));
                        proof {
                            lemma_children_size_push(acc@, Node::ConditionalSeq(c));
                        }
                        acc.push(Node::ConditionalSeq(c));
                        proof {
                            assert(nodes_f(acc@) =~~= fold_state(orig.take(i as int + 1)).acc);
                        }
                    } else {
                        proof {
                            lemma_children_size_push(acc@, Node::Element(el));
                        }
                        acc.push(Node::Element(el));
                        proof {
                            assert(nodes_f(acc@) =~~= fold_state(orig.take(i as int + 1)).acc);
                        }
                    }
                } else {
                    match open_seq.take() {
                        Some(c) => {
                            proof {
                                lemma_children_size_push(acc@, Node::ConditionalSeq(c));
                            }
                            acc.push(Node::ConditionalSeq(c));
                        },
                        None => {},
                    }
                    proof {
                        lemma_children_size_push(acc@, Node::Element(el));
                    }
                    acc.push(Node::Element(el));
                    proof {
                        assert(nodes_f(acc@) =~~= fold_state(orig.take(i as int + 1)).acc);
                    }
                }
            },
            Node::Comment(c) => {
                if open_seq.is_some() {
                    proof {
                        assert(nodes_f(acc@) =~~= fold_state(orig.take(i as int + 1)).acc);
                    }
                } else {
                    proof {
                        lemma_children_size_push(acc@, Node::Comment(c));
                    }
                    acc.push(Node::Comment(c));
                    proof {
                        assert(nodes_f(acc@) =~~= fold_state(orig.take(i as int + 1)).acc);
                    }
                }
            },
            other => {
                match open_seq.take() {
                    Some(c) => {
                        proof {
                            lemma_children_size_push(acc@, Node::ConditionalSeq(c));
                        }
                        acc.push(Node::ConditionalSeq(c));
                    },
                    None => {},
                }
                proof {
                    lemma_children_size_push(acc@, other);
                }
                acc.push(other);
                proof {
                    assert(nodes_f(acc@) =~~= fold_state(orig.take(i as int + 1)).acc);
                }
            },
        }
        proof {
            assert(i < n);
        }
        i = i + 1;
    }
    proof {
        assert(i == n);
        assert(orig.take(n as int) =~= orig);
    }
    match open_seq.take() {
        Some(c) => {
            proof {
                lemma_children_size_push(acc@, Node::ConditionalSeq(c));
            }
            acc.push(Node::ConditionalSeq(c));
        },
        None => {},
    }
    proof {
        assert(nodes_f(acc@) =~~= fold_spec(orig));
    }
    *children = acc;
}

// ---------------------------------------------------------------------
// The three stages combined.
// ---------------------------------------------------------------------

/// What the children optimizer leaves of a sibling list under a parent
/// of the given kind: whitespace trimmed, slots reordered for
/// component parents, conditional chains folded.
pub open spec fn optimize_spec(s: Seq<Node>, kind: ElementKind) -> Seq<NodeF> {
    let t1 = trim_spec(s);
    let t2 = if kind is Component {
        reorder_spec(t1)
    } else {
        t1
    };
    fold_spec(t2)
}

/// Optimizes a sibling list in place: whitespace pruning, slot
/// reordering for component parents, conditional-chain folding.
pub fn optimize_children(children: &mut Vec<Node>, element_kind: ElementKind)
    ensures
        nodes_f(final(children)@) == optimize_spec(old(children)@, element_kind),
        children_size(final(children)@) <= children_size(old(children)@),
{
    trim_children(children);
    if matches!(element_kind, ElementKind::Component) && children.len() > 0 {
        reorder_children(children);
    } else {
        proof {
            if element_kind is Component {
                assert(children@.len() == 0);
                assert(named_upto(children@, 0) =~= Seq::<Node>::empty());
                assert(reorder_spec(children@) =~= children@);
            }
        }
    }
    fold_children(children);
}

// ---------------------------------------------------------------------
// The optimizer preserves parser-shaped hints: every node it hands the
// walker still satisfies the input hint invariant.
// ---------------------------------------------------------------------

pub open spec fn elem_v_in_ok(ev: ElemV) -> bool {
    &&& crate::ast::flags_wf(ev.patch_hints.flags)
    &&& crate::ast::flags_fragment_free(ev.patch_hints.flags)
    &&& (ev.patch_hints.flags.full_props ==> ev.patch_hints.props.len() == 0)
    &&& match ev.directives {
        Some(d) => match d.v_for {
            Some(vf) => crate::ast::flags_fragment_free(vf.patch_flags),
            None => true,
        },
        None => true,
    }
    &&& forall|i: int|
        0 <= i < ev.children.len() ==> crate::ast::node_in_ok(#[trigger] ev.children[i])
}

pub open spec fn cond_seq_v_in_ok(c: CondSeqV) -> bool {
    &&& elem_v_in_ok(c.if_node.node)
    &&& forall|i: int|
        0 <= i < c.else_if_nodes.len() ==> elem_v_in_ok(#[trigger] c.else_if_nodes[i].node)
    &&& match c.else_node {
        Some(e) => elem_v_in_ok(e),
        None => true,
    }
}

pub open spec fn node_f_in_ok(nf: NodeF) -> bool {
    match nf {
        NodeF::El(ev) => elem_v_in_ok(ev),
        NodeF::Cs(c) => cond_seq_v_in_ok(c),
        _ => true,
    }
}

pub proof fn lemma_elem_v_in_ok(el: ElementNode)
    ensures
        elem_v_in_ok(elem_v(el)) == crate::ast::subtree_in_ok(el),
{
    let ev = elem_v(el);
    if crate::ast::subtree_in_ok(el) {
        assert forall|i: int| 0 <= i < ev.children.len() implies crate::ast::node_in_ok(
            #[trigger] ev.children[i],
        ) by {
            assert(crate::ast::node_in_ok(el.children@[i]));
        }
        assert(elem_v_in_ok(ev));
    }
    if elem_v_in_ok(ev) {
        assert forall|i: int| 0 <= i < el.children@.len() implies crate::ast::node_in_ok(
            #[trigger] el.children@[i],
        ) by {
            assert(crate::ast::node_in_ok(ev.children[i]));
        }
        assert(crate::ast::subtree_in_ok(el));
    }
}

pub proof fn lemma_node_f_in_ok(n: Node)
    ensures
        node_f_in_ok(node_f(n)) == crate::ast::node_in_ok(n),
{
    match n {
        Node::Element(el) => {
            lemma_elem_v_in_ok(el);
        },
        Node::ConditionalSeq(c) => {
            lemma_elem_v_in_ok(c.if_node.node);
            assert forall|i: int| 0 <= i < c.else_if_nodes@.len() implies (elem_v_in_ok(
                cond_seq_v(c).else_if_nodes[i].node,
            ) == crate::ast::subtree_in_ok(c.else_if_nodes@[i].node)) by {
                assert(cond_seq_v(c).else_if_nodes[i] == cond_v(c.else_if_nodes@[i]));
                lemma_elem_v_in_ok(c.else_if_nodes@[i].node);
            }
            match c.else_node {
                Some(b) => {
                    lemma_elem_v_in_ok(*b);
                },
                None => {},
            }
        },
        _ => {},
    }
}

pub proof fn lemma_collapse_in_ok(el: ElementNode)
    requires
        crate::ast::subtree_in_ok(el),
    ensures
        elem_v_in_ok(collapse_v(el)),
{
    lemma_elem_v_in_ok(el);
    if el.children@.len() == 1 && el.starting_tag.tag_name@ == "template"@ {
        match el.children@[0] {
            Node::Element(child) => {
                assert(crate::ast::node_in_ok(el.children@[0]));
                assert(crate::ast::subtree_in_ok(child));
                lemma_elem_v_in_ok(child);
            },
            _ => {},
        }
    }
}

pub proof fn lemma_trim_in_ok(s: Seq<Node>, k: int)
    requires
        forall|i: int| 0 <= i < s.len() ==> crate::ast::node_in_ok(#[trigger] s[i]),
        0 <= k <= s.len(),
    ensures
        forall|j: int|
            0 <= j < trim_upto(s, k).len() ==> crate::ast::node_in_ok(#[trigger] trim_upto(s, k)[j]),
    decreases k,
{
    if k > 0 {
        lemma_trim_in_ok(s, k - 1);
        let prev = trim_upto(s, k - 1);
        assert forall|j: int| 0 <= j < trim_upto(s, k).len() implies crate::ast::node_in_ok(
            #[trigger] trim_upto(s, k)[j],
        ) by {
            if j < prev.len() {
                assert(trim_upto(s, k)[j] == prev[j]);
            } else {
                assert(trim_upto(s, k)[j] == s[k - 1]);
                assert(crate::ast::node_in_ok(s[k - 1]));
            }
        }
    }
}

pub proof fn lemma_reorder_in_ok(s: Seq<Node>, k: int)
    requires
        forall|i: int| 0 <= i < s.len() ==> crate::ast::node_in_ok(#[trigger] s[i]),
        0 <= k <= s.len(),
    ensures
        forall|j: int|
            0 <= j < named_upto(s, k).len() ==> crate::ast::node_in_ok(
                #[trigger] named_upto(s, k)[j],
            ),
        forall|j: int|
            0 <= j < default_upto(s, k).len() ==> crate::ast::node_in_ok(
                #[trigger] default_upto(s, k)[j],
            ),
    decreases k,
{
    if k > 0 {
        lemma_reorder_in_ok(s, k - 1);
        let pn = named_upto(s, k - 1);
        let pd = default_upto(s, k - 1);
        assert forall|j: int| 0 <= j < named_upto(s, k).len() implies crate::ast::node_in_ok(
            #[trigger] named_upto(s, k)[j],
        ) by {
            if j < pn.len() {
                assert(named_upto(s, k)[j] == pn[j]);
            } else {
                assert(named_upto(s, k)[j] == s[k - 1]);
                assert(crate::ast::node_in_ok(s[k - 1]));
            }
        }
        assert forall|j: int| 0 <= j < default_upto(s, k).len() implies crate::ast::node_in_ok(
            #[trigger] default_upto(s, k)[j],
        ) by {
            if j < pd.len() {
                assert(default_upto(s, k)[j] == pd[j]);
            } else {
                assert(default_upto(s, k)[j] == s[k - 1]);
                assert(crate::ast::node_in_ok(s[k - 1]));
            }
        }
    }
}

pub proof fn lemma_fold_in_ok(s: Seq<Node>)
    requires
        forall|i: int| 0 <= i < s.len() ==> crate::ast::node_in_ok(#[trigger] s[i]),
    ensures
        match fold_state(s).open_seq {
            Some(c) => cond_seq_v_in_ok(c),
            None => true,
        },
        forall|j: int|
            0 <= j < fold_state(s).acc.len() ==> node_f_in_ok(#[trigger] fold_state(s).acc[j]),
    decreases s.len(),
{
    if s.len() > 0 {
        lemma_fold_in_ok(s.drop_last());
        let st = fold_state(s.drop_last());
        let n = s.last();
        assert(crate::ast::node_in_ok(s[s.len() - 1]));
        lemma_node_f_in_ok(n);
        match n {
            Node::Element(el) => {
                assert(crate::ast::subtree_in_ok(el));
                match el.starting_tag.directives {
                    Some(d) => {
                        if d.v_if is Some {
                            let el1 = set_directives(el, VueDirectives { v_if: None, ..d });
                            assert(crate::ast::subtree_in_ok(el1));
                            lemma_collapse_in_ok(el1);
                        } else if d.v_else_if is Some && st.open_seq is Some {
                            let el1 = set_directives(el, VueDirectives { v_else_if: None, ..d });
                            assert(crate::ast::subtree_in_ok(el1));
                            lemma_collapse_in_ok(el1);
                        } else if d.v_else is Some && st.open_seq is Some {
                            lemma_collapse_in_ok(el);
                        }
                    },
                    None => {},
                }
            },
            _ => {},
        }
    }
}

pub proof fn lemma_optimize_in_ok(s: Seq<Node>, kind: ElementKind)
    requires
        forall|i: int| 0 <= i < s.len() ==> crate::ast::node_in_ok(#[trigger] s[i]),
    ensures
        forall|j: int|
            0 <= j < optimize_spec(s, kind).len() ==> node_f_in_ok(
                #[trigger] optimize_spec(s, kind)[j],
            ),
{
    let t1 = trim_spec(s);
    lemma_trim_in_ok(s, s.len() as int);
    let t2 = if kind is Component {
        reorder_spec(t1)
    } else {
        t1
    };
    if kind is Component {
        lemma_reorder_in_ok(t1, t1.len() as int);
        assert forall|i: int| 0 <= i < t2.len() implies crate::ast::node_in_ok(
            #[trigger] t2[i],
        ) by {
            if i < named_upto(t1, t1.len() as int).len() {
                assert(t2[i] == named_upto(t1, t1.len() as int)[i]);
            } else {
                assert(t2[i] == default_upto(t1, t1.len() as int)[i - named_upto(
                    t1,
                    t1.len() as int,
                ).len()]);
            }
        }
    }
    lemma_fold_in_ok(t2);
}

} // verus!
