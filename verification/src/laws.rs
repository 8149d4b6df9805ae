//! General laws of the pass, stated and proved once for all inputs:
//! how conditional chains fold, and that component resolution goes by
//! the normalized tag name alone.

use vstd::prelude::*;

use crate::ast::{Node, VueDirectives};
use crate::bindings::ScopeV;
use crate::expr::SetupBinding;
use crate::optimize::{
    close_f, collapse_v, discard_at, fold_spec, fold_state, is_blank_text, is_el_or_comment,
    node_f, nodes_f, set_directives, trim_spec, trim_upto, CondSeqV, CondV, NodeF,
};
use crate::strutil::normalize_tag;
use crate::visitor::resolved_binding_spec;

verus! {

/// Whether a node is an element carrying a conditional-start
/// directive.
pub open spec fn is_if_el(n: Node) -> bool {
    match n {
        Node::Element(el) => match el.starting_tag.directives {
            Some(d) => d.v_if is Some,
            None => false,
        },
        _ => false,
    }
}

/// Whether a node is an element carrying only a continuation
/// directive.
pub open spec fn is_else_if_el(n: Node) -> bool {
    match n {
        Node::Element(el) => match el.starting_tag.directives {
            Some(d) => d.v_if is None && d.v_else_if is Some,
            None => false,
        },
        _ => false,
    }
}

/// Whether a node is an element carrying only a terminal directive.
pub open spec fn is_else_el(n: Node) -> bool {
    match n {
        Node::Element(el) => match el.starting_tag.directives {
            Some(d) => d.v_if is None && d.v_else_if is None && d.v_else is Some,
            None => false,
        },
        _ => false,
    }
}

/// The condition of a conditional-start element.
pub open spec fn if_condition(n: Node) -> crate::expr::Expr {
    match n {
        Node::Element(el) => match el.starting_tag.directives {
            Some(d) => match d.v_if {
                Some(c) => c,
                None => arbitrary(),
            },
            None => arbitrary(),
        },
        _ => arbitrary(),
    }
}

/// The condition of a continuation element.
pub open spec fn else_if_condition(n: Node) -> crate::expr::Expr {
    match n {
        Node::Element(el) => match el.starting_tag.directives {
            Some(d) => match d.v_else_if {
                Some(c) => c,
                None => arbitrary(),
            },
            None => arbitrary(),
        },
        _ => arbitrary(),
    }
}

/// The branch a conditional-start element contributes: the element
/// with the start directive taken off, run through the collapse rule.
pub open spec fn if_branch(n: Node) -> crate::optimize::ElemV {
    match n {
        Node::Element(el) => match el.starting_tag.directives {
            Some(d) => collapse_v(set_directives(el, VueDirectives { v_if: None, ..d })),
            None => arbitrary(),
        },
        _ => arbitrary(),
    }
}

/// The branch a continuation element contributes.
pub open spec fn else_if_branch(n: Node) -> crate::optimize::ElemV {
    match n {
        Node::Element(el) => match el.starting_tag.directives {
            Some(d) => collapse_v(set_directives(el, VueDirectives { v_else_if: None, ..d })),
            None => arbitrary(),
        },
        _ => arbitrary(),
    }
}

/// The branch a terminal element contributes: the element unchanged,
/// run through the collapse rule.
pub open spec fn else_branch(n: Node) -> crate::optimize::ElemV {
    match n {
        Node::Element(el) => collapse_v(el),
        _ => arbitrary(),
    }
}

/// Whether a node carries no conditional-start directive.
pub open spec fn no_v_if(n: Node) -> bool {
    !is_if_el(n)
}

/// A sibling list without a single conditional start folds to itself:
/// in particular, a continuation or terminal element with no
/// preceding conditional start passes through as an ordinary element.
pub proof fn lemma_fold_without_if_is_identity(s: Seq<Node>)
    requires
        forall|i: int| 0 <= i < s.len() ==> no_v_if(#[trigger] s[i]),
    ensures
        fold_state(s).open_seq is None,
        fold_spec(s) == nodes_f(s),
    decreases s.len(),
{
    if s.len() == 0 {
        assert(nodes_f(s) =~= Seq::<NodeF>::empty());
    } else {
        assert(no_v_if(s[s.len() - 1]));
        lemma_fold_without_if_is_identity(s.drop_last());
        assert(nodes_f(s) =~= nodes_f(s.drop_last()).push(node_f(s.last())));
    }
}

/// A conditional start followed by continuations keeps one open
/// sequence holding every branch in source order.
proof fn lemma_fold_chain_state(s: Seq<Node>)
    requires
        s.len() >= 1,
        is_if_el(s[0]),
        forall|i: int| 1 <= i < s.len() ==> is_else_if_el(#[trigger] s[i]),
    ensures
        fold_state(s).acc == Seq::<NodeF>::empty(),
        fold_state(s).open_seq is Some,
        ({
            let o = fold_state(s).open_seq.unwrap();
            &&& o.if_node == (CondV { condition: if_condition(s[0]), node: if_branch(s[0]) })
            &&& o.else_if_nodes.len() == s.len() - 1
            &&& forall|i: int|
                1 <= i < s.len() ==> #[trigger] o.else_if_nodes[i - 1] == (CondV {
                    condition: else_if_condition(s[i]),
                    node: else_if_branch(s[i]),
                })
            &&& o.else_node is None
        }),
    decreases s.len(),
{
    if s.len() == 1 {
        assert(fold_state(s) == crate::optimize::fold_step(fold_state(s.drop_last()), s.last()));
        assert(fold_state(s.drop_last()).acc =~= Seq::<NodeF>::empty()) by {
            assert(s.drop_last().len() == 0);
        }
        assert(fold_state(s.drop_last()).open_seq is None);
        assert(close_f(fold_state(s.drop_last())) =~= Seq::<NodeF>::empty());
    } else {
        assert(s.drop_last()[0] == s[0]);
        assert(forall|i: int| 1 <= i < s.drop_last().len() ==> is_else_if_el(
            #[trigger] s.drop_last()[i],
        ));
        lemma_fold_chain_state(s.drop_last());
        assert(is_else_if_el(s[s.len() - 1]));
        let o = fold_state(s.drop_last()).open_seq.unwrap();
        let o2 = fold_state(s).open_seq.unwrap();
        assert(o2.else_if_nodes == o.else_if_nodes.push(
            CondV {
                condition: else_if_condition(s.last()),
                node: else_if_branch(s.last()),
            },
        ));
        assert forall|i: int| 1 <= i < s.len() implies #[trigger] o2.else_if_nodes[i - 1]
            == (CondV { condition: else_if_condition(s[i]), node: else_if_branch(s[i]) }) by {
            if i < s.len() - 1 {
                assert(o2.else_if_nodes[i - 1] == o.else_if_nodes[i - 1]);
                assert(s.drop_last()[i] == s[i]);
            }
        }
    }
}

/// A chain `v-if, v-else-if*` folds to exactly one conditional
/// sequence with the continuation branches in source order and no
/// terminal branch.
pub proof fn lemma_chain_folds(s: Seq<Node>)
    requires
        s.len() >= 1,
        is_if_el(s[0]),
        forall|i: int| 1 <= i < s.len() ==> is_else_if_el(#[trigger] s[i]),
    ensures
        fold_spec(s).len() == 1,
        fold_spec(s)[0] matches NodeF::Cs(o) && {
            &&& o.if_node == (CondV { condition: if_condition(s[0]), node: if_branch(s[0]) })
            &&& o.else_if_nodes.len() == s.len() - 1
            &&& forall|i: int|
                1 <= i < s.len() ==> #[trigger] o.else_if_nodes[i - 1] == (CondV {
                    condition: else_if_condition(s[i]),
                    node: else_if_branch(s[i]),
                })
            &&& o.else_node is None
        },
{
    lemma_fold_chain_state(s);
}

/// A chain `v-if, v-else-if*, v-else` folds to exactly one
/// conditional sequence whose terminal branch is present.
pub proof fn lemma_chain_with_else_folds(s: Seq<Node>, e: Node)
    requires
        s.len() >= 1,
        is_if_el(s[0]),
        forall|i: int| 1 <= i < s.len() ==> is_else_if_el(#[trigger] s[i]),
        is_else_el(e),
    ensures
        fold_spec(s.push(e)).len() == 1,
        fold_spec(s.push(e))[0] matches NodeF::Cs(o) && {
            &&& o.if_node == (CondV { condition: if_condition(s[0]), node: if_branch(s[0]) })
            &&& o.else_if_nodes.len() == s.len() - 1
            &&& forall|i: int|
                1 <= i < s.len() ==> #[trigger] o.else_if_nodes[i - 1] == (CondV {
                    condition: else_if_condition(s[i]),
                    node: else_if_branch(s[i]),
                })
            &&& o.else_node == Some(else_branch(e))
        },
{
    lemma_fold_chain_state(s);
    assert(s.push(e).drop_last() =~= s);
    assert(s.push(e).last() == e);
    assert(fold_state(s.push(e)) == crate::optimize::fold_step(fold_state(s), e));
    assert forall|i: int| 1 <= i < s.len() implies s.push(e)[i] == s[i] by {}
}

// ---------------------------------------------------------------------
// Whitespace trimming is idempotent.
// ---------------------------------------------------------------------

/// The original positions of the nodes trimming keeps among the first
/// `k`.
pub open spec fn kept_idx(s: Seq<Node>, k: int) -> Seq<int>
    decreases k,
{
    if k <= 0 {
        Seq::empty()
    } else {
        kept_idx(s, k - 1) + if discard_at(s, k - 1) {
            Seq::empty()
        } else {
            seq![k - 1]
        }
    }
}

/// What trimming removes and what it keeps: the kept positions index
/// the trimmed list in increasing order, and a position is kept
/// exactly when it is not a leading, trailing, or
/// between-element/comment whitespace-only text node — one beside an
/// interpolation, in particular, is retained.
pub proof fn lemma_kept_idx(s: Seq<Node>, k: int)
    requires
        0 <= k <= s.len(),
    ensures
        kept_idx(s, k).len() == trim_upto(s, k).len(),
        forall|j: int|
            0 <= j < kept_idx(s, k).len() ==> {
                &&& 0 <= #[trigger] kept_idx(s, k)[j] < k
                &&& trim_upto(s, k)[j] == s[kept_idx(s, k)[j]]
                &&& !discard_at(s, kept_idx(s, k)[j])
            },
        forall|j1: int, j2: int|
            0 <= j1 < j2 < kept_idx(s, k).len() ==> #[trigger] kept_idx(s, k)[j1]
                < #[trigger] kept_idx(s, k)[j2],
        forall|m: int| 0 <= m < k ==> (kept_idx(s, k).contains(m) <==> !discard_at(s, m)),
    decreases k,
{
    if k > 0 {
        lemma_kept_idx(s, k - 1);
        let prev = kept_idx(s, k - 1);
        let cur = kept_idx(s, k);
        if discard_at(s, k - 1) {
            assert(cur =~= prev);
            assert(trim_upto(s, k) =~= trim_upto(s, k - 1));
            assert forall|m: int| 0 <= m < k implies (cur.contains(m) <==> !discard_at(
                s,
                m,
            )) by {
                if m == k - 1 {
                    if cur.contains(m) {
                        let j = choose|j: int| 0 <= j < cur.len() && cur[j] == m;
                        assert(cur[j] < k - 1);
                    }
                }
            }
        } else {
            assert(cur =~= prev.push(k - 1));
            assert(trim_upto(s, k) =~= trim_upto(s, k - 1).push(s[k - 1]));
            assert forall|j: int| 0 <= j < cur.len() implies (0 <= #[trigger] cur[j] < k
                && trim_upto(s, k)[j] == s[cur[j]] && !discard_at(s, cur[j])) by {
                if j < prev.len() {
                    assert(cur[j] == prev[j]);
                    assert(trim_upto(s, k)[j] == trim_upto(s, k - 1)[j]);
                } else {
                    assert(cur[j] == k - 1);
                }
            }
            assert forall|j1: int, j2: int| 0 <= j1 < j2 < cur.len() implies #[trigger] cur[j1]
                < #[trigger] cur[j2] by {
                if j2 == cur.len() - 1 {
                    assert(cur[j1] == prev[j1]);
                    assert(prev[j1] < k - 1);
                }
            }
            assert forall|m: int| 0 <= m < k implies (cur.contains(m) <==> !discard_at(
                s,
                m,
            )) by {
                if m == k - 1 {
                    assert(cur[cur.len() - 1] == m);
                    assert(cur.contains(m));
                } else {
                    if prev.contains(m) {
                        let j = choose|j: int| 0 <= j < prev.len() && prev[j] == m;
                        assert(cur[j] == m);
                        assert(cur.contains(m));
                    }
                    if cur.contains(m) {
                        let j = choose|j: int| 0 <= j < cur.len() && cur[j] == m;
                        assert(j < prev.len());
                        assert(prev[j] == m);
                        assert(prev.contains(m));
                    }
                }
            }
        }
    }
}

/// A list from which trimming discards nothing is its own trimmed form.
proof fn lemma_trim_fixed(t: Seq<Node>, k: int)
    requires
        0 <= k <= t.len(),
        forall|p: int| 0 <= p < t.len() ==> !discard_at(t, p),
    ensures
        trim_upto(t, k) == t.take(k),
    decreases k,
{
    if k > 0 {
        lemma_trim_fixed(t, k - 1);
        assert(trim_upto(t, k) =~= t.take(k - 1).push(t[k - 1]));
        assert(t.take(k) =~= t.take(k - 1).push(t[k - 1]));
    }
}

/// No two neighboring whitespace-only text nodes; parsers merge
/// adjacent text, so sibling lists have this shape.
pub open spec fn no_adjacent_blank_texts(s: Seq<Node>) -> bool {
    forall|i: int|
        0 <= i < s.len() - 1 ==> !(is_blank_text(#[trigger] s[i]) && is_blank_text(s[i + 1]))
}

/// Whitespace trimming is idempotent: re-running it on an
/// already-trimmed sibling list changes nothing. Two neighboring
/// whitespace-only text nodes are excluded: there the first pass can
/// expose a new leading blank.
pub proof fn lemma_trim_idempotent(s: Seq<Node>)
    requires
        no_adjacent_blank_texts(s),
    ensures
        trim_spec(trim_spec(s)) == trim_spec(s),
{
    let n = s.len() as int;
    let t = trim_spec(s);
    let idx = kept_idx(s, n);
    lemma_kept_idx(s, n);
    assert forall|p: int| 0 <= p < t.len() implies !discard_at(t, p) by {
        if discard_at(t, p) {
            let i = idx[p];
            assert(t[p] == s[i]);
            assert(is_blank_text(s[i]));
            assert(!discard_at(s, i));
            assert(i != 0 && i != n - 1);
            if p == 0 {
                assert(!idx.contains(i - 1)) by {
                    if idx.contains(i - 1) {
                        let j = choose|j: int| 0 <= j < idx.len() && idx[j] == i - 1;
                        if j > 0 {
                            assert(idx[0] < idx[j]);
                        }
                    }
                }
                assert(discard_at(s, i - 1));
                assert(is_blank_text(s[i - 1]));
                assert(false);
            } else if p == t.len() - 1 {
                assert(!idx.contains(i + 1)) by {
                    if idx.contains(i + 1) {
                        let j = choose|j: int| 0 <= j < idx.len() && idx[j] == i + 1;
                        if j < p {
                            assert(idx[j] < idx[p]);
                        }
                    }
                }
                assert(discard_at(s, i + 1));
                assert(is_blank_text(s[i + 1]));
                assert(false);
            } else {
                let q = idx[p - 1];
                let r = idx[p + 1];
                assert(q < i && i < r);
                if q == i - 1 && r == i + 1 {
                    assert(is_el_or_comment(s[i - 1]) && is_el_or_comment(s[i + 1]));
                    assert(discard_at(s, i));
                    assert(false);
                } else if q < i - 1 {
                    assert(!idx.contains(i - 1)) by {
                        if idx.contains(i - 1) {
                            let j = choose|j: int| 0 <= j < idx.len() && idx[j] == i - 1;
                            if j <= p - 1 {
                                if j < p - 1 {
                                    assert(idx[j] < idx[p - 1]);
                                }
                            } else {
                                assert(idx[p] <= idx[j]);
                            }
                        }
                    }
                    assert(discard_at(s, i - 1));
                    assert(is_blank_text(s[i - 1]));
                    assert(false);
                } else {
                    assert(r > i + 1);
                    assert(!idx.contains(i + 1)) by {
                        if idx.contains(i + 1) {
                            let j = choose|j: int| 0 <= j < idx.len() && idx[j] == i + 1;
                            if j <= p {
                                assert(idx[j] <= idx[p]);
                            } else {
                                if j > p + 1 {
                                    assert(idx[p + 1] < idx[j]);
                                }
                            }
                        }
                    }
                    assert(discard_at(s, i + 1));
                    assert(is_blank_text(s[i + 1]));
                    assert(false);
                }
            }
        }
    }
    lemma_trim_fixed(t, t.len() as int);
    assert(t.take(t.len() as int) =~= t);
}

// ---------------------------------------------------------------------
// Text nodes survive the whole optimizer: trimming decides their fate,
// reordering and folding never drop or reorder them.
// ---------------------------------------------------------------------

/// The text contents of a sibling list, in order.
pub open spec fn texts_of(s: Seq<Node>) -> Seq<Seq<char>>
    decreases s.len(),
{
    if s.len() == 0 {
        Seq::empty()
    } else {
        texts_of(s.drop_last()) + (match s.last() {
            Node::Text(t) => seq![t@],
            _ => Seq::<Seq<char>>::empty(),
        })
    }
}

/// The text contents of a sibling-list view, in order.
pub open spec fn texts_of_f(s: Seq<NodeF>) -> Seq<Seq<char>>
    decreases s.len(),
{
    if s.len() == 0 {
        Seq::empty()
    } else {
        texts_of_f(s.drop_last()) + (match s.last() {
            NodeF::Tx(t) => seq![t],
            _ => Seq::<Seq<char>>::empty(),
        })
    }
}

proof fn lemma_texts_push(a: Seq<Node>, x: Node)
    ensures
        texts_of(a.push(x)) == texts_of(a) + (match x {
            Node::Text(t) => seq![t@],
            _ => Seq::<Seq<char>>::empty(),
        }),
{
    assert(a.push(x).drop_last() =~= a);
}

proof fn lemma_texts_f_push(a: Seq<NodeF>, x: NodeF)
    ensures
        texts_of_f(a.push(x)) == texts_of_f(a) + (match x {
            NodeF::Tx(t) => seq![t],
            _ => Seq::<Seq<char>>::empty(),
        }),
{
    assert(a.push(x).drop_last() =~= a);
}

/// Pushing anything but a text node adds no text.
proof fn lemma_texts_f_push_nontext(a: Seq<NodeF>, x: NodeF)
    requires
        !(x is Tx),
    ensures
        texts_of_f(a.push(x)) == texts_of_f(a),
{
    lemma_texts_f_push(a, x);
    assert(texts_of_f(a) + Seq::<Seq<char>>::empty() =~= texts_of_f(a));
}

/// Closing an open sequence adds no text node.
proof fn lemma_texts_f_close(st: crate::optimize::FoldSt)
    ensures
        texts_of_f(close_f(st)) == texts_of_f(st.acc),
{
    match st.open_seq {
        Some(c) => {
            lemma_texts_f_push_nontext(st.acc, NodeF::Cs(c));
        },
        None => {},
    }
}

/// Folding never drops or reorders a text node.
pub proof fn lemma_fold_preserves_texts(s: Seq<Node>)
    ensures
        texts_of_f(fold_spec(s)) == texts_of(s),
    decreases s.len(),
{
    if s.len() == 0 {
        lemma_texts_f_close(fold_state(s));
    } else {
        lemma_fold_preserves_texts(s.drop_last());
        let st = fold_state(s.drop_last());
        lemma_texts_f_close(st);
        let st2 = fold_state(s);
        let n = s.last();
        lemma_texts_f_close(st2);
        lemma_texts_push(s.drop_last(), n);
        assert(s.drop_last().push(n) =~= s);
        match n {
            Node::Element(el) => {
                match el.starting_tag.directives {
                    None => {
                        lemma_texts_f_push_nontext(close_f(st), node_f(n));
                    },
                    Some(d) => {
                        if d.v_if is Some {
                        } else if d.v_else_if is Some {
                            if st.open_seq is Some {
                            } else {
                                lemma_texts_f_push_nontext(st.acc, node_f(n));
                            }
                        } else if d.v_else is Some {
                            match st.open_seq {
                                Some(o) => {
                                    lemma_texts_f_push_nontext(
                                        st.acc,
                                        NodeF::Cs(
                                            CondSeqV { else_node: Some(collapse_v(el)), ..o },
                                        ),
                                    );
                                },
                                None => {
                                    lemma_texts_f_push_nontext(st.acc, node_f(n));
                                },
                            }
                        } else {
                            lemma_texts_f_push_nontext(close_f(st), node_f(n));
                        }
                    },
                }
                assert(texts_of(s) =~= texts_of(s.drop_last()));
            },
            Node::Comment(c) => {
                if st.open_seq is Some {
                } else {
                    lemma_texts_f_push_nontext(st.acc, node_f(n));
                }
                assert(texts_of(s) =~= texts_of(s.drop_last()));
            },
            Node::Text(t) => {
                lemma_texts_f_close(st);
                lemma_texts_f_push(close_f(st), node_f(n));
            },
            _ => {
                lemma_texts_f_push_nontext(close_f(st), node_f(n));
                assert(texts_of(s) =~= texts_of(s.drop_last()));
            },
        }
        assert(texts_of_f(close_f(st2)) =~= texts_of(s));
    }
}

/// The named-slot part of the reorder holds no text node, and the
/// default part holds them all, in order.
proof fn lemma_reorder_parts_texts(s: Seq<Node>, k: int)
    requires
        0 <= k <= s.len(),
    ensures
        texts_of(crate::optimize::named_upto(s, k)) == Seq::<Seq<char>>::empty(),
        texts_of(crate::optimize::default_upto(s, k)) == texts_of(s.take(k)),
    decreases k,
{
    if k > 0 {
        lemma_reorder_parts_texts(s, k - 1);
        assert(s.take(k).drop_last() =~= s.take(k - 1));
        assert(s.take(k).last() == s[k - 1]);
        if crate::optimize::is_default_slot_node(s[k - 1]) {
            assert(crate::optimize::named_upto(s, k) =~= crate::optimize::named_upto(s, k - 1));
            lemma_texts_push(crate::optimize::default_upto(s, k - 1), s[k - 1]);
            assert(crate::optimize::default_upto(s, k) =~= crate::optimize::default_upto(
                s,
                k - 1,
            ).push(s[k - 1]));
        } else {
            assert(crate::optimize::default_upto(s, k) =~= crate::optimize::default_upto(s, k - 1));
            lemma_texts_push(crate::optimize::named_upto(s, k - 1), s[k - 1]);
            assert(crate::optimize::named_upto(s, k) =~= crate::optimize::named_upto(s, k - 1).push(
                s[k - 1],
            ));
            assert(!(s[k - 1] is Text));
        }
    } else {
        assert(s.take(0) =~= Seq::<Node>::empty());
    }
}

/// Concatenation concatenates the text lists.
proof fn lemma_texts_concat(a: Seq<Node>, b: Seq<Node>)
    ensures
        texts_of(a + b) == texts_of(a) + texts_of(b),
    decreases b.len(),
{
    if b.len() == 0 {
        assert(a + b =~= a);
        assert(texts_of(a) + texts_of(b) =~= texts_of(a));
    } else {
        lemma_texts_concat(a, b.drop_last());
        assert((a + b).drop_last() =~= a + b.drop_last());
        assert((a + b).last() == b.last());
        assert(texts_of(a) + texts_of(b.drop_last()) + (match b.last() {
            Node::Text(t) => seq![t@],
            _ => Seq::<Seq<char>>::empty(),
        }) =~= texts_of(a) + texts_of(b));
    }
}

/// Slot reordering never drops or reorders a text node.
pub proof fn lemma_reorder_preserves_texts(s: Seq<Node>)
    ensures
        texts_of(crate::optimize::reorder_spec(s)) == texts_of(s),
{
    lemma_reorder_parts_texts(s, s.len() as int);
    lemma_texts_concat(
        crate::optimize::named_upto(s, s.len() as int),
        crate::optimize::default_upto(s, s.len() as int),
    );
    assert(s.take(s.len() as int) =~= s);
    assert(texts_of(crate::optimize::named_upto(s, s.len() as int)) + texts_of(s) =~= texts_of(s));
}

/// The whole optimizer keeps exactly the text nodes trimming keeps,
/// in their original relative order; trimming itself (`discard_at`,
/// `lemma_kept_idx`) never removes a text node with non-whitespace
/// content, so those all survive end to end.
pub proof fn lemma_optimize_preserves_texts(s: Seq<Node>, kind: crate::ast::ElementKind)
    ensures
        texts_of_f(crate::optimize::optimize_spec(s, kind)) == texts_of(trim_spec(s)),
        forall|i: int|
            0 <= i < s.len() && s[i] is Text && !is_blank_text(#[trigger] s[i]) ==> !discard_at(
                s,
                i,
            ),
{
    let t1 = trim_spec(s);
    if kind is Component {
        lemma_reorder_preserves_texts(t1);
        lemma_fold_preserves_texts(crate::optimize::reorder_spec(t1));
    } else {
        lemma_fold_preserves_texts(t1);
    }
}

/// Two tag names with the same normalized form resolve to the same
/// component binding: resolution goes by the normalized name alone.
pub proof fn lemma_resolution_by_normalized_name(
    scopes: Seq<ScopeV>,
    bindings: Seq<SetupBinding>,
    scope: int,
    a: Seq<char>,
    b: Seq<char>,
)
    requires
        normalize_tag(a) == normalize_tag(b),
    ensures
        resolved_binding_spec(scopes, bindings, scope, a) == resolved_binding_spec(
            scopes,
            bindings,
            scope,
            b,
        ),
{
}

} // verus!
