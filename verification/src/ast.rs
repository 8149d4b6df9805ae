//! The template node tree: nodes, elements, attributes, directives and
//! patch hints, together with the size measures and well-formedness
//! predicates the pass is specified over.

use vstd::prelude::*;

use crate::expr::Expr;

verus! {

/// Patch hints of one element: a set of flags naming which runtime
/// aspects of the element can change.
#[derive(Clone, Copy, Debug, PartialEq, Eq, Structural)]
pub struct PatchFlags {
    /// Only the text content can change.
    pub text: bool,
    /// The `class` binding can change.
    pub class: bool,
    /// The `style` binding can change.
    pub style: bool,
    /// Some named props can change.
    pub props: bool,
    /// A dynamically named binding is present: all props must be
    /// diffed. Exclusive with `class`, `style` and `props`.
    pub full_props: bool,
    /// Loop fragment whose length and identity never change.
    pub stable_fragment: bool,
    /// Loop fragment whose entries carry a stable key.
    pub keyed_fragment: bool,
    /// Loop fragment without keys.
    pub unkeyed_fragment: bool,
}

impl PatchFlags {
    pub fn new() -> (r: PatchFlags)
        ensures
            r == PatchFlags::empty(),
    {
        PatchFlags {
            text: false,
            class: false,
            style: false,
            props: false,
            full_props: false,
            stable_fragment: false,
            keyed_fragment: false,
            unkeyed_fragment: false,
        }
    }

    /// The flag set with nothing set.
    pub open spec fn empty() -> PatchFlags {
        PatchFlags {
            text: false,
            class: false,
            style: false,
            props: false,
            full_props: false,
            stable_fragment: false,
            keyed_fragment: false,
            unkeyed_fragment: false,
        }
    }

    /// The canonical bitmask encoding of the flag set, for the code
    /// generator: text 1, class 2, style 4, props 8, full props 16,
    /// stable fragment 64, keyed fragment 128, unkeyed fragment 256.
    pub open spec fn bits_spec(self) -> u32 {
        ((if self.text {
            1u32
        } else {
            0u32
        }) + (if self.class {
            2u32
        } else {
            0u32
        }) + (if self.style {
            4u32
        } else {
            0u32
        }) + (if self.props {
            8u32
        } else {
            0u32
        }) + (if self.full_props {
            16u32
        } else {
            0u32
        }) + (if self.stable_fragment {
            64u32
        } else {
            0u32
        }) + (if self.keyed_fragment {
            128u32
        } else {
            0u32
        }) + (if self.unkeyed_fragment {
            256u32
        } else {
            0u32
        })) as u32
    }

    pub fn bits(&self) -> (r: u32)
        ensures
            r == self.bits_spec(),
    {
        let mut r: u32 = 0;
        if self.text {
            r = r + 1;
        }
        if self.class {
            r = r + 2;
        }
        if self.style {
            r = r + 4;
        }
        if self.props {
            r = r + 8;
        }
        if self.full_props {
            r = r + 16;
        }
        if self.stable_fragment {
            r = r + 64;
        }
        if self.keyed_fragment {
            r = r + 128;
        }
        if self.unkeyed_fragment {
            r = r + 256;
        }
        r
    }
}

impl Default for PatchFlags {
    fn default() -> (r: PatchFlags)
        ensures
            r == PatchFlags::empty(),
    {
        PatchFlags::new()
    }
}

/// Flag invariant: a dynamically named binding subsumes the finer
/// prop hints, so `full_props` excludes `class`, `style` and `props`.
pub open spec fn flags_wf(f: PatchFlags) -> bool {
    f.full_props ==> !f.class && !f.style && !f.props
}

/// No fragment flag is set; holds of every element hint set (fragment
/// flags live on the loop directive) and of a loop directive fresh
/// from the parser.
pub open spec fn flags_fragment_free(f: PatchFlags) -> bool {
    !f.stable_fragment && !f.keyed_fragment && !f.unkeyed_fragment
}

/// Exactly one of the three fragment flags is set, as on a processed
/// loop directive.
pub open spec fn flags_one_fragment(f: PatchFlags) -> bool {
    ||| (f.stable_fragment && !f.keyed_fragment && !f.unkeyed_fragment)
    ||| (!f.stable_fragment && f.keyed_fragment && !f.unkeyed_fragment)
    ||| (!f.stable_fragment && !f.keyed_fragment && f.unkeyed_fragment)
}

/// The patch hints of one element: flags plus the ordered list of
/// dynamic prop names.
#[derive(Clone, Debug, PartialEq)]
pub struct PatchHints {
    pub flags: PatchFlags,
    pub props: Vec<String>,
}

impl PatchHints {
    pub fn new() -> (r: PatchHints)
        ensures
            r.flags == PatchFlags::empty(),
            r.props@ =~= Seq::<String>::empty(),
    {
        PatchHints { flags: PatchFlags::new(), props: Vec::new() }
    }
}

impl Default for PatchHints {
    fn default() -> (r: PatchHints)
        ensures
            r.flags == PatchFlags::empty(),
            r.props@ =~= Seq::<String>::empty(),
    {
        PatchHints::new()
    }
}

/// A static string or an embedded expression, as in a binding argument
/// or a slot name.
#[derive(Clone, Debug, PartialEq)]
pub enum StrOrExpr {
    Str(String),
    Expr(Expr),
}

/// A `v-bind`-style binding: `:argument="value"`, or a dynamically
/// named `:[argument]="value"` when the argument is not a static
/// string.
#[derive(Clone, Debug, PartialEq)]
pub struct VBindDirective {
    /// `None` or a non-string argument means the bound name itself is
    /// dynamic.
    pub argument: Option<StrOrExpr>,
    pub value: Expr,
}

/// An event listener binding: `@event="handler"`.
#[derive(Clone, Debug, PartialEq)]
pub struct VOnDirective {
    pub event: Option<StrOrExpr>,
    pub handler: Option<Expr>,
}

/// One entry of an element's attribute list.
#[derive(Clone, Debug, PartialEq)]
pub enum AttributeOrBinding {
    /// A plain static attribute.
    RegularAttribute { name: String, value: String },
    VBind(VBindDirective),
    VOn(VOnDirective),
}

/// A loop directive: `v-for="itervars in iterable"`.
#[derive(Clone, Debug, PartialEq)]
pub struct VForDirective {
    /// The iterated expression.
    pub iterable: Expr,
    /// The names the iteration variable pattern introduces.
    pub itervars: Vec<String>,
    /// Fragment patch flags of the loop, set by the pass.
    pub patch_flags: PatchFlags,
}

/// A slot directive: `v-slot:name="value"`.
#[derive(Clone, Debug, PartialEq)]
pub struct VSlotDirective {
    /// The targeted slot name; `None` is the default slot.
    pub slot_name: Option<StrOrExpr>,
    /// The names the slot value pattern introduces, if the directive
    /// carries a value.
    pub value: Option<Vec<String>>,
}

/// A two-way binding directive: `v-model="value"`.
#[derive(Clone, Debug, PartialEq)]
pub struct VModelDirective {
    pub argument: Option<StrOrExpr>,
    pub value: Expr,
}

/// The directives an element can carry.
#[derive(Clone, Debug, PartialEq)]
pub struct VueDirectives {
    pub v_if: Option<Expr>,
    pub v_else_if: Option<Expr>,
    pub v_else: Option<()>,
    pub v_for: Option<VForDirective>,
    pub v_slot: Option<VSlotDirective>,
    pub v_html: Option<Expr>,
    pub v_memo: Option<Expr>,
    pub v_show: Option<Expr>,
    pub v_text: Option<Expr>,
    pub v_model: Vec<VModelDirective>,
}

/// Directive set with nothing on it.
pub open spec fn directives_empty(d: VueDirectives) -> bool {
    &&& d.v_if is None
    &&& d.v_else_if is None
    &&& d.v_else is None
    &&& d.v_for is None
    &&& d.v_slot is None
    &&& d.v_html is None
    &&& d.v_memo is None
    &&& d.v_show is None
    &&& d.v_text is None
    &&& d.v_model@ =~= Seq::<VModelDirective>::empty()
}

impl VueDirectives {
    pub fn new() -> (r: VueDirectives)
        ensures
            directives_empty(r),
    {
        VueDirectives {
            v_if: None,
            v_else_if: None,
            v_else: None,
            v_for: None,
            v_slot: None,
            v_html: None,
            v_memo: None,
            v_show: None,
            v_text: None,
            v_model: Vec::new(),
        }
    }
}

impl Default for VueDirectives {
    fn default() -> (r: VueDirectives)
        ensures
            directives_empty(r),
    {
        VueDirectives::new()
    }
}

/// The opening tag of an element: name, attributes and directives.
#[derive(Clone, Debug, PartialEq)]
pub struct StartingTag {
    pub tag_name: String,
    pub attributes: Vec<AttributeOrBinding>,
    pub directives: Option<VueDirectives>,
}

/// The built-in components of the target framework.
#[derive(Clone, Copy, Debug, PartialEq, Eq, Structural)]
pub enum BuiltinType {
    /// The generic dynamic component tag.
    Component,
    KeepAlive,
    Slot,
    Suspense,
    Teleport,
    Transition,
    TransitionGroup,
}

/// What an element's tag resolved to.
#[derive(Clone, Copy, Debug, PartialEq, Eq, Structural)]
pub enum ElementKind {
    /// A plain element of the recognized HTML vocabulary.
    Element,
    /// A user component.
    Component,
    /// A built-in component.
    Builtin(BuiltinType),
}

/// An element node: tag, children, resolved kind, scope and hints.
pub struct ElementNode {
    pub kind: ElementKind,
    pub starting_tag: StartingTag,
    pub children: Vec<Node>,
    pub template_scope: usize,
    pub patch_hints: PatchHints,
}

/// A `{{ expression }}` node.
#[derive(Clone, Debug, PartialEq)]
pub struct Interpolation {
    pub value: Expr,
    pub template_scope: usize,
    /// Whether the expression touched a reactive binding; set by the
    /// pass.
    pub patch_flag: bool,
}

/// One branch of a conditional sequence: its condition and element.
pub struct Conditional {
    pub condition: Expr,
    pub node: ElementNode,
}

/// A folded conditional chain: the opening branch, the ordered
/// continuation branches and the optional terminal branch. Never
/// materialized with only an else branch.
pub struct ConditionalNodeSequence {
    pub if_node: Box<Conditional>,
    pub else_if_nodes: Vec<Conditional>,
    pub else_node: Option<Box<ElementNode>>,
}

/// A node of the template tree.
pub enum Node {
    Element(ElementNode),
    Text(String),
    Interpolation(Interpolation),
    Comment(String),
    ConditionalSeq(ConditionalNodeSequence),
}

/// The template block handed in by the parser: its language and root
/// node list.
pub struct SfcTemplateBlock {
    pub lang: String,
    pub roots: Vec<Node>,
}

// ---------------------------------------------------------------------
// Size measures: the termination measure of the tree walk. Text,
// comment and interpolation nodes weigh 1; an element weighs 2 plus its
// children, so that folding elements into a conditional sequence (which
// weighs only its branches) never increases the weight of a sibling
// list.
// ---------------------------------------------------------------------

pub open spec fn node_size(n: Node) -> nat
    decreases n,
{
    match n {
        Node::Element(el) => elem_size(el),
        Node::ConditionalSeq(c) => cond_size(c),
        _ => 1,
    }
}

pub open spec fn elem_size(el: ElementNode) -> nat
    decreases el,
{
    2 + children_size(el.children@)
}

pub open spec fn children_size(s: Seq<Node>) -> nat
    decreases s,
{
    if s.len() == 0 {
        0
    } else {
        node_size(s[0]) + children_size(s.drop_first())
    }
}

pub open spec fn cond_size(c: ConditionalNodeSequence) -> nat
    decreases c,
{
    elem_size(c.if_node.node) + cond_list_size(c.else_if_nodes@) + (match c.else_node {
        Some(el) => elem_size(*el),
        None => 0,
    })
}

pub open spec fn cond_list_size(s: Seq<Conditional>) -> nat
    decreases s,
{
    if s.len() == 0 {
        0
    } else {
        elem_size(s[0].node) + cond_list_size(s.drop_first())
    }
}

/// Every node weighs at least 1.
pub proof fn lemma_node_size_pos(n: Node)
    ensures
        node_size(n) >= 1,
{
}

/// A member of a sibling list weighs no more than the whole list.
pub proof fn lemma_children_size_member(s: Seq<Node>, i: int)
    requires
        0 <= i < s.len(),
    ensures
        node_size(s[i]) <= children_size(s),
    decreases s.len(),
{
    if i > 0 {
        lemma_children_size_member(s.drop_first(), i - 1);
        assert(s.drop_first()[i - 1] == s[i]);
    }
}

/// Concatenation adds the sizes.
pub proof fn lemma_children_size_concat(a: Seq<Node>, b: Seq<Node>)
    ensures
        children_size(a + b) == children_size(a) + children_size(b),
    decreases a.len(),
{
    if a.len() == 0 {
        assert(a + b =~= b);
    } else {
        assert((a + b).drop_first() =~= a.drop_first() + b);
        lemma_children_size_concat(a.drop_first(), b);
    }
}

/// Appending one node adds its size.
pub proof fn lemma_children_size_push(s: Seq<Node>, n: Node)
    ensures
        children_size(s.push(n)) == children_size(s) + node_size(n),
    decreases s.len(),
{
    if s.len() == 0 {
        assert(s.push(n).drop_first() =~= s);
    } else {
        assert(s.push(n).drop_first() =~= s.drop_first().push(n));
        lemma_children_size_push(s.drop_first(), n);
    }
}

/// Appending one conditional branch adds its element's size.
pub proof fn lemma_cond_list_size_push(s: Seq<Conditional>, c: Conditional)
    ensures
        cond_list_size(s.push(c)) == cond_list_size(s) + elem_size(c.node),
    decreases s.len(),
{
    if s.len() == 0 {
        assert(s.push(c).drop_first() =~= s);
    } else {
        assert(s.push(c).drop_first() =~= s.drop_first().push(c));
        lemma_cond_list_size_push(s.drop_first(), c);
    }
}

/// A branch of a conditional list weighs no more than the whole list.
pub proof fn lemma_cond_list_size_member(s: Seq<Conditional>, i: int)
    requires
        0 <= i < s.len(),
    ensures
        elem_size(s[i].node) <= cond_list_size(s),
    decreases s.len(),
{
    if i > 0 {
        lemma_cond_list_size_member(s.drop_first(), i - 1);
        assert(s.drop_first()[i - 1] == s[i]);
    }
}

// ---------------------------------------------------------------------
// Well-formedness of patch hints over a whole subtree.
// ---------------------------------------------------------------------

/// Hints as the parser hands them in: the exclusivity invariant holds
/// and no fragment flag is set anywhere, on element hints or on a loop
/// directive.
pub open spec fn elem_hints_in_ok(el: ElementNode) -> bool {
    &&& flags_wf(el.patch_hints.flags)
    &&& flags_fragment_free(el.patch_hints.flags)
    &&& (el.patch_hints.flags.full_props ==> el.patch_hints.props@.len() == 0)
    &&& match el.starting_tag.directives {
        Some(d) => match d.v_for {
            Some(vf) => flags_fragment_free(vf.patch_flags),
            None => true,
        },
        None => true,
    }
}

pub open spec fn node_in_ok(n: Node) -> bool
    decreases n,
{
    match n {
        Node::Element(el) => subtree_in_ok(el),
        Node::ConditionalSeq(c) => cond_in_ok(c),
        _ => true,
    }
}

pub open spec fn subtree_in_ok(el: ElementNode) -> bool
    decreases el,
{
    &&& elem_hints_in_ok(el)
    &&& forall|i: int| 0 <= i < el.children@.len() ==> node_in_ok(#[trigger] el.children@[i])
}

pub open spec fn cond_in_ok(c: ConditionalNodeSequence) -> bool
    decreases c,
{
    &&& subtree_in_ok(c.if_node.node)
    &&& forall|i: int|
        0 <= i < c.else_if_nodes@.len() ==> subtree_in_ok(#[trigger] c.else_if_nodes@[i].node)
    &&& match c.else_node {
        Some(el) => subtree_in_ok(*el),
        None => true,
    }
}

/// Hints as the pass leaves them: the exclusivity invariant holds, no
/// fragment flag sits on element hints, and a processed loop directive
/// carries exactly one fragment flag.
pub open spec fn elem_hints_out_ok(el: ElementNode) -> bool {
    &&& flags_wf(el.patch_hints.flags)
    &&& flags_fragment_free(el.patch_hints.flags)
    &&& (el.patch_hints.flags.full_props ==> el.patch_hints.props@.len() == 0)
    &&& match el.starting_tag.directives {
        Some(d) => match d.v_for {
            Some(vf) => flags_one_fragment(vf.patch_flags),
            None => true,
        },
        None => true,
    }
}

pub open spec fn node_out_ok(n: Node) -> bool
    decreases n,
{
    match n {
        Node::Element(el) => subtree_out_ok(el),
        Node::ConditionalSeq(c) => cond_out_ok(c),
        _ => true,
    }
}

pub open spec fn subtree_out_ok(el: ElementNode) -> bool
    decreases el,
{
    &&& elem_hints_out_ok(el)
    &&& forall|i: int| 0 <= i < el.children@.len() ==> node_out_ok(#[trigger] el.children@[i])
}

pub open spec fn cond_out_ok(c: ConditionalNodeSequence) -> bool
    decreases c,
{
    &&& subtree_out_ok(c.if_node.node)
    &&& forall|i: int|
        0 <= i < c.else_if_nodes@.len() ==> subtree_out_ok(#[trigger] c.else_if_nodes@[i].node)
    &&& match c.else_node {
        Some(el) => subtree_out_ok(*el),
        None => true,
    }
}

/// Two nodes carry the same variant.
pub open spec fn variant_same(a: Node, b: Node) -> bool {
    match (a, b) {
        (Node::Element(_), Node::Element(_)) => true,
        (Node::Text(_), Node::Text(_)) => true,
        (Node::Interpolation(_), Node::Interpolation(_)) => true,
        (Node::Comment(_), Node::Comment(_)) => true,
        (Node::ConditionalSeq(_), Node::ConditionalSeq(_)) => true,
        _ => false,
    }
}

} // verus!
