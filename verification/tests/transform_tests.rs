use template_transform::ast::{
    AttributeOrBinding, ElementKind, ElementNode, Node, PatchHints, SfcTemplateBlock, StartingTag,
    StrOrExpr, VBindDirective, VForDirective, VueDirectives,
};
use template_transform::bindings::{BindingsHelper, ComponentBinding};
use template_transform::expr::{BindingKind, Expr, SetupBinding};
use template_transform::visitor::{transform_and_record_template, TemplateVisitor};

fn js_lit(raw: &str) -> Expr {
    Expr::Lit { raw: raw.to_string() }
}

fn js_ident(name: &str) -> Expr {
    Expr::Ident { name: name.to_string() }
}

fn to_str(e: &Expr) -> String {
    e.raw_text()
}

// text
fn text_node() -> Node {
    Node::Text("text".to_string())
}

fn check_text_node(node: &Node) {
    assert!(matches!(node, Node::Text(text) if text == "text"));
}

// <h1 v-if="true">if</h1>
fn if_node() -> Node {
    Node::Element(ElementNode {
        starting_tag: StartingTag {
            tag_name: "h1".to_string(),
            attributes: vec![],
            directives: Some(VueDirectives { v_if: Some(js_lit("true")), ..Default::default() }),
        },
        children: vec![Node::Text("if".to_string())],
        template_scope: 0,
        kind: ElementKind::Element,
        patch_hints: Default::default(),
    })
}

fn check_if_node(if_node: &template_transform::ast::Conditional) {
    assert_eq!("true", to_str(&if_node.condition));
    assert!(if_node.node.starting_tag.tag_name == "h1");
}

// <h2 v-else-if="foo">else-if</h2>
fn else_if_node() -> Node {
    Node::Element(ElementNode {
        starting_tag: StartingTag {
            tag_name: "h2".to_string(),
            attributes: vec![],
            directives: Some(
                VueDirectives { v_else_if: Some(js_ident("foo")), ..Default::default() },
            ),
        },
        children: vec![Node::Text("else-if".to_string())],
        template_scope: 0,
        kind: ElementKind::Element,
        patch_hints: Default::default(),
    })
}

fn check_else_if_node(else_if_node: &template_transform::ast::Conditional) {
    assert_eq!("_ctx.foo", to_str(&else_if_node.condition));
    assert!(else_if_node.node.starting_tag.tag_name == "h2");
}

// <h3 v-else>else</h3>
fn else_node() -> Node {
    Node::Element(ElementNode {
        starting_tag: StartingTag {
            tag_name: "h3".to_string(),
            attributes: vec![],
            directives: Some(VueDirectives { v_else: Some(()), ..Default::default() }),
        },
        children: vec![Node::Text("else".to_string())],
        template_scope: 0,
        kind: ElementKind::Element,
        patch_hints: Default::default(),
    })
}

fn check_else_node(else_node: Option<&Box<ElementNode>>) {
    let else_node = else_node.expect("Must have else node");
    assert!(else_node.starting_tag.tag_name == "h3");
}

/// Special case: `<component>` without `is` attribute is not a builtin
#[test]
fn it_distinguishes_component_builtin_and_not() {
    let starting_tag = StartingTag {
        tag_name: "component".to_string(),
        attributes: vec![],
        directives: None,
    };

    let template_visitor =
        TemplateVisitor { bindings_helper: BindingsHelper::new(), current_scope: 0 };
    assert!(matches!(
        template_visitor.recognize_element_kind(&starting_tag),
        ElementKind::Component
    ));
}

#[test]
fn it_folds_basic_seq() {
    // <template><div>
    //   text
    //   <h1 v-if="true">if</h1>
    //   <h2 v-else-if="foo">else-if</h2>
    //   <h3 v-else>else</h3>
    // </div></template>
    let mut sfc_template = SfcTemplateBlock {
        lang: "html".to_string(),
        roots: vec![Node::Element(ElementNode {
            starting_tag: StartingTag {
                tag_name: "div".to_string(),
                attributes: vec![],
                directives: None,
            },
            children: vec![text_node(), if_node(), else_if_node(), else_node()],
            template_scope: 0,
            kind: ElementKind::Element,
            patch_hints: Default::default(),
        })],
    };

    transform_and_record_template(&mut sfc_template, &mut BindingsHelper::new());

    // Template roots: one div
    assert_eq!(1, sfc_template.roots.len());
    let Node::Element(ref div) = sfc_template.roots[0] else {
        panic!("Root is not an element")
    };

    // Text and conditional seq
    assert_eq!(2, div.children.len());
    check_text_node(&div.children[0]);
    let Node::ConditionalSeq(seq) = &div.children[1] else {
        panic!("Not a conditional sequence")
    };

    // <h1 v-if="true">if</h1>
    check_if_node(&seq.if_node);

    // <h2 v-else-if="foo">else-if</h2>
    assert_eq!(1, seq.else_if_nodes.len());
    check_else_if_node(&seq.else_if_nodes[0]);

    // <h3 v-else>else</h3>
    check_else_node(seq.else_node.as_ref());
}

#[test]
fn it_folds_roots() {
    // <template>
    //   <h1 v-if="true">if</h1>
    //   <h2 v-else-if="foo">else-if</h2>
    //   <h3 v-else>else</h3>
    // </template>
    let mut sfc_template = SfcTemplateBlock {
        lang: "html".to_string(),
        roots: vec![if_node(), else_if_node(), else_node()],
    };

    transform_and_record_template(&mut sfc_template, &mut BindingsHelper::new());

    // Template roots: one conditional sequence
    assert_eq!(1, sfc_template.roots.len());
    let Node::ConditionalSeq(ref seq) = sfc_template.roots[0] else {
        panic!("Root is not a conditional sequence")
    };

    check_if_node(&seq.if_node);
    assert_eq!(1, seq.else_if_nodes.len());
    check_else_if_node(&seq.else_if_nodes[0]);
    check_else_node(seq.else_node.as_ref());
}

#[test]
fn it_folds_multiple_ifs() {
    // <template>
    //   <h1 v-if="true">if</h1>
    //   <h1 v-if="true">if</h1>
    // </template>
    let mut sfc_template =
        SfcTemplateBlock { lang: "html".to_string(), roots: vec![if_node(), if_node()] };

    transform_and_record_template(&mut sfc_template, &mut BindingsHelper::new());

    // Template roots: two conditional sequences inside one root
    assert_eq!(1, sfc_template.roots.len());
    let Node::Element(ref root) = sfc_template.roots[0] else {
        panic!("root is not an element")
    };
    let Node::ConditionalSeq(ref seq) = root.children[0] else {
        panic!("root.children[0] is not a conditional sequence")
    };
    check_if_node(&seq.if_node);

    let Node::ConditionalSeq(ref seq) = root.children[1] else {
        panic!("root.children[1] not a conditional sequence")
    };
    check_if_node(&seq.if_node);
}

#[test]
fn it_folds_multiple_else_ifs() {
    // <template>
    //   <h1 v-if="true">if</h1>
    //   <h2 v-else-if="foo">else-if</h2>
    //   <h1 v-if="true">if</h1>
    //   <h2 v-else-if="foo">else-if</h2>
    // </template>
    let mut sfc_template = SfcTemplateBlock {
        lang: "html".to_string(),
        roots: vec![if_node(), else_if_node(), if_node(), else_if_node()],
    };

    transform_and_record_template(&mut sfc_template, &mut BindingsHelper::new());

    // Template roots: two conditional sequences inside one root
    assert_eq!(1, sfc_template.roots.len());
    let Node::Element(ref root) = sfc_template.roots[0] else {
        panic!("root is not an element")
    };
    let Node::ConditionalSeq(ref seq) = root.children[0] else {
        panic!("roots[0] is not a conditional sequence")
    };
    check_if_node(&seq.if_node);
    check_else_if_node(&seq.else_if_nodes[0]);

    let Node::ConditionalSeq(ref seq) = root.children[1] else {
        panic!("roots[1] not a conditional sequence")
    };
    check_if_node(&seq.if_node);
    check_else_if_node(&seq.else_if_nodes[0]);
}

#[test]
fn it_leaves_bad_nodes() {
    // <template>
    //   <h2 v-else-if="foo">else-if</h2>
    //   <h3 v-else>else</h3>
    // </template>
    let mut sfc_template =
        SfcTemplateBlock { lang: "html".to_string(), roots: vec![else_if_node(), else_node()] };

    transform_and_record_template(&mut sfc_template, &mut BindingsHelper::new());

    // Template root children: still two
    assert_eq!(1, sfc_template.roots.len());
    let Node::Element(ref root) = sfc_template.roots[0] else {
        panic!("root is not an element")
    };
    assert!(matches!(root.children[0], Node::Element(_)));
    assert!(matches!(root.children[1], Node::Element(_)));
}

#[test]
fn it_merges_roots() {
    // Should not get merged
    // <template>
    //   hello {{ 1 + 1 }}
    // </template>
    let mut sfc_template = SfcTemplateBlock {
        lang: "html".to_string(),
        roots: vec![
            Node::Text("text".to_string()),
            Node::Interpolation(template_transform::ast::Interpolation {
                value: js_lit("1 + 1"),
                template_scope: 0,
                patch_flag: false,
            }),
        ],
    };
    transform_and_record_template(&mut sfc_template, &mut BindingsHelper::new());
    assert_eq!(2, sfc_template.roots.len());

    // Should get merged
    // <template>
    //   hello {{ 1 + 1 }}
    //   <div />
    // </template>
    let mut sfc_template = SfcTemplateBlock {
        lang: "html".to_string(),
        roots: vec![
            Node::Text("text".to_string()),
            Node::Interpolation(template_transform::ast::Interpolation {
                value: js_lit("1 + 1"),
                template_scope: 0,
                patch_flag: false,
            }),
            Node::Element(ElementNode {
                kind: ElementKind::Element,
                starting_tag: StartingTag {
                    tag_name: "div".to_string(),
                    attributes: vec![],
                    directives: None,
                },
                children: vec![],
                template_scope: 0,
                patch_hints: PatchHints::default(),
            }),
        ],
    };
    transform_and_record_template(&mut sfc_template, &mut BindingsHelper::new());
    assert_eq!(1, sfc_template.roots.len());
}

#[test]
fn it_handles_complex_cases() {
    // <template><div>
    //   text, if, text, if, else-if, text, if, else
    // </div></template>
    let mut sfc_template = SfcTemplateBlock {
        lang: "html".to_string(),
        roots: vec![Node::Element(ElementNode {
            starting_tag: StartingTag {
                tag_name: "div".to_string(),
                attributes: vec![],
                directives: None,
            },
            children: vec![
                text_node(),
                if_node(),
                text_node(),
                if_node(),
                else_if_node(),
                text_node(),
                if_node(),
                else_node(),
            ],
            template_scope: 0,
            kind: ElementKind::Element,
            patch_hints: Default::default(),
        })],
    };

    transform_and_record_template(&mut sfc_template, &mut BindingsHelper::new());

    // Template roots: one div
    assert_eq!(1, sfc_template.roots.len());
    let Node::Element(ref div) = sfc_template.roots[0] else {
        panic!("Root is not an element")
    };

    assert_eq!(6, div.children.len());
    check_text_node(&div.children[0]);
    check_text_node(&div.children[2]);
    check_text_node(&div.children[4]);
    assert!(matches!(&div.children[1], Node::ConditionalSeq(_)));
    assert!(matches!(&div.children[3], Node::ConditionalSeq(_)));
    assert!(matches!(&div.children[5], Node::ConditionalSeq(_)));
}

#[test]
fn it_ignores_node_without_conditional_directives() {
    let no_directives1 = Node::Element(ElementNode {
        starting_tag: StartingTag {
            tag_name: "test-component".to_string(),
            attributes: vec![],
            directives: Some(VueDirectives { ..Default::default() }),
        },
        children: vec![],
        template_scope: 0,
        kind: ElementKind::Element,
        patch_hints: Default::default(),
    });

    let no_directives2 = Node::Element(ElementNode {
        starting_tag: StartingTag {
            tag_name: "div".to_string(),
            attributes: vec![],
            directives: Some(VueDirectives { ..Default::default() }),
        },
        children: vec![Node::Text("hello".to_string())],
        template_scope: 0,
        kind: ElementKind::Element,
        patch_hints: Default::default(),
    });

    let mut sfc_template = SfcTemplateBlock {
        lang: "html".to_string(),
        roots: vec![no_directives1, no_directives2],
    };

    transform_and_record_template(&mut sfc_template, &mut BindingsHelper::new());

    // Template root: both children nodes are still present
    assert_eq!(1, sfc_template.roots.len());
    let Node::Element(ref root) = sfc_template.roots[0] else {
        panic!("root is not an element")
    };
    assert_eq!(2, root.children.len());
}

// For cloning in it_optimizes_nested_fragments
fn p_el(directives: Option<VueDirectives>) -> ElementNode {
    ElementNode {
        kind: ElementKind::Element,
        starting_tag: StartingTag { tag_name: "p".to_string(), attributes: vec![], directives },
        children: vec![Node::Text("text".to_string())],
        template_scope: 0,
        patch_hints: Default::default(),
    }
}

fn v_for_of(itervar: &str) -> VForDirective {
    VForDirective {
        iterable: js_lit("3"),
        itervars: vec![itervar.to_string()],
        patch_flags: Default::default(),
    }
}

fn prepare(
    template_directives: Option<VueDirectives>,
    p_directives: Option<VueDirectives>,
    include_div: bool,
) -> template_transform::ast::ConditionalNodeSequence {
    let template_el = ElementNode {
        kind: ElementKind::Element,
        starting_tag: StartingTag {
            tag_name: "template".to_string(),
            attributes: vec![],
            directives: template_directives,
        },
        children: vec![Node::Element(p_el(p_directives))],
        template_scope: 0,
        patch_hints: Default::default(),
    };
    let mut roots: Vec<Node> = vec![];
    if include_div {
        roots.push(Node::Element(ElementNode {
            kind: ElementKind::Element,
            starting_tag: StartingTag {
                tag_name: "div".to_string(),
                attributes: vec![],
                directives: Some(VueDirectives { v_if: Some(js_lit("false")), ..Default::default() }),
            },
            children: vec![Node::Text("text".to_string())],
            template_scope: 0,
            patch_hints: Default::default(),
        }));
    }
    roots.push(Node::Element(template_el));
    let mut sfc_template = SfcTemplateBlock { lang: "html".to_string(), roots };
    transform_and_record_template(&mut sfc_template, &mut BindingsHelper::new());

    let Some(Node::ConditionalSeq(cond)) = sfc_template.roots.pop() else {
        panic!("root is not a conditional seq")
    };
    cond
}

#[test]
fn it_optimizes_nested_fragments() {
    // <template v-if="val"><p>text</p></template>
    {
        let cond = prepare(
            Some(VueDirectives { v_if: Some(js_ident("val")), ..Default::default() }),
            None,
            false,
        );

        // Folded to `<p v-if="val">text</p>`
        assert!(cond.if_node.node.starting_tag.tag_name == "p");
        assert!(cond
            .if_node
            .node
            .children
            .first()
            .is_some_and(|v| matches!(v, Node::Text(_))));
    }

    // <template v-if="val" v-for="i in 3"><p>text</p></template>
    {
        let cond = prepare(
            Some(VueDirectives {
                v_if: Some(js_ident("val")),
                v_for: Some(v_for_of("i")),
                ..Default::default()
            }),
            None,
            false,
        );

        // Folded to `<p v-if="val" v-for="i in 3">text</p>`
        let cond_node = &cond.if_node.node;
        assert!(cond_node.starting_tag.tag_name == "p");
        assert!(cond_node.children.first().is_some_and(|v| matches!(v, Node::Text(_))));
        assert!(cond_node
            .starting_tag
            .directives
            .as_ref()
            .is_some_and(|d| d.v_for.is_some()));
    }

    // <template v-if="val"><p v-for="j in 3">text</p></template>
    {
        let cond = prepare(
            Some(VueDirectives { v_if: Some(js_ident("val")), ..Default::default() }),
            Some(VueDirectives { v_for: Some(v_for_of("j")), ..Default::default() }),
            false,
        );

        let cond_node = &cond.if_node.node;
        assert!(cond_node.starting_tag.tag_name == "p");
        assert!(cond_node.children.first().is_some_and(|v| matches!(v, Node::Text(_))));
        assert!(cond_node
            .starting_tag
            .directives
            .as_ref()
            .is_some_and(|d| d.v_for.is_some()));
    }

    // <template v-if="val" v-for="i in 3"><p v-for="j in 3">text</p></template>
    {
        let cond = prepare(
            Some(VueDirectives {
                v_if: Some(js_ident("val")),
                v_for: Some(v_for_of("i")),
                ..Default::default()
            }),
            Some(VueDirectives { v_for: Some(v_for_of("j")), ..Default::default() }),
            false,
        );

        // Not folded
        let cond_node = &cond.if_node.node;
        assert!(cond_node.starting_tag.tag_name == "template");
        assert!(cond_node
            .starting_tag
            .directives
            .as_ref()
            .is_some_and(|d| d.v_for.is_some()));

        let Some(Node::Element(first_child)) = cond_node.children.first() else {
            panic!("First child should be an element")
        };
        assert!(first_child.starting_tag.tag_name == "p");
        assert!(first_child
            .starting_tag
            .directives
            .as_ref()
            .is_some_and(|d| d.v_for.is_some()));
    }

    // <div v-if="false"></div>
    // <template v-else-if="val"><p>text</p></template>
    {
        let cond = prepare(
            Some(VueDirectives { v_else_if: Some(js_ident("val")), ..Default::default() }),
            None,
            true,
        );

        assert!(cond.if_node.node.starting_tag.tag_name == "div");
        let else_if_node = &cond.else_if_nodes.first().expect("Should exist").node;
        assert!(else_if_node.starting_tag.tag_name == "p");
        assert!(else_if_node.children.first().is_some_and(|v| matches!(v, Node::Text(_))));
    }

    // <div v-if="false"></div>
    // <template v-else><p>text</p></template>
    {
        let cond = prepare(
            Some(VueDirectives { v_else: Some(()), ..Default::default() }),
            None,
            true,
        );

        assert!(cond.if_node.node.starting_tag.tag_name == "div");
        let else_node = cond.else_node.as_ref().expect("Should exist");
        assert!(else_node.starting_tag.tag_name == "p");
        assert!(else_node.children.first().is_some_and(|v| matches!(v, Node::Text(_))));
    }
}

#[test]
fn it_resolves_components() {
    // `TestComponent` binding
    let mut bindings_helper = BindingsHelper::new();
    bindings_helper.setup_bindings.push(SetupBinding {
        name: "TestComponent".to_string(),
        kind: BindingKind::Component,
    });

    let mut template_visitor = TemplateVisitor { bindings_helper, current_scope: 0 };

    template_visitor.maybe_resolve_component("test-component");
    assert!(matches!(
        template_visitor.bindings_helper.components_get("test-component"),
        Some(ComponentBinding::Resolved(_))
    ));

    template_visitor.maybe_resolve_component("TestComponent");
    assert!(matches!(
        template_visitor.bindings_helper.components_get("TestComponent"),
        Some(ComponentBinding::Resolved(_))
    ));

    template_visitor.maybe_resolve_component("UnresolvedComponent");
    assert!(matches!(
        template_visitor.bindings_helper.components_get("UnresolvedComponent"),
        Some(ComponentBinding::Unresolved)
    ));
}
