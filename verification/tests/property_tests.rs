use template_transform::ast::{
    AttributeOrBinding, BuiltinType, ElementKind, ElementNode, Node, PatchFlags, SfcTemplateBlock,
    StartingTag, StrOrExpr, VBindDirective, VForDirective, VSlotDirective, VueDirectives,
};
use template_transform::bindings::BindingsHelper;
use template_transform::expr::Expr;
use template_transform::optimize::{optimize_children, optimize_v_if_plus_v_for, trim_children};
use template_transform::visitor::{transform_and_record_template, TemplateVisitor};

fn lit(raw: &str) -> Expr {
    Expr::Lit { raw: raw.to_string() }
}

fn ident(name: &str) -> Expr {
    Expr::Ident { name: name.to_string() }
}

fn blank() -> Node {
    Node::Text("  \t\n".to_string())
}

fn el(tag: &str) -> Node {
    Node::Element(ElementNode {
        kind: ElementKind::Element,
        starting_tag: StartingTag {
            tag_name: tag.to_string(),
            attributes: vec![],
            directives: None,
        },
        children: vec![],
        template_scope: 0,
        patch_hints: Default::default(),
    })
}

fn interp(e: Expr) -> Node {
    Node::Interpolation(template_transform::ast::Interpolation {
        value: e,
        template_scope: 0,
        patch_flag: false,
    })
}

#[test]
fn trim_removes_leading_and_trailing_blanks() {
    let mut children = vec![blank(), el("div"), blank()];
    trim_children(&mut children);
    assert_eq!(1, children.len());
    assert!(matches!(children[0], Node::Element(_)));
}

#[test]
fn trim_removes_blank_between_elements_and_comments() {
    let mut children = vec![el("div"), blank(), Node::Comment("c".to_string())];
    trim_children(&mut children);
    assert_eq!(2, children.len());
    assert!(matches!(children[0], Node::Element(_)));
    assert!(matches!(children[1], Node::Comment(_)));
}

#[test]
fn trim_keeps_blank_beside_interpolation() {
    let mut children = vec![el("div"), blank(), interp(lit("1 + 1")), blank(), el("p")];
    trim_children(&mut children);
    // Both blanks sit beside the interpolation and stay.
    assert_eq!(5, children.len());
    assert!(matches!(children[1], Node::Text(_)));
    assert!(matches!(children[3], Node::Text(_)));
}

#[test]
fn trim_is_idempotent_on_trimmed_list() {
    let mut children = vec![blank(), el("div"), blank(), el("p"), blank()];
    trim_children(&mut children);
    let shape: Vec<bool> = children.iter().map(|n| matches!(n, Node::Element(_))).collect();
    let len1 = children.len();
    trim_children(&mut children);
    assert_eq!(len1, children.len());
    let shape2: Vec<bool> = children.iter().map(|n| matches!(n, Node::Element(_))).collect();
    assert_eq!(shape, shape2);
}

fn loop_div(iterable: Expr, with_key: bool) -> Node {
    let attributes = if with_key {
        vec![AttributeOrBinding::VBind(VBindDirective {
            argument: Some(StrOrExpr::Str("key".to_string())),
            value: ident("id"),
        })]
    } else {
        vec![]
    };
    Node::Element(ElementNode {
        kind: ElementKind::Element,
        starting_tag: StartingTag {
            tag_name: "div".to_string(),
            attributes,
            directives: Some(VueDirectives {
                v_for: Some(VForDirective {
                    iterable,
                    itervars: vec!["i".to_string()],
                    patch_flags: Default::default(),
                }),
                ..Default::default()
            }),
        },
        children: vec![],
        template_scope: 0,
        patch_hints: Default::default(),
    })
}

fn loop_flags(root: Node) -> PatchFlags {
    let mut sfc_template = SfcTemplateBlock { lang: "html".to_string(), roots: vec![root] };
    transform_and_record_template(&mut sfc_template, &mut BindingsHelper::new());
    let Node::Element(ref div) = sfc_template.roots[0] else {
        panic!("root is not an element")
    };
    div.starting_tag
        .directives
        .as_ref()
        .unwrap()
        .v_for
        .as_ref()
        .unwrap()
        .patch_flags
}

#[test]
fn loop_over_literal_is_stable_fragment() {
    let flags = loop_flags(loop_div(lit("3"), false));
    assert!(flags.stable_fragment);
    assert!(!flags.keyed_fragment);
    assert!(!flags.unkeyed_fragment);
}

#[test]
fn dynamic_loop_with_key_is_keyed_fragment() {
    let flags = loop_flags(loop_div(ident("items"), true));
    assert!(!flags.stable_fragment);
    assert!(flags.keyed_fragment);
    assert!(!flags.unkeyed_fragment);
}

#[test]
fn dynamic_loop_without_key_is_unkeyed_fragment() {
    let flags = loop_flags(loop_div(ident("items"), false));
    assert!(!flags.stable_fragment);
    assert!(!flags.keyed_fragment);
    assert!(flags.unkeyed_fragment);
}

#[test]
fn dynamic_binding_name_forces_full_props() {
    // <div :class="x" :[dyn]="y"></div>
    let mut sfc_template = SfcTemplateBlock {
        lang: "html".to_string(),
        roots: vec![Node::Element(ElementNode {
            kind: ElementKind::Element,
            starting_tag: StartingTag {
                tag_name: "div".to_string(),
                attributes: vec![
                    AttributeOrBinding::VBind(VBindDirective {
                        argument: Some(StrOrExpr::Str("class".to_string())),
                        value: ident("x"),
                    }),
                    AttributeOrBinding::VBind(VBindDirective {
                        argument: None,
                        value: ident("y"),
                    }),
                ],
                directives: None,
            },
            children: vec![],
            template_scope: 0,
            patch_hints: Default::default(),
        })],
    };
    transform_and_record_template(&mut sfc_template, &mut BindingsHelper::new());
    let Node::Element(ref div) = sfc_template.roots[0] else {
        panic!("root is not an element")
    };
    let flags = div.patch_hints.flags;
    assert!(flags.full_props);
    assert!(!flags.class && !flags.style && !flags.props);
    assert_eq!(0, div.patch_hints.props.len());
}

#[test]
fn element_class_style_and_prop_hints() {
    // <div :class="a" :style="b" :title="c" :key="d"></div>
    let mut sfc_template = SfcTemplateBlock {
        lang: "html".to_string(),
        roots: vec![Node::Element(ElementNode {
            kind: ElementKind::Element,
            starting_tag: StartingTag {
                tag_name: "div".to_string(),
                attributes: vec![
                    AttributeOrBinding::VBind(VBindDirective {
                        argument: Some(StrOrExpr::Str("class".to_string())),
                        value: ident("a"),
                    }),
                    AttributeOrBinding::VBind(VBindDirective {
                        argument: Some(StrOrExpr::Str("style".to_string())),
                        value: ident("b"),
                    }),
                    AttributeOrBinding::VBind(VBindDirective {
                        argument: Some(StrOrExpr::Str("title".to_string())),
                        value: ident("c"),
                    }),
                    AttributeOrBinding::VBind(VBindDirective {
                        argument: Some(StrOrExpr::Str("key".to_string())),
                        value: ident("d"),
                    }),
                ],
                directives: None,
            },
            children: vec![],
            template_scope: 0,
            patch_hints: Default::default(),
        })],
    };
    transform_and_record_template(&mut sfc_template, &mut BindingsHelper::new());
    let Node::Element(ref div) = sfc_template.roots[0] else {
        panic!("root is not an element")
    };
    let flags = div.patch_hints.flags;
    assert!(flags.class && flags.style && flags.props);
    assert!(!flags.full_props);
    // `key` never contributes; only `title` is a named prop.
    assert_eq!(1, div.patch_hints.props.len());
    assert_eq!("title", div.patch_hints.props[0]);
    // class 2 + style 4 + props 8
    assert_eq!(14, flags.bits());
}

#[test]
fn component_records_class_as_prop() {
    // <my-widget :class="a"></my-widget>
    let mut sfc_template = SfcTemplateBlock {
        lang: "html".to_string(),
        roots: vec![Node::Element(ElementNode {
            kind: ElementKind::Element,
            starting_tag: StartingTag {
                tag_name: "my-widget".to_string(),
                attributes: vec![AttributeOrBinding::VBind(VBindDirective {
                    argument: Some(StrOrExpr::Str("class".to_string())),
                    value: ident("a"),
                })],
                directives: None,
            },
            children: vec![],
            template_scope: 0,
            patch_hints: Default::default(),
        })],
    };
    transform_and_record_template(&mut sfc_template, &mut BindingsHelper::new());
    let Node::Element(ref w) = sfc_template.roots[0] else {
        panic!("root is not an element")
    };
    assert!(matches!(w.kind, ElementKind::Component));
    assert!(w.patch_hints.flags.props);
    assert!(!w.patch_hints.flags.class);
    assert_eq!(1, w.patch_hints.props.len());
    assert_eq!("class", w.patch_hints.props[0]);
}

#[test]
fn text_only_element_gets_text_flag() {
    // <p>{{ msg }}</p>
    let mut sfc_template = SfcTemplateBlock {
        lang: "html".to_string(),
        roots: vec![Node::Element(ElementNode {
            kind: ElementKind::Element,
            starting_tag: StartingTag {
                tag_name: "p".to_string(),
                attributes: vec![],
                directives: None,
            },
            children: vec![interp(ident("msg"))],
            template_scope: 0,
            patch_hints: Default::default(),
        })],
    };
    transform_and_record_template(&mut sfc_template, &mut BindingsHelper::new());
    let Node::Element(ref p) = sfc_template.roots[0] else {
        panic!("root is not an element")
    };
    assert!(p.patch_hints.flags.text);
    assert_eq!(1, p.patch_hints.flags.bits());
    let Node::Interpolation(ref i) = p.children[0] else {
        panic!("child is not an interpolation")
    };
    assert!(i.patch_flag);
    assert_eq!("_ctx.msg", i.value.raw_text());
}

#[test]
fn literal_interpolation_is_not_dynamic() {
    // <p>{{ 1 + 1 }}</p>
    let mut sfc_template = SfcTemplateBlock {
        lang: "html".to_string(),
        roots: vec![Node::Element(ElementNode {
            kind: ElementKind::Element,
            starting_tag: StartingTag {
                tag_name: "p".to_string(),
                attributes: vec![],
                directives: None,
            },
            children: vec![interp(lit("1 + 1"))],
            template_scope: 0,
            patch_hints: Default::default(),
        })],
    };
    transform_and_record_template(&mut sfc_template, &mut BindingsHelper::new());
    let Node::Element(ref p) = sfc_template.roots[0] else {
        panic!("root is not an element")
    };
    assert!(!p.patch_hints.flags.text);
    let Node::Interpolation(ref i) = p.children[0] else {
        panic!("child is not an interpolation")
    };
    assert!(!i.patch_flag);
    assert_eq!("1 + 1", i.value.raw_text());
}

#[test]
fn loop_variable_resolves_to_scope() {
    // <div v-for="i in 3">{{ i }}</div>
    let mut sfc_template = SfcTemplateBlock {
        lang: "html".to_string(),
        roots: vec![Node::Element(ElementNode {
            kind: ElementKind::Element,
            starting_tag: StartingTag {
                tag_name: "div".to_string(),
                attributes: vec![],
                directives: Some(VueDirectives {
                    v_for: Some(VForDirective {
                        iterable: lit("3"),
                        itervars: vec!["i".to_string()],
                        patch_flags: Default::default(),
                    }),
                    ..Default::default()
                }),
            },
            children: vec![interp(ident("i"))],
            template_scope: 0,
            patch_hints: Default::default(),
        })],
    };
    let mut helper = BindingsHelper::new();
    transform_and_record_template(&mut sfc_template, &mut helper);
    let Node::Element(ref div) = sfc_template.roots[0] else {
        panic!("root is not an element")
    };
    assert_eq!(1, div.template_scope);
    assert_eq!(2, helper.template_scopes.len());
    assert_eq!("i", helper.template_scopes[1].variables[0]);
    assert_eq!(0, helper.template_scopes[1].parent);
    let Node::Interpolation(ref i) = div.children[0] else {
        panic!("child is not an interpolation")
    };
    // Scope variables stay bare references into their scope.
    assert_eq!("i", i.value.raw_text());
    assert!(matches!(i.value, Expr::ScopeRef { scope: 1, .. }));
}

#[test]
fn named_slot_content_precedes_default() {
    let named = Node::Element(ElementNode {
        kind: ElementKind::Element,
        starting_tag: StartingTag {
            tag_name: "template".to_string(),
            attributes: vec![],
            directives: Some(VueDirectives {
                v_slot: Some(VSlotDirective {
                    slot_name: Some(StrOrExpr::Str("header".to_string())),
                    value: None,
                }),
                ..Default::default()
            }),
        },
        children: vec![el("span")],
        template_scope: 0,
        patch_hints: Default::default(),
    });
    let mut children = vec![el("div"), named];
    optimize_children(&mut children, ElementKind::Component);
    assert_eq!(2, children.len());
    // The named-slot template moved to the front.
    let Node::Element(ref first) = children[0] else {
        panic!("first child is not an element")
    };
    assert_eq!("template", first.starting_tag.tag_name);
    let Node::Element(ref second) = children[1] else {
        panic!("second child is not an element")
    };
    assert_eq!("div", second.starting_tag.tag_name);
}

#[test]
fn collapse_moves_loop_to_single_child() {
    // <template v-for="i in 3"><p/></template>
    let wrapper = ElementNode {
        kind: ElementKind::Element,
        starting_tag: StartingTag {
            tag_name: "template".to_string(),
            attributes: vec![],
            directives: Some(VueDirectives {
                v_for: Some(VForDirective {
                    iterable: lit("3"),
                    itervars: vec!["i".to_string()],
                    patch_flags: Default::default(),
                }),
                ..Default::default()
            }),
        },
        children: vec![el("p")],
        template_scope: 0,
        patch_hints: Default::default(),
    };
    let collapsed = optimize_v_if_plus_v_for(wrapper);
    assert_eq!("p", collapsed.starting_tag.tag_name);
    assert!(collapsed
        .starting_tag
        .directives
        .as_ref()
        .is_some_and(|d| d.v_for.is_some()));
}

#[test]
fn collapse_refuses_double_loop() {
    let child = ElementNode {
        kind: ElementKind::Element,
        starting_tag: StartingTag {
            tag_name: "p".to_string(),
            attributes: vec![],
            directives: Some(VueDirectives {
                v_for: Some(VForDirective {
                    iterable: lit("3"),
                    itervars: vec!["j".to_string()],
                    patch_flags: Default::default(),
                }),
                ..Default::default()
            }),
        },
        children: vec![],
        template_scope: 0,
        patch_hints: Default::default(),
    };
    let wrapper = ElementNode {
        kind: ElementKind::Element,
        starting_tag: StartingTag {
            tag_name: "template".to_string(),
            attributes: vec![],
            directives: Some(VueDirectives {
                v_for: Some(VForDirective {
                    iterable: lit("3"),
                    itervars: vec!["i".to_string()],
                    patch_flags: Default::default(),
                }),
                ..Default::default()
            }),
        },
        children: vec![Node::Element(child)],
        template_scope: 0,
        patch_hints: Default::default(),
    };
    let kept = optimize_v_if_plus_v_for(wrapper);
    assert_eq!("template", kept.starting_tag.tag_name);
}

#[test]
fn builtin_classification() {
    let visitor = TemplateVisitor { bindings_helper: BindingsHelper::new(), current_scope: 0 };
    let tag = |name: &str, attrs: Vec<AttributeOrBinding>| StartingTag {
        tag_name: name.to_string(),
        attributes: attrs,
        directives: None,
    };
    assert!(matches!(
        visitor.recognize_element_kind(&tag("keep-alive", vec![])),
        ElementKind::Builtin(BuiltinType::KeepAlive)
    ));
    assert!(matches!(
        visitor.recognize_element_kind(&tag("div", vec![])),
        ElementKind::Element
    ));
    assert!(matches!(
        visitor.recognize_element_kind(&tag("my-widget", vec![])),
        ElementKind::Component
    ));
    // <component is="x"> is a true built-in; without `is` it is not.
    let is_attr = AttributeOrBinding::RegularAttribute {
        name: "is".to_string(),
        value: "x".to_string(),
    };
    assert!(matches!(
        visitor.recognize_element_kind(&tag("component", vec![is_attr])),
        ElementKind::Builtin(BuiltinType::Component)
    ));
    assert!(matches!(
        visitor.recognize_element_kind(&tag("component", vec![])),
        ElementKind::Component
    ));
}

#[test]
fn repeat_resolution_is_noop() {
    let mut visitor = TemplateVisitor { bindings_helper: BindingsHelper::new(), current_scope: 0 };
    visitor.maybe_resolve_component("some-widget");
    assert_eq!(1, visitor.bindings_helper.components.len());
    visitor.maybe_resolve_component("some-widget");
    assert_eq!(1, visitor.bindings_helper.components.len());
}

#[test]
fn v_model_records_model_prop() {
    // <input v-model="text">
    let mut sfc_template = SfcTemplateBlock {
        lang: "html".to_string(),
        roots: vec![Node::Element(ElementNode {
            kind: ElementKind::Element,
            starting_tag: StartingTag {
                tag_name: "input".to_string(),
                attributes: vec![],
                directives: Some(VueDirectives {
                    v_model: vec![template_transform::ast::VModelDirective {
                        argument: None,
                        value: ident("text"),
                    }],
                    ..Default::default()
                }),
            },
            children: vec![],
            template_scope: 0,
            patch_hints: Default::default(),
        })],
    };
    transform_and_record_template(&mut sfc_template, &mut BindingsHelper::new());
    let Node::Element(ref input) = sfc_template.roots[0] else {
        panic!("root is not an element")
    };
    assert!(input.patch_hints.flags.props);
    assert_eq!(1, input.patch_hints.props.len());
    assert_eq!("modelValue", input.patch_hints.props[0]);
    let value = &input
        .starting_tag
        .directives
        .as_ref()
        .unwrap()
        .v_model[0]
        .value;
    assert_eq!("_ctx.text", value.raw_text());
}

#[test]
fn v_model_argument_names_the_prop() {
    // <my-widget v-model:title="text"></my-widget>
    let mut sfc_template = SfcTemplateBlock {
        lang: "html".to_string(),
        roots: vec![Node::Element(ElementNode {
            kind: ElementKind::Element,
            starting_tag: StartingTag {
                tag_name: "my-widget".to_string(),
                attributes: vec![],
                directives: Some(VueDirectives {
                    v_model: vec![template_transform::ast::VModelDirective {
                        argument: Some(StrOrExpr::Str("title".to_string())),
                        value: ident("text"),
                    }],
                    ..Default::default()
                }),
            },
            children: vec![],
            template_scope: 0,
            patch_hints: Default::default(),
        })],
    };
    transform_and_record_template(&mut sfc_template, &mut BindingsHelper::new());
    let Node::Element(ref w) = sfc_template.roots[0] else {
        panic!("root is not an element")
    };
    assert!(w.patch_hints.flags.props);
    assert_eq!(1, w.patch_hints.props.len());
    assert_eq!("title", w.patch_hints.props[0]);
}
