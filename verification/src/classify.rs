//! Element classification: the recognized built-in vocabulary, the
//! recognized HTML vocabulary, and the tag plus attributes to element
//! kind rule.

use vstd::prelude::*;

use crate::ast::{AttributeOrBinding, BuiltinType, ElementKind, StartingTag, StrOrExpr};

verus! {

/// Whether one attribute entry carries the static name `name`: a
/// plain attribute of that name, or a binding whose argument is that
/// static string.
pub open spec fn attr_named(attr: AttributeOrBinding, name: Seq<char>) -> bool {
    match attr {
        AttributeOrBinding::RegularAttribute { name: n, .. } => n@ == name,
        AttributeOrBinding::VBind(vb) => match vb.argument {
            Some(StrOrExpr::Str(s)) => s@ == name,
            _ => false,
        },
        AttributeOrBinding::VOn(_) => false,
    }
}

/// Whether any attribute of the list carries the static name `name`.
pub open spec fn has_attribute_named(attrs: Seq<AttributeOrBinding>, name: Seq<char>) -> bool {
    exists|i: int| 0 <= i < attrs.len() && attr_named(#[trigger] attrs[i], name)
}

/// Executable check for a statically named attribute.
pub fn check_attribute_name(attr: &AttributeOrBinding, name: &str) -> (r: bool)
    ensures
        r == attr_named(*attr, name@),
{
    match attr {
        AttributeOrBinding::RegularAttribute { name: n, .. } => crate::strutil::str_eq(
            n.as_str(),
            name,
        ),
        AttributeOrBinding::VBind(vb) => match &vb.argument {
            Some(StrOrExpr::Str(s)) => crate::strutil::str_eq(s.as_str(), name),
            _ => false,
        },
        AttributeOrBinding::VOn(_) => false,
    }
}

/// Executable search of an attribute list for a statically named
/// attribute.
pub fn attrs_have_named(attrs: &Vec<AttributeOrBinding>, name: &str) -> (r: bool)
    ensures
        r == has_attribute_named(attrs@, name@),
{
    let n = attrs.len();
    let mut i: usize = 0;
    while i < n
        invariant
            0 <= i <= n,
            n == attrs@.len(),
            forall|j: int| 0 <= j < i ==> !attr_named(#[trigger] attrs@[j], name@),
        decreases n - i,
    {
        if check_attribute_name(&attrs[i], name) {
            return true;
        }
        i = i + 1;
    }
    false
}

/// The built-in component vocabulary. The generic dynamic-component
/// tag is in it; whether it really classifies as a built-in depends on
/// its attributes (see `recognize_spec`).
pub open spec fn builtin_kind_spec(tag: Seq<char>) -> Option<BuiltinType> {
    if tag == "component"@ {
        Some(BuiltinType::Component)
    } else if tag == "keep-alive"@ || tag == "KeepAlive"@ {
        Some(BuiltinType::KeepAlive)
    } else if tag == "slot"@ {
        Some(BuiltinType::Slot)
    } else if tag == "suspense"@ || tag == "Suspense"@ {
        Some(BuiltinType::Suspense)
    } else if tag == "teleport"@ || tag == "Teleport"@ {
        Some(BuiltinType::Teleport)
    } else if tag == "transition"@ || tag == "Transition"@ {
        Some(BuiltinType::Transition)
    } else if tag == "transition-group"@ || tag == "TransitionGroup"@ {
        Some(BuiltinType::TransitionGroup)
    } else {
        None
    }
}

/// Executable built-in lookup.
pub fn builtin_kind(tag: &str) -> (r: Option<BuiltinType>)
    ensures
        r == builtin_kind_spec(tag@),
{
    if crate::strutil::str_eq(tag, "component") {
        Some(BuiltinType::Component)
    } else if crate::strutil::str_eq(tag, "keep-alive") || crate::strutil::str_eq(
        tag,
        "KeepAlive",
    ) {
        Some(BuiltinType::KeepAlive)
    } else if crate::strutil::str_eq(tag, "slot") {
        Some(BuiltinType::Slot)
    } else if crate::strutil::str_eq(tag, "suspense") || crate::strutil::str_eq(
        tag,
        "Suspense",
    ) {
        Some(BuiltinType::Suspense)
    } else if crate::strutil::str_eq(tag, "teleport") || crate::strutil::str_eq(
        tag,
        "Teleport",
    ) {
        Some(BuiltinType::Teleport)
    } else if crate::strutil::str_eq(tag, "transition") || crate::strutil::str_eq(
        tag,
        "Transition",
    ) {
        Some(BuiltinType::Transition)
    } else if crate::strutil::str_eq(tag, "transition-group") || crate::strutil::str_eq(
        tag,
        "TransitionGroup",
    ) {
        Some(BuiltinType::TransitionGroup)
    } else {
        None
    }
}

/// The recognized HTML vocabulary.
pub open spec fn is_html_tag_spec(tag: Seq<char>) -> bool {
    ||| tag == "a"@
    ||| tag == "abbr"@
    ||| tag == "address"@
    ||| tag == "area"@
    ||| tag == "article"@
    ||| tag == "aside"@
    ||| tag == "audio"@
    ||| tag == "b"@
    ||| tag == "base"@
    ||| tag == "bdi"@
    ||| tag == "bdo"@
    ||| tag == "blockquote"@
    ||| tag == "body"@
    ||| tag == "br"@
    ||| tag == "button"@
    ||| tag == "canvas"@
    ||| tag == "caption"@
    ||| tag == "cite"@
    ||| tag == "code"@
    ||| tag == "col"@
    ||| tag == "colgroup"@
    ||| tag == "data"@
    ||| tag == "datalist"@
    ||| tag == "dd"@
    ||| tag == "del"@
    ||| tag == "details"@
    ||| tag == "dfn"@
    ||| tag == "dialog"@
    ||| tag == "div"@
    ||| tag == "dl"@
    ||| tag == "dt"@
    ||| tag == "em"@
    ||| tag == "embed"@
    ||| tag == "fieldset"@
    ||| tag == "figcaption"@
    ||| tag == "figure"@
    ||| tag == "footer"@
    ||| tag == "form"@
    ||| tag == "h1"@
    ||| tag == "h2"@
    ||| tag == "h3"@
    ||| tag == "h4"@
    ||| tag == "h5"@
    ||| tag == "h6"@
    ||| tag == "head"@
    ||| tag == "header"@
    ||| tag == "hgroup"@
    ||| tag == "hr"@
    ||| tag == "html"@
    ||| tag == "i"@
    ||| tag == "iframe"@
    ||| tag == "img"@
    ||| tag == "input"@
    ||| tag == "ins"@
    ||| tag == "kbd"@
    ||| tag == "label"@
    ||| tag == "legend"@
    ||| tag == "li"@
    ||| tag == "link"@
    ||| tag == "main"@
    ||| tag == "map"@
    ||| tag == "mark"@
    ||| tag == "menu"@
    ||| tag == "meta"@
    ||| tag == "meter"@
    ||| tag == "nav"@
    ||| tag == "noscript"@
    ||| tag == "object"@
    ||| tag == "ol"@
    ||| tag == "optgroup"@
    ||| tag == "option"@
    ||| tag == "output"@
    ||| tag == "p"@
    ||| tag == "param"@
    ||| tag == "picture"@
    ||| tag == "pre"@
    ||| tag == "progress"@
    ||| tag == "q"@
    ||| tag == "rp"@
    ||| tag == "rt"@
    ||| tag == "ruby"@
    ||| tag == "s"@
    ||| tag == "samp"@
    ||| tag == "script"@
    ||| tag == "section"@
    ||| tag == "select"@
    ||| tag == "small"@
    ||| tag == "source"@
    ||| tag == "span"@
    ||| tag == "strong"@
    ||| tag == "style"@
    ||| tag == "sub"@
    ||| tag == "summary"@
    ||| tag == "sup"@
    ||| tag == "table"@
    ||| tag == "tbody"@
    ||| tag == "td"@
    ||| tag == "template"@
    ||| tag == "textarea"@
    ||| tag == "tfoot"@
    ||| tag == "th"@
    ||| tag == "thead"@
    ||| tag == "time"@
    ||| tag == "title"@
    ||| tag == "tr"@
    ||| tag == "track"@
    ||| tag == "u"@
    ||| tag == "ul"@
    ||| tag == "var"@
    ||| tag == "video"@
    ||| tag == "wbr"@
}

/// Executable membership test of the recognized HTML vocabulary.
pub fn is_html_tag(tag: &str) -> (r: bool)
    ensures
        r == is_html_tag_spec(tag@),
{
    if crate::strutil::str_eq(tag, "a") {
        return true;
    }
    if crate::strutil::str_eq(tag, "abbr") {
        return true;
    }
    if crate::strutil::str_eq(tag, "address") {
        return true;
    }
    if crate::strutil::str_eq(tag, "area") {
        return true;
    }
    if crate::strutil::str_eq(tag, "article") {
        return true;
    }
    if crate::strutil::str_eq(tag, "aside") {
        return true;
    }
    if crate::strutil::str_eq(tag, "audio") {
        return true;
    }
    if crate::strutil::str_eq(tag, "b") {
        return true;
    }
    if crate::strutil::str_eq(tag, "base") {
        return true;
    }
    if crate::strutil::str_eq(tag, "bdi") {
        return true;
    }
    if crate::strutil::str_eq(tag, "bdo") {
        return true;
    }
    if crate::strutil::str_eq(tag, "blockquote") {
        return true;
    }
    if crate::strutil::str_eq(tag, "body") {
        return true;
    }
    if crate::strutil::str_eq(tag, "br") {
        return true;
    }
    if crate::strutil::str_eq(tag, "button") {
        return true;
    }
    if crate::strutil::str_eq(tag, "canvas") {
        return true;
    }
    if crate::strutil::str_eq(tag, "caption") {
        return true;
    }
    if crate::strutil::str_eq(tag, "cite") {
        return true;
    }
    if crate::strutil::str_eq(tag, "code") {
        return true;
    }
    if crate::strutil::str_eq(tag, "col") {
        return true;
    }
    if crate::strutil::str_eq(tag, "colgroup") {
        return true;
    }
    if crate::strutil::str_eq(tag, "data") {
        return true;
    }
    if crate::strutil::str_eq(tag, "datalist") {
        return true;
    }
    if crate::strutil::str_eq(tag, "dd") {
        return true;
    }
    if crate::strutil::str_eq(tag, "del") {
        return true;
    }
    if crate::strutil::str_eq(tag, "details") {
        return true;
    }
    if crate::strutil::str_eq(tag, "dfn") {
        return true;
    }
    if crate::strutil::str_eq(tag, "dialog") {
        return true;
    }
    if crate::strutil::str_eq(tag, "div") {
        return true;
    }
    if crate::strutil::str_eq(tag, "dl") {
        return true;
    }
    if crate::strutil::str_eq(tag, "dt") {
        return true;
    }
    if crate::strutil::str_eq(tag, "em") {
        return true;
    }
    if crate::strutil::str_eq(tag, "embed") {
        return true;
    }
    if crate::strutil::str_eq(tag, "fieldset") {
        return true;
    }
    if crate::strutil::str_eq(tag, "figcaption") {
        return true;
    }
    if crate::strutil::str_eq(tag, "figure") {
        return true;
    }
    if crate::strutil::str_eq(tag, "footer") {
        return true;
    }
    if crate::strutil::str_eq(tag, "form") {
        return true;
    }
    if crate::strutil::str_eq(tag, "h1") {
        return true;
    }
    if crate::strutil::str_eq(tag, "h2") {
        return true;
    }
    if crate::strutil::str_eq(tag, "h3") {
        return true;
    }
    if crate::strutil::str_eq(tag, "h4") {
        return true;
    }
    if crate::strutil::str_eq(tag, "h5") {
        return true;
    }
    if crate::strutil::str_eq(tag, "h6") {
        return true;
    }
    if crate::strutil::str_eq(tag, "head") {
        return true;
    }
    if crate::strutil::str_eq(tag, "header") {
        return true;
    }
    if crate::strutil::str_eq(tag, "hgroup") {
        return true;
    }
    if crate::strutil::str_eq(tag, "hr") {
        return true;
    }
    if crate::strutil::str_eq(tag, "html") {
        return true;
    }
    if crate::strutil::str_eq(tag, "i") {
        return true;
    }
    if crate::strutil::str_eq(tag, "iframe") {
        return true;
    }
    if crate::strutil::str_eq(tag, "img") {
        return true;
    }
    if crate::strutil::str_eq(tag, "input") {
        return true;
    }
    if crate::strutil::str_eq(tag, "ins") {
        return true;
    }
    if crate::strutil::str_eq(tag, "kbd") {
        return true;
    }
    if crate::strutil::str_eq(tag, "label") {
        return true;
    }
    if crate::strutil::str_eq(tag, "legend") {
        return true;
    }
    if crate::strutil::str_eq(tag, "li") {
        return true;
    }
    if crate::strutil::str_eq(tag, "link") {
        return true;
    }
    if crate::strutil::str_eq(tag, "main") {
        return true;
    }
    if crate::strutil::str_eq(tag, "map") {
        return true;
    }
    if crate::strutil::str_eq(tag, "mark") {
        return true;
    }
    if crate::strutil::str_eq(tag, "menu") {
        return true;
    }
    if crate::strutil::str_eq(tag, "meta") {
        return true;
    }
    if crate::strutil::str_eq(tag, "meter") {
        return true;
    }
    if crate::strutil::str_eq(tag, "nav") {
        return true;
    }
    if crate::strutil::str_eq(tag, "noscript") {
        return true;
    }
    if crate::strutil::str_eq(tag, "object") {
        return true;
    }
    if crate::strutil::str_eq(tag, "ol") {
        return true;
    }
    if crate::strutil::str_eq(tag, "optgroup") {
        return true;
    }
    if crate::strutil::str_eq(tag, "option") {
        return true;
    }
    if crate::strutil::str_eq(tag, "output") {
        return true;
    }
    if crate::strutil::str_eq(tag, "p") {
        return true;
    }
    if crate::strutil::str_eq(tag, "param") {
        return true;
    }
    if crate::strutil::str_eq(tag, "picture") {
        return true;
    }
    if crate::strutil::str_eq(tag, "pre") {
        return true;
    }
    if crate::strutil::str_eq(tag, "progress") {
        return true;
    }
    if crate::strutil::str_eq(tag, "q") {
        return true;
    }
    if crate::strutil::str_eq(tag, "rp") {
        return true;
    }
    if crate::strutil::str_eq(tag, "rt") {
        return true;
    }
    if crate::strutil::str_eq(tag, "ruby") {
        return true;
    }
    if crate::strutil::str_eq(tag, "s") {
        return true;
    }
    if crate::strutil::str_eq(tag, "samp") {
        return true;
    }
    if crate::strutil::str_eq(tag, "script") {
        return true;
    }
    if crate::strutil::str_eq(tag, "section") {
        return true;
    }
    if crate::strutil::str_eq(tag, "select") {
        return true;
    }
    if crate::strutil::str_eq(tag, "small") {
        return true;
    }
    if crate::strutil::str_eq(tag, "source") {
        return true;
    }
    if crate::strutil::str_eq(tag, "span") {
        return true;
    }
    if crate::strutil::str_eq(tag, "strong") {
        return true;
    }
    if crate::strutil::str_eq(tag, "style") {
        return true;
    }
    if crate::strutil::str_eq(tag, "sub") {
        return true;
    }
    if crate::strutil::str_eq(tag, "summary") {
        return true;
    }
    if crate::strutil::str_eq(tag, "sup") {
        return true;
    }
    if crate::strutil::str_eq(tag, "table") {
        return true;
    }
    if crate::strutil::str_eq(tag, "tbody") {
        return true;
    }
    if crate::strutil::str_eq(tag, "td") {
        return true;
    }
    if crate::strutil::str_eq(tag, "template") {
        return true;
    }
    if crate::strutil::str_eq(tag, "textarea") {
        return true;
    }
    if crate::strutil::str_eq(tag, "tfoot") {
        return true;
    }
    if crate::strutil::str_eq(tag, "th") {
        return true;
    }
    if crate::strutil::str_eq(tag, "thead") {
        return true;
    }
    if crate::strutil::str_eq(tag, "time") {
        return true;
    }
    if crate::strutil::str_eq(tag, "title") {
        return true;
    }
    if crate::strutil::str_eq(tag, "tr") {
        return true;
    }
    if crate::strutil::str_eq(tag, "track") {
        return true;
    }
    if crate::strutil::str_eq(tag, "u") {
        return true;
    }
    if crate::strutil::str_eq(tag, "ul") {
        return true;
    }
    if crate::strutil::str_eq(tag, "var") {
        return true;
    }
    if crate::strutil::str_eq(tag, "video") {
        return true;
    }
    if crate::strutil::str_eq(tag, "wbr") {
        return true;
    }
    false
}

/// The classification rule: a name of the built-in vocabulary is that
/// built-in, except the generic dynamic-component tag, which is a
/// built-in only when a resolving `is` attribute is present and an
/// ordinary component otherwise; a name of the HTML vocabulary is a
/// plain element; every remaining name is a component.
pub open spec fn recognize_spec(tag: StartingTag) -> ElementKind {
    match builtin_kind_spec(tag.tag_name@) {
        Some(BuiltinType::Component) => {
            if has_attribute_named(tag.attributes@, "is"@) {
                ElementKind::Builtin(BuiltinType::Component)
            } else {
                ElementKind::Component
            }
        },
        Some(b) => ElementKind::Builtin(b),
        None => {
            if is_html_tag_spec(tag.tag_name@) {
                ElementKind::Element
            } else {
                ElementKind::Component
            }
        },
    }
}

/// Executable classification of an opening tag.
pub fn recognize_element_kind_impl(starting_tag: &StartingTag) -> (r: ElementKind)
    ensures
        r == recognize_spec(*starting_tag),
{
    match builtin_kind(starting_tag.tag_name.as_str()) {
        Some(BuiltinType::Component) => {
            if attrs_have_named(&starting_tag.attributes, "is") {
                ElementKind::Builtin(BuiltinType::Component)
            } else {
                ElementKind::Component
            }
        },
        Some(b) => ElementKind::Builtin(b),
        None => {
            if is_html_tag(starting_tag.tag_name.as_str()) {
                ElementKind::Element
            } else {
                ElementKind::Component
            }
        },
    }
}

} // verus!
