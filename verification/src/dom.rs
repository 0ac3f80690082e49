use vstd::prelude::*;

use crate::strutil::{is_space, lit_at, str_eq_str};

verus! {

broadcast use vstd::std_specs::vec::group_vec_axioms;

// The scraped pages are HTML; parsing them into a tree is the work of the
// `select` crate. Everything the extraction logic reads of a page is held
// here in the library's own node type, so the logic over it is verified.

/// A parsed HTML node.
pub enum HtmlNode {
    Element(Element),
    /// A run of character data.
    Text(String),
    /// A comment; it carries no text content and matches no predicate.
    Comment(String),
}

/// An HTML element: lowercase tag name, attributes in source order, child
/// nodes in document order.
pub struct Element {
    pub name: String,
    pub attrs: Vec<(String, String)>,
    pub children: Vec<HtmlNode>,
}

/// The concatenated character data of a node and all its descendants, in
/// document order.
pub open spec fn text_of(n: HtmlNode) -> Seq<char>
    decreases n,
{
    match n {
        HtmlNode::Text(s) => s@,
        HtmlNode::Comment(_) => Seq::empty(),
        HtmlNode::Element(e) => text_of_seq(e.children@),
    }
}

pub open spec fn text_of_seq(ns: Seq<HtmlNode>) -> Seq<char>
    decreases ns,
{
    if ns.len() == 0 {
        Seq::empty()
    } else {
        text_of_seq(ns.drop_last()) + text_of(ns.last())
    }
}

/// The children of an element node; other nodes have none.
pub open spec fn node_children(n: HtmlNode) -> Seq<HtmlNode> {
    match n {
        HtmlNode::Element(e) => e.children@,
        _ => Seq::empty(),
    }
}

/// The value of the first attribute named `name`, searching in source order.
pub open spec fn attr_in(attrs: Seq<(String, String)>, name: Seq<char>) -> Option<Seq<char>>
    decreases attrs,
{
    if attrs.len() == 0 {
        None
    } else if attrs[0].0@ == name {
        Some(attrs[0].1@)
    } else {
        attr_in(attrs.drop_first(), name)
    }
}

/// The value of attribute `name` on an element node, `None` on any other
/// node or when the attribute is absent.
pub open spec fn node_attr(n: HtmlNode, name: Seq<char>) -> Option<Seq<char>> {
    match n {
        HtmlNode::Element(e) => attr_in(e.attrs@, name),
        _ => None,
    }
}

/// The node is an element with tag name `name`.
pub open spec fn node_is_named(n: HtmlNode, name: Seq<char>) -> bool {
    match n {
        HtmlNode::Element(e) => e.name@ == name,
        _ => false,
    }
}

/// `cls` occurs in `s` as a whole whitespace-delimited token.
pub open spec fn token_at(s: Seq<char>, cls: Seq<char>, i: int) -> bool {
    &&& lit_at(s, i, cls)
    &&& (i == 0 || is_space(s[i - 1]))
    &&& (i + cls.len() == s.len() || is_space(s[i + cls.len()]))
}

/// Membership of `cls` in a class attribute value, split on whitespace: how
/// a CSS class predicate reads the attribute.
pub open spec fn class_matches(s: Seq<char>, cls: Seq<char>) -> bool {
    &&& cls.len() > 0
    &&& forall|k: int| 0 <= k < cls.len() ==> !is_space(cls[k])
    &&& exists|i: int| token_at(s, cls, i)
}

/// The node is an element whose class attribute contains the class `cls`.
pub open spec fn node_has_class(n: HtmlNode, cls: Seq<char>) -> bool {
    match node_attr(n, "class"@) {
        Some(v) => class_matches(v, cls),
        None => false,
    }
}

/// The node is an element carrying attribute `name` with exactly the value
/// `val`.
pub open spec fn node_has_attr_val(n: HtmlNode, name: Seq<char>, val: Seq<char>) -> bool {
    node_attr(n, name) == Some(val)
}

/// Finds `cls` as a whole whitespace-delimited token of `s`.
pub fn class_list_contains(s: &str, cls: &str) -> (r: bool)
    ensures
        r == class_matches(s@, cls@),
{
    let cn = cls.unicode_len();
    if cn == 0 {
        return false;
    }
    let mut k: usize = 0;
    while k < cn
        invariant
            cn == cls@.len(),
            k <= cn,
            forall|m: int| 0 <= m < k ==> !is_space(cls@[m]),
        decreases cn - k,
    {
        if crate::strutil::is_space_char(cls.get_char(k)) {
            return false;
        }
        k += 1;
    }
    let n = s.unicode_len();
    let mut i: usize = 0;
    while i < n
        invariant
            n == s@.len(),
            cn == cls@.len(),
            cn > 0,
            forall|m: int| 0 <= m < cn ==> !is_space(cls@[m]),
            i <= n,
            forall|j: int| 0 <= j < i ==> !token_at(s@, cls@, j),
        decreases n - i,
    {
        let head_ok = i == 0 || crate::strutil::is_space_char(s.get_char(i - 1));
        if head_ok && crate::strutil::lit_at_exec(s, i, cls) {
            if i + cn == n || crate::strutil::is_space_char(s.get_char(i + cn)) {
                proof {
                    assert(token_at(s@, cls@, i as int));
                }
                return true;
            }
        }
        i += 1;
    }
    proof {
        assert forall|j: int| !token_at(s@, cls@, j) by {
            if 0 <= j < n {
                assert(!token_at(s@, cls@, j));
            } else {
                assert(!lit_at(s@, j, cls@));
            }
        }
    }
    false
}

/// The value of the first attribute named `name`, or `None`.
#[verifier::loop_isolation(false)]
pub fn node_attr_exec<'a>(n: &'a HtmlNode, name: &str) -> (r: Option<&'a String>)
    ensures
        match r {
            Some(v) => node_attr(*n, name@) == Some(v@),
            None => node_attr(*n, name@) is None,
        },
{
    match n {
        HtmlNode::Element(e) => {
            proof {
                assert(e.attrs@.skip(0) =~= e.attrs@);
            }
            let len = e.attrs.len();
            let mut i: usize = 0;
            while i < len
                invariant
                    len == e.attrs@.len(),
                    i <= len,
                    attr_in(e.attrs@, name@) == attr_in(e.attrs@.skip(i as int), name@),
                decreases len - i,
            {
                proof {
                    assert(e.attrs@.skip(i as int).drop_first() =~= e.attrs@.skip(i + 1));
                    assert(e.attrs@.skip(i as int)[0] == e.attrs@[i as int]);
                }
                if str_eq_str(e.attrs[i].0.as_str(), name) {
                    proof {
                        assert(node_attr(*n, name@) == attr_in(e.attrs@, name@));
                        assert(attr_in(e.attrs@.skip(i as int), name@) == Some(
                            e.attrs@[i as int].1@,
                        ));
                    }
                    return Some(&e.attrs[i].1);
                }
                i += 1;
            }
            proof {
                assert(e.attrs@.skip(len as int) =~= Seq::<(String, String)>::empty());
            }
            None
        },
        _ => None,
    }
}

/// Whether the node is an element with tag name `name`.
pub fn node_is_named_exec(n: &HtmlNode, name: &str) -> (r: bool)
    ensures
        r == node_is_named(*n, name@),
{
    match n {
        HtmlNode::Element(e) => str_eq_str(e.name.as_str(), name),
        _ => false,
    }
}

/// Whether the node is an element whose class attribute contains `cls`.
pub fn node_has_class_exec(n: &HtmlNode, cls: &str) -> (r: bool)
    ensures
        r == node_has_class(*n, cls@),
{
    proof {
        reveal_strlit("class");
    }
    match node_attr_exec(n, "class") {
        Some(v) => class_list_contains(v.as_str(), cls),
        None => false,
    }
}

/// Whether the node is an element carrying `name` with exactly the value
/// `val`.
pub fn node_has_attr_val_exec(n: &HtmlNode, name: &str, val: &str) -> (r: bool)
    ensures
        r == node_has_attr_val(*n, name@, val@),
{
    match node_attr_exec(n, name) {
        Some(v) => str_eq_str(v.as_str(), val),
        None => false,
    }
}

/// Appends the text content of the node to `out`.
#[verifier::loop_isolation(false)]
pub fn append_node_text(n: &HtmlNode, out: &mut String)
    ensures
        final(out)@ == old(out)@ + text_of(*n),
    decreases *n,
{
    match n {
        HtmlNode::Text(s) => {
            out.append(s.as_str());
        },
        HtmlNode::Comment(_) => {
            proof {
                assert(old(out)@ + Seq::<char>::empty() =~= old(out)@);
            }
        },
        HtmlNode::Element(e) => {
            let len = e.children.len();
            let mut i: usize = 0;
            while i < len
                invariant
                    len == e.children@.len(),
                    i <= len,
                    out@ == old(out)@ + text_of_seq(e.children@.take(i as int)),
                decreases len - i,
            {
                proof {
                    assert(e.children@.take(i + 1).drop_last() =~= e.children@.take(i as int));
                    assert(e.children@.take(i + 1).last() == e.children@[i as int]);
                    assert(decreases_to!(*n => e.children));
                    assert(decreases_to!(e.children => e.children@[i as int]));
                }
                append_node_text(&e.children[i], out);
                i += 1;
            }
            proof {
                assert(e.children@.take(len as int) =~= e.children@);
            }
        },
    }
}

/// The text content of the node as a fresh string.
pub fn node_text(n: &HtmlNode) -> (r: String)
    ensures
        r@ == text_of(*n),
{
    let mut out = String::new();
    append_node_text(n, &mut out);
    out
}

#[verifier::external_type_specification]
#[verifier::external_body]
pub struct ExDocument(select::document::Document);

/// The tree that parsing yields on a given text: the parse is a function of
/// the text alone.
pub uninterp spec fn parsed_dom(html: Seq<char>) -> HtmlNode;

/// Relies on select::document::Document::from, which parses any string into
/// a node arena (through html5ever) without failing; the nodes are copied
/// one for one into the library's node type, and the top-level nodes become
/// the children of a synthetic root element with an empty tag name.
#[verifier::external_body]
pub fn parse_document(html: &str) -> (r: HtmlNode)
    ensures
        r == parsed_dom(html@),
{
    let doc = select::document::Document::from(html);
    let mut children = Vec::new();
    for i in 0..doc.nodes.len() {
        if doc.nodes[i].parent.is_none() {
            children.push(convert_node(&doc, i));
        }
    }
    HtmlNode::Element(Element { name: String::new(), attrs: Vec::new(), children })
}

/// Relies on select::node::Node's accessors (data, children, index): one
/// select node is copied, variant for variant and field for field, into the
/// library's node type, children in document order.
#[verifier::external_body]
fn convert_node(doc: &select::document::Document, index: usize) -> HtmlNode {
    let node = doc.nth(index).unwrap();
    match node.data() {
        select::node::Data::Text(t) => HtmlNode::Text(t.to_string()),
        select::node::Data::Comment(t) => HtmlNode::Comment(t.to_string()),
        select::node::Data::Element(name, attrs) => HtmlNode::Element(Element {
            name: name.local.to_string(),
            attrs: attrs.iter().map(|(k, v)| (k.local.to_string(), v.to_string())).collect(),
            children: node.children().map(|c| convert_node(doc, c.index())).collect(),
        }),
    }
}

} // verus!
