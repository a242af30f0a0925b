//! The node classifier: decides the semantic kind of one tree node from its
//! tag name alone.

use vstd::prelude::*;

use crate::node::Node;

verus! {

/// The semantic kind of a node. An element whose tag name is not in the
/// classification table is `Unrecognized`: a normal outcome that callers
/// skip silently, never an error.
#[derive(Debug, PartialEq, Eq, Structural, Clone, Copy)]
pub enum Kind {
    Text,
    Paragraph,
    Link,
    InlineSpan,
    Ruby,
    Unrecognized,
}

/// The classification table: a text node is `Text`; an element is classified
/// by its tag name (`p`, `a`, `span`, `ruby`), anything else `Unrecognized`.
pub open spec fn spec_classify(n: Node) -> Kind {
    match n {
        Node::Text(_) => Kind::Text,
        Node::Element { tag, children: _ } => {
            if tag@ == "p"@ {
                Kind::Paragraph
            } else if tag@ == "a"@ {
                Kind::Link
            } else if tag@ == "span"@ {
                Kind::InlineSpan
            } else if tag@ == "ruby"@ {
                Kind::Ruby
            } else {
                Kind::Unrecognized
            }
        },
    }
}

/// The three kinds whose flattening is the concatenation of their children's
/// flattening.
pub open spec fn is_container_kind(k: Kind) -> bool {
    k == Kind::Paragraph || k == Kind::Link || k == Kind::InlineSpan
}

/// Relies on str's `PartialEq`: two string slices are equal exactly when
/// their character sequences are equal.
#[verifier::external_body]
pub(crate) fn str_eq(a: &str, b: &str) -> (r: bool)
    ensures
        r == (a@ == b@),
{
    a == b
}

/// Classify one node by the fixed table. Pure; never fails: an unknown tag
/// name classifies as `Kind::Unrecognized`.
pub fn classify_node(node: &Node) -> (k: Kind)
    ensures
        k == spec_classify(*node),
{
    match node {
        Node::Text(_) => Kind::Text,
        Node::Element { tag, children: _ } => {
            if str_eq(tag.as_str(), "p") {
                Kind::Paragraph
            } else if str_eq(tag.as_str(), "a") {
                Kind::Link
            } else if str_eq(tag.as_str(), "span") {
                Kind::InlineSpan
            } else if str_eq(tag.as_str(), "ruby") {
                Kind::Ruby
            } else {
                Kind::Unrecognized
            }
        },
    }
}

} // verus!
