//! The data model: markup tree nodes and rendered text fragments.

use vstd::prelude::*;

verus! {

/// One node of a markup tree, as the flattener consumes it: either a literal
/// text node, or an element with a tag name and an ordered list of children.
///
/// A tree is consumed read-only; no node is ever copied or mutated.
#[derive(Debug)]
pub enum Node {
    Text(String),
    Element { tag: String, children: Vec<Node> },
}

/// One unit of flattened output: a base text, optionally carrying a
/// pronunciation annotation. Rendered as `content` or `content[annotation]`.
#[derive(Debug, Clone, PartialEq, Eq)]
pub struct NhkText {
    pub content: String,
    pub annotation: Option<String>,
}

/// The mathematical value of an `NhkText`: both strings as character
/// sequences.
pub struct FragmentView {
    pub content: Seq<char>,
    pub annotation: Option<Seq<char>>,
}

impl View for NhkText {
    type V = FragmentView;

    open spec fn view(&self) -> FragmentView {
        FragmentView {
            content: self.content@,
            annotation: match self.annotation {
                Some(a) => Some(a@),
                None => None,
            },
        }
    }
}

impl DeepView for NhkText {
    type V = FragmentView;

    open spec fn deep_view(&self) -> FragmentView {
        self.view()
    }
}

} // verus!
