//! The tree flattener: turns a classified sub-tree into an ordered sequence
//! of text fragments, interpreting ruby annotation nodes specially.

use vstd::prelude::*;

use crate::classify::classify_node;
use crate::classify::is_container_kind;
use crate::classify::spec_classify;
use crate::classify::str_eq;
use crate::classify::Kind;
use crate::node::FragmentView;
use crate::node::NhkText;
use crate::node::Node;

verus! {

/// A failure of one flattening pass. `MalformedRubyNode`: a `ruby` element
/// lacks a text-bearing base (directly or one level nested), or lacks a
/// well-formed reading child. An unrecognized tag is never an error.
#[derive(Debug, PartialEq, Eq, Structural, Clone, Copy)]
pub enum FlattenError {
    MalformedRubyNode,
}

/// The base text of a ruby node with children `cs`: the first child's
/// literal text, or, when the first child is an element wrapping the base,
/// the text of that child's own first child. `None` when neither form
/// yields a text node (malformed).
pub open spec fn ruby_base(cs: Seq<Node>) -> Option<Seq<char>> {
    if cs.len() == 0 {
        None
    } else {
        match cs[0] {
            Node::Text(t) => Some(t@),
            Node::Element { tag: _, children } => {
                if children@.len() > 0 {
                    match children@[0] {
                        Node::Text(t) => Some(t@),
                        Node::Element { .. } => None,
                    }
                } else {
                    None
                }
            },
        }
    }
}

/// Whether a node is a reading-annotation element (`rt`).
pub open spec fn is_rt(n: Node) -> bool {
    n matches Node::Element { tag, children: _ } && tag@ == "rt"@
}

/// The candidate reading carried by a reading-annotation element: the
/// literal text of its first child, or `None` when that child is missing or
/// is not a text node (malformed).
pub open spec fn rt_reading(n: Node) -> Option<Seq<char>> {
    match n {
        Node::Text(_) => None,
        Node::Element { tag: _, children } => {
            if children@.len() > 0 {
                match children@[0] {
                    Node::Text(t) => Some(t@),
                    Node::Element { .. } => None,
                }
            } else {
                None
            }
        },
    }
}

/// The index of the first reading-annotation child, or `cs.len()` when
/// there is none.
pub open spec fn first_rt_index(cs: Seq<Node>) -> int
    decreases cs.len(),
{
    if cs.len() == 0 {
        0
    } else if is_rt(cs[0]) {
        0
    } else {
        1 + first_rt_index(cs.subrange(1, cs.len() as int))
    }
}

/// Every reading-annotation child carries a well-formed reading.
pub open spec fn rts_wellformed(cs: Seq<Node>) -> bool {
    forall|i: int| 0 <= i < cs.len() && is_rt(cs[i]) ==> rt_reading(cs[i]) is Some
}

/// The ruby extraction: one fragment pairing the base text with the first
/// reading in document order (later readings are deliberately discarded),
/// or `MalformedRubyNode` when the base is missing, no reading child
/// exists, or some reading child is malformed.
pub open spec fn spec_ruby(cs: Seq<Node>) -> Result<FragmentView, FlattenError> {
    match ruby_base(cs) {
        None => Err(FlattenError::MalformedRubyNode),
        Some(base) => {
            if first_rt_index(cs) == cs.len() || !rts_wellformed(cs) {
                Err(FlattenError::MalformedRubyNode)
            } else {
                Ok(
                    FragmentView {
                        content: base,
                        annotation: Some(rt_reading(cs[first_rt_index(cs)]).unwrap()),
                    },
                )
            }
        },
    }
}

/// The flattening of one node: a text node yields one unannotated fragment;
/// a container element yields its children's flattening, concatenated in
/// document order; a ruby element yields the one fragment of `spec_ruby`;
/// an unrecognized element yields nothing.
pub open spec fn spec_flatten(n: Node) -> Result<Seq<FragmentView>, FlattenError>
    decreases n,
{
    match n {
        Node::Text(t) => Ok(seq![FragmentView { content: t@, annotation: None }]),
        Node::Element { tag: _, children } => {
            let k = spec_classify(n);
            if is_container_kind(k) {
                spec_flatten_children(children@)
            } else if k == Kind::Ruby {
                match spec_ruby(children@) {
                    Ok(f) => Ok(seq![f]),
                    Err(e) => Err(e),
                }
            } else {
                Ok(Seq::empty())
            }
        },
    }
}

/// The flattening of a child list: the concatenation, in document order, of
/// each child's flattening; the first failure in document order wins.
pub open spec fn spec_flatten_children(cs: Seq<Node>) -> Result<
    Seq<FragmentView>,
    FlattenError,
>
    decreases cs,
{
    if cs.len() == 0 {
        Ok(Seq::empty())
    } else {
        match spec_flatten(cs[0]) {
            Err(e) => Err(e),
            Ok(h) => match spec_flatten_children(cs.subrange(1, cs.len() as int)) {
                Err(e) => Err(e),
                Ok(t) => Ok(h + t),
            },
        }
    }
}

/// The fragment sequence behind a flattening result, for contracts.
pub open spec fn flatten_result_view(r: Result<Vec<NhkText>, FlattenError>) -> Result<
    Seq<FragmentView>,
    FlattenError,
> {
    match r {
        Ok(v) => Ok(v.deep_view()),
        Err(e) => Err(e),
    }
}

/// The fragment behind a ruby extraction result, for contracts.
pub open spec fn ruby_result_view(r: Result<NhkText, FlattenError>) -> Result<
    FragmentView,
    FlattenError,
> {
    match r {
        Ok(f) => Ok(f@),
        Err(e) => Err(e),
    }
}

proof fn lemma_first_rt_index_none(cs: Seq<Node>)
    requires
        forall|j: int| 0 <= j < cs.len() ==> !is_rt(cs[j]),
    ensures
        first_rt_index(cs) == cs.len(),
    decreases cs.len(),
{
    if cs.len() > 0 {
        let tail = cs.subrange(1, cs.len() as int);
        assert forall|j: int| 0 <= j < tail.len() implies !is_rt(tail[j]) by {
            assert(tail[j] == cs[j + 1]);
        }
        lemma_first_rt_index_none(tail);
    }
}

proof fn lemma_first_rt_index_found(cs: Seq<Node>, m: int)
    requires
        0 <= m < cs.len(),
        is_rt(cs[m]),
        forall|j: int| 0 <= j < m ==> !is_rt(cs[j]),
    ensures
        first_rt_index(cs) == m,
    decreases m,
{
    if m > 0 {
        let tail = cs.subrange(1, cs.len() as int);
        assert(tail[m - 1] == cs[m]);
        assert forall|j: int| 0 <= j < m - 1 implies !is_rt(tail[j]) by {
            assert(tail[j] == cs[j + 1]);
        }
        lemma_first_rt_index_found(tail, m - 1);
    }
}

/// The ruby extraction over the children of a `ruby` element: the base text
/// paired with the first reading in document order, or `MalformedRubyNode`
/// exactly when `spec_ruby` says so.
pub fn handle_ruby(children: &Vec<Node>) -> (r: Result<NhkText, FlattenError>)
    ensures
        ruby_result_view(r) == spec_ruby(children@),
{
    if children.len() == 0 {
        return Err(FlattenError::MalformedRubyNode);
    }
    let base: String = match &children[0] {
        Node::Text(t) => t.clone(),
        Node::Element { tag: _, children: inner } => {
            if inner.len() == 0 {
                return Err(FlattenError::MalformedRubyNode);
            }
            match &inner[0] {
                Node::Text(t) => t.clone(),
                Node::Element { .. } => {
                    return Err(FlattenError::MalformedRubyNode);
                },
            }
        },
    };
    let mut first: Option<String> = None;
    let ghost mut first_idx: int = 0;
    let mut i: usize = 0;
    while i < children.len()
        invariant
            0 <= i <= children@.len(),
            ruby_base(children@) == Some(base@),
            forall|j: int|
                0 <= j < i && is_rt(children@[j]) ==> rt_reading(children@[j]) is Some,
            first is None ==> forall|j: int| 0 <= j < i ==> !is_rt(children@[j]),
            first matches Some(s) ==> {
                &&& 0 <= first_idx < i
                &&& is_rt(children@[first_idx])
                &&& forall|j: int| 0 <= j < first_idx ==> !is_rt(children@[j])
                &&& rt_reading(children@[first_idx]) == Some(s@)
            },
        decreases children@.len() - i,
    {
        match &children[i] {
            Node::Element { tag, children: rtc } => {
                if str_eq(tag.as_str(), "rt") {
                    if rtc.len() == 0 {
                        return Err(FlattenError::MalformedRubyNode);
                    }
                    match &rtc[0] {
                        Node::Text(t) => {
                            if first.is_none() {
                                first = Some(t.clone());
                                proof {
                                    first_idx = i as int;
                                }
                            }
                        },
                        Node::Element { .. } => {
                            return Err(FlattenError::MalformedRubyNode);
                        },
                    }
                }
            },
            Node::Text(_) => {},
        }
        i += 1;
    }
    match first {
        None => {
            proof {
                lemma_first_rt_index_none(children@);
            }
            Err(FlattenError::MalformedRubyNode)
        },
        Some(s) => {
            proof {
                lemma_first_rt_index_found(children@, first_idx);
            }
            Ok(NhkText { content: base, annotation: Some(s) })
        },
    }
}

/// A flattening result with a prefix of fragments already produced.
spec fn with_prefix(pre: Seq<FragmentView>, r: Result<Seq<FragmentView>, FlattenError>) -> Result<
    Seq<FragmentView>,
    FlattenError,
> {
    match r {
        Ok(t) => Ok(pre + t),
        Err(e) => Err(e),
    }
}

/// Flatten one sub-tree into its ordered fragment sequence, exactly as
/// `spec_flatten` describes: a text node yields one unannotated fragment, a
/// container concatenates its children's fragments in document order, a
/// ruby element yields one annotated fragment, and an unrecognized element
/// yields nothing.
pub fn flatten_subtree(root: &Node) -> (r: Result<Vec<NhkText>, FlattenError>)
    ensures
        flatten_result_view(r) == spec_flatten(*root),
    decreases *root,
{
    match root {
        Node::Text(t) => {
            let mut v: Vec<NhkText> = Vec::new();
            v.push(NhkText { content: t.clone(), annotation: None });
            proof {
                assert(v.deep_view() =~= seq![FragmentView { content: t@, annotation: None }]);
            }
            Ok(v)
        },
        Node::Element { tag: _, children } => {
            let k = classify_node(root);
            if k == Kind::Paragraph || k == Kind::Link || k == Kind::InlineSpan {
                flatten_nodes(children)
            } else if k == Kind::Ruby {
                match handle_ruby(children) {
                    Ok(f) => {
                        let mut v: Vec<NhkText> = Vec::new();
                        let ghost fv = f@;
                        v.push(f);
                        proof {
                            assert(v.deep_view() =~= seq![fv]);
                        }
                        Ok(v)
                    },
                    Err(e) => Err(e),
                }
            } else {
                let v: Vec<NhkText> = Vec::new();
                proof {
                    assert(v.deep_view() =~= Seq::<FragmentView>::empty());
                }
                Ok(v)
            }
        },
    }
}

/// Flatten an ordered list of sibling nodes: classify each in document
/// order, skip the unrecognized ones, flatten the rest, and concatenate the
/// results; the first failure in document order is returned.
pub fn flatten_nodes(nodes: &Vec<Node>) -> (r: Result<Vec<NhkText>, FlattenError>)
    ensures
        flatten_result_view(r) == spec_flatten_children(nodes@),
    decreases nodes@,
{
    let mut out: Vec<NhkText> = Vec::new();
    let mut i: usize = 0;
    proof {
        assert(nodes@.subrange(0, nodes@.len() as int) =~= nodes@);
        assert(out.deep_view() =~= Seq::<FragmentView>::empty());
        if let Ok(t) = spec_flatten_children(nodes@) {
            assert(Seq::<FragmentView>::empty() + t =~= t);
        }
    }
    while i < nodes.len()
        invariant
            0 <= i <= nodes@.len(),
            spec_flatten_children(nodes@) == with_prefix(
                out.deep_view(),
                spec_flatten_children(nodes@.subrange(i as int, nodes@.len() as int)),
            ),
        decreases nodes@.len() - i,
    {
        let ghost suf = nodes@.subrange(i as int, nodes@.len() as int);
        proof {
            assert(suf[0] == nodes@[i as int]);
            assert(suf.subrange(1, suf.len() as int) =~= nodes@.subrange(
                i as int + 1,
                nodes@.len() as int,
            ));
        }
        match flatten_subtree(&nodes[i]) {
            Ok(mut f) => {
                let ghost old_out = out.deep_view();
                let ghost fv = f.deep_view();
                out.append(&mut f);
                proof {
                    assert(out.deep_view() =~= old_out + fv);
                    if let Ok(t) = spec_flatten_children(
                        nodes@.subrange(i as int + 1, nodes@.len() as int),
                    ) {
                        assert(old_out + (fv + t) =~= (old_out + fv) + t);
                    }
                }
            },
            Err(e) => {
                return Err(e);
            },
        }
        i += 1;
    }
    proof {
        assert(nodes@.subrange(i as int, nodes@.len() as int) =~= Seq::<Node>::empty());
        assert(out.deep_view() + Seq::<FragmentView>::empty() =~= out.deep_view());
    }
    Ok(out)
}

} // verus!
