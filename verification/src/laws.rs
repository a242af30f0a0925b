//! Laws of the flattener and renderer, stated over the specification
//! functions that the executable contracts are proved against.

use vstd::prelude::*;

use crate::classify::is_container_kind;
use crate::classify::spec_classify;
use crate::classify::Kind;
use crate::flatten::spec_flatten;
use crate::flatten::spec_flatten_children;
use crate::flatten::FlattenError;
use crate::node::FragmentView;
use crate::node::NhkText;
use crate::node::Node;
use crate::render::spec_render;

verus! {

/// Law: rendering a flattening is a pure function of the tree. Any two
/// fragment vectors that satisfy the flattener's contract for the same tree
/// carry the same fragments, so the rendered strings have the same
/// characters: repeated calls produce identical output.
pub proof fn lemma_flatten_render_pure(root: Node, v1: Vec<NhkText>, v2: Vec<NhkText>)
    requires
        spec_flatten(root) == Ok::<Seq<FragmentView>, FlattenError>(v1.deep_view()),
        spec_flatten(root) == Ok::<Seq<FragmentView>, FlattenError>(v2.deep_view()),
    ensures
        v1.deep_view() == v2.deep_view(),
        spec_render(v1.deep_view()) == spec_render(v2.deep_view()),
{
}

/// Law: order preservation. A container element with children `[a, b, c]`
/// flattens to the flattening of `a`, then of `b`, then of `c`,
/// concatenated in that order — never reordered.
pub proof fn lemma_container_order(
    n: Node,
    a: Node,
    b: Node,
    c: Node,
    fa: Seq<FragmentView>,
    fb: Seq<FragmentView>,
    fc: Seq<FragmentView>,
)
    requires
        n matches Node::Element { tag: _, children } && children@ == seq![a, b, c],
        is_container_kind(spec_classify(n)),
        spec_flatten(a) == Ok::<Seq<FragmentView>, FlattenError>(fa),
        spec_flatten(b) == Ok::<Seq<FragmentView>, FlattenError>(fb),
        spec_flatten(c) == Ok::<Seq<FragmentView>, FlattenError>(fc),
    ensures
        spec_flatten(n) == Ok::<Seq<FragmentView>, FlattenError>(fa + fb + fc),
{
    let cs = seq![a, b, c];
    let cs1 = cs.subrange(1, 3);
    let cs2 = cs1.subrange(1, 2);
    assert(spec_flatten_children(Seq::<Node>::empty()) == Ok::<Seq<FragmentView>, FlattenError>(
        Seq::empty(),
    ));
    assert(cs2[0] == c);
    assert(cs2.subrange(1, 1) =~= Seq::<Node>::empty());
    assert(fc + Seq::<FragmentView>::empty() =~= fc);
    assert(spec_flatten_children(cs2) == Ok::<Seq<FragmentView>, FlattenError>(fc));
    assert(cs1[0] == b);
    assert(cs1.subrange(1, 2) =~= cs2);
    assert(spec_flatten_children(cs1) == Ok::<Seq<FragmentView>, FlattenError>(fb + fc));
    assert(cs[0] == a);
    assert(cs.subrange(1, 3) =~= cs1);
    assert(spec_flatten_children(cs) == Ok::<Seq<FragmentView>, FlattenError>(fa + (fb + fc)));
    assert(fa + (fb + fc) =~= fa + fb + fc);
}

/// Law: unrecognized-skip. Inserting an element with an unrecognized tag
/// name anywhere among a list of sibling nodes leaves the flattening of the
/// list unchanged — and with it the rendered output.
pub proof fn lemma_unrecognized_skip(cs: Seq<Node>, k: int, u: Node)
    requires
        0 <= k <= cs.len(),
        spec_classify(u) == Kind::Unrecognized,
    ensures
        spec_flatten_children(cs.insert(k, u)) == spec_flatten_children(cs),
    decreases cs.len(),
{
    let cs2 = cs.insert(k, u);
    assert(cs2.len() == cs.len() + 1);
    if k == 0 {
        assert(cs2[0] == u);
        assert(spec_flatten(u) == Ok::<Seq<FragmentView>, FlattenError>(Seq::empty()));
        assert(cs2.subrange(1, cs2.len() as int) =~= cs);
        if let Ok(t) = spec_flatten_children(cs) {
            assert(Seq::<FragmentView>::empty() + t =~= t);
        }
    } else {
        assert(cs2[0] == cs[0]);
        let tail = cs.subrange(1, cs.len() as int);
        lemma_unrecognized_skip(tail, k - 1, u);
        assert(cs2.subrange(1, cs2.len() as int) =~= tail.insert(k - 1, u));
    }
}

} // verus!
