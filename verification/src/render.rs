//! The fragment renderer: joins an ordered sequence of fragments into one
//! string, with no separator between fragments.

use vstd::prelude::*;
use vstd::string::StringExecFns;

use crate::node::FragmentView;
use crate::node::NhkText;

verus! {

/// One rendered fragment: the content alone, or `content[annotation]`.
pub open spec fn spec_render_fragment(f: FragmentView) -> Seq<char> {
    match f.annotation {
        None => f.content,
        Some(a) => f.content + "["@ + a + "]"@,
    }
}

/// A rendered fragment sequence: each fragment rendered, concatenated in
/// sequence order with no separator.
pub open spec fn spec_render(fs: Seq<FragmentView>) -> Seq<char>
    decreases fs.len(),
{
    if fs.len() == 0 {
        Seq::empty()
    } else {
        spec_render_fragment(fs[0]) + spec_render(fs.subrange(1, fs.len() as int))
    }
}

impl NhkText {
    /// Render this one fragment as `content` or `content[annotation]`.
    pub fn to_string(&self) -> (r: String)
        ensures
            r@ == spec_render_fragment(self@),
    {
        match &self.annotation {
            Some(a) => {
                let mut s = self.content.clone();
                s.append("[");
                s.append(a.as_str());
                s.append("]");
                proof {
                    assert(((self.content@ + "["@) + a@) + "]"@ =~= self.content@ + "["@ + a@
                        + "]"@);
                }
                s
            },
            None => self.content.clone(),
        }
    }
}

/// Render a fragment sequence into one string: each fragment as
/// `NhkText::to_string` gives it, concatenated in order with no separator.
pub fn render(fragments: &Vec<NhkText>) -> (r: String)
    ensures
        r@ == spec_render(fragments.deep_view()),
{
    let ghost fs = fragments.deep_view();
    let mut s = String::new();
    let mut i: usize = 0;
    proof {
        assert(fs.subrange(0, fs.len() as int) =~= fs);
        assert(Seq::<char>::empty() + spec_render(fs) =~= spec_render(fs));
    }
    while i < fragments.len()
        invariant
            0 <= i <= fragments@.len(),
            fs == fragments.deep_view(),
            fs.len() == fragments@.len(),
            s@ + spec_render(fs.subrange(i as int, fs.len() as int)) == spec_render(fs),
        decreases fragments@.len() - i,
    {
        let ghost suf = fs.subrange(i as int, fs.len() as int);
        proof {
            assert(suf[0] == fs[i as int]);
            assert(fs[i as int] == fragments@[i as int]@);
            assert(suf.subrange(1, suf.len() as int) =~= fs.subrange(
                i as int + 1,
                fs.len() as int,
            ));
        }
        let piece = fragments[i].to_string();
        let ghost s_old = s@;
        s.append(piece.as_str());
        proof {
            assert((s_old + spec_render_fragment(fs[i as int])) + spec_render(
                fs.subrange(i as int + 1, fs.len() as int),
            ) =~= s_old + (spec_render_fragment(fs[i as int]) + spec_render(
                fs.subrange(i as int + 1, fs.len() as int),
            )));
        }
        i += 1;
    }
    proof {
        assert(fs.subrange(i as int, fs.len() as int) =~= Seq::<FragmentView>::empty());
        assert(s@ + Seq::<char>::empty() =~= s@);
    }
    s
}

} // verus!
