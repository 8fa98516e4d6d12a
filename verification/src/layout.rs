//! Text layout: from measured text fragments to the lines of the marquee.

use vstd::prelude::*;
use crate::data::TextLine;

verus! {

/// A raw text fragment, already cut at the line breaks and trimmed, with
/// the pixel bounding box that it was measured to have under the active
/// font and size.
pub struct Fragment {
    pub text: String,
    pub width: u32,
    pub height: u32,
}

/// The line that a fragment becomes: it holds the fragment's text and
/// measured box and is not scheduled. An empty fragment becomes an empty
/// line without extent.
pub open spec fn line_of(fragment: Fragment) -> TextLine {
    TextLine {
        line: fragment.text,
        line_height: if fragment.text@.len() == 0 {
            0
        } else {
            fragment.height
        },
        line_width: if fragment.text@.len() == 0 {
            0
        } else {
            fragment.width
        },
        line_offset: None,
    }
}

/// The lines that a sequence of fragments becomes: one per fragment, in order.
pub open spec fn layout_of(fragments: Seq<Fragment>) -> Seq<TextLine> {
    Seq::new(fragments.len(), |i: int| line_of(fragments[i]))
}

/// Layout is a function of the texts and their measured boxes alone: two
/// layouts of fragments that agree in these agree in every line's text and
/// extent, and leave every line not scheduled.
pub proof fn lemma_layout_repeats(a: Seq<Fragment>, b: Seq<Fragment>)
    requires
        a.len() == b.len(),
        forall|i: int|
            0 <= i < a.len() ==> {
                &&& (#[trigger] a[i]).text@ == b[i].text@
                &&& a[i].width == b[i].width
                &&& a[i].height == b[i].height
            },
    ensures
        layout_of(a).len() == layout_of(b).len(),
        forall|i: int|
            0 <= i < a.len() ==> {
                &&& (#[trigger] layout_of(a)[i]).line@ == layout_of(b)[i].line@
                &&& layout_of(a)[i].line_width == layout_of(b)[i].line_width
                &&& layout_of(a)[i].line_height == layout_of(b)[i].line_height
                &&& layout_of(a)[i].line_offset is None
                &&& layout_of(b)[i].line_offset is None
            },
{
    assert forall|i: int| 0 <= i < a.len() implies {
        &&& (#[trigger] layout_of(a)[i]).line@ == layout_of(b)[i].line@
        &&& layout_of(a)[i].line_width == layout_of(b)[i].line_width
        &&& layout_of(a)[i].line_height == layout_of(b)[i].line_height
        &&& layout_of(a)[i].line_offset is None
        &&& layout_of(b)[i].line_offset is None
    } by {
        assert(a[i].text@ == b[i].text@);
    }
}

/// Lays out measured fragments as the lines of a marquee: one line per
/// fragment, in order, none left out, each with its fragment's text and
/// measured box and not scheduled. Empty fragments are kept as empty lines
/// without extent.
pub fn layout(fragments: &Vec<Fragment>) -> (lines: Vec<TextLine>)
    ensures
        lines@ == layout_of(fragments@),
{
    let n = fragments.len();
    let mut lines: Vec<TextLine> = Vec::new();
    let mut i: usize = 0;
    while i < n
        invariant
            i <= n,
            n == fragments@.len(),
            lines@ == layout_of(fragments@.take(i as int)),
        decreases n - i,
    {
        let fragment = &fragments[i];
        let empty = fragment.text.as_str().is_empty();
        lines.push(
            TextLine {
                line: fragment.text.clone(),
                line_height: if empty {
                    0
                } else {
                    fragment.height
                },
                line_width: if empty {
                    0
                } else {
                    fragment.width
                },
                line_offset: None,
            },
        );
        proof {
            assert(lines@ =~= layout_of(fragments@.take(i + 1)));
        }
        i += 1;
    }
    proof {
        assert(fragments@.take(n as int) =~= fragments@);
    }
    lines
}

} // verus!
