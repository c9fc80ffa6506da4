//! One component of a decomposed path.

use vstd::prelude::*;
use vstd::string::StringExecFns;

verus! {

/// The mathematical value of a [`Segment`].
pub enum SegmentView {
    Root,
    CurDir,
    ParentDir,
    Normal(Seq<char>),
}

/// A path component: the anchor of an absolute path, the two directory
/// markers, or an ordinary name.
#[derive(Debug, Clone, PartialEq, Eq, Hash)]
pub enum Segment {
    Root,
    CurDir,
    ParentDir,
    Normal(String),
}

impl View for Segment {
    type V = SegmentView;

    open spec fn view(&self) -> SegmentView {
        match self {
            Segment::Root => SegmentView::Root,
            Segment::CurDir => SegmentView::CurDir,
            Segment::ParentDir => SegmentView::ParentDir,
            Segment::Normal(s) => SegmentView::Normal(s@),
        }
    }
}

impl SegmentView {
    /// The text that a listing shows for this segment.
    pub open spec fn text(self) -> Seq<char> {
        match self {
            SegmentView::Root => seq!['/'],
            SegmentView::CurDir => seq!['.'],
            SegmentView::ParentDir => seq!['.', '.'],
            SegmentView::Normal(s) => s,
        }
    }
}

/// The values of a sequence of segments, in order.
pub open spec fn segment_views(segments: Seq<Segment>) -> Seq<SegmentView> {
    Seq::new(segments.len(), |i: int| segments[i]@)
}

impl Segment {
    /// An ordinary name segment holding `text`.
    pub fn normal(text: &str) -> (s: Segment)
        ensures
            s@ == SegmentView::Normal(text@),
    {
        Segment::Normal(String::from_str(text))
    }

    /// Whether two segments are of the same kind and, for names, hold the
    /// same text.
    pub fn same(&self, other: &Segment) -> (b: bool)
        ensures
            b == (self@ == other@),
    {
        match self {
            Segment::Root => matches!(other, Segment::Root),
            Segment::CurDir => matches!(other, Segment::CurDir),
            Segment::ParentDir => matches!(other, Segment::ParentDir),
            Segment::Normal(a) => match other {
                Segment::Normal(b) => *a == *b,
                _ => false,
            },
        }
    }

    /// A copy of this segment.
    pub fn duplicate(&self) -> (s: Segment)
        ensures
            s@ == self@,
    {
        match self {
            Segment::Root => Segment::Root,
            Segment::CurDir => Segment::CurDir,
            Segment::ParentDir => Segment::ParentDir,
            Segment::Normal(a) => Segment::Normal(a.clone()),
        }
    }

    /// The text that a listing shows for this segment.
    pub fn text(&self) -> (s: String)
        ensures
            s@ == self@.text(),
    {
        match self {
            Segment::Root => {
                proof {
                    reveal_strlit("/");
                }
                assert("/"@ =~= seq!['/']);
                String::from_str("/")
            },
            Segment::CurDir => {
                proof {
                    reveal_strlit(".");
                }
                assert("."@ =~= seq!['.']);
                String::from_str(".")
            },
            Segment::ParentDir => {
                proof {
                    reveal_strlit("..");
                }
                assert(".."@ =~= seq!['.', '.']);
                String::from_str("..")
            },
            Segment::Normal(a) => a.clone(),
        }
    }
}

} // verus!
