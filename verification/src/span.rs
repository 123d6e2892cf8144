//! Byte ranges into a source file, and trees of them.
use vstd::prelude::*;
use vstd::string::*;
use vstd::utf8::*;

verus! {
broadcast use vstd::std_specs::vec::group_vec_axioms;

/// A half-open byte range `start..end` of a source text.
#[derive(Clone, Copy, Debug, Default, Hash, PartialEq, Eq, PartialOrd, Ord, Structural)]
pub struct Span {
    pub start: usize,
    pub end: usize,
}

/// A byte index of a prefix of valid UTF-8 is a character boundary there
/// exactly when it is one in the whole.
proof fn lemma_boundary_in_prefix(bytes: Seq<u8>, i: int, end: int)
    requires
        valid_utf8(bytes),
        0 <= i <= end <= bytes.len(),
        is_char_boundary(bytes, i),
        is_char_boundary(bytes, end),
    ensures
        valid_utf8(bytes.subrange(0, end)),
        is_char_boundary(bytes.subrange(0, end), i),
{
    let prefix = bytes.subrange(0, end);
    valid_utf8_split(bytes, end);
    if i == end {
        is_char_boundary_start_end_of_seq(prefix);
    } else if i > 0 {
        is_char_boundary_iff_not_is_continuation_byte(bytes, i);
        is_char_boundary_iff_not_is_continuation_byte(prefix, i);
    }
}

impl Span {
    pub fn new(start: usize, end: usize) -> (span: Self)
        ensures
            span == (Span { start, end }),
    {
        Span { start, end }
    }

    /// The text this span covers in `src`.
    ///
    /// Both ends must fall on character boundaries of `src`, as for `&src[start..end]`.
    pub fn slice<'a>(&self, src: &'a str) -> (text: &'a str)
        requires
            self.start <= self.end,
            is_char_boundary(src.spec_bytes(), self.start as int),
            is_char_boundary(src.spec_bytes(), self.end as int),
        ensures
            text.spec_bytes() == src.spec_bytes().subrange(self.start as int, self.end as int),
    {
        proof {
            broadcast use encode_utf8_valid_utf8;

            let bytes = src.spec_bytes();
            assert(valid_utf8(bytes));
            // A boundary is never past the end of the bytes.
            assert(self.end <= bytes.len());
            lemma_boundary_in_prefix(bytes, self.start as int, self.end as int);
        }
        let (head, _) = src.split_at(self.end);
        proof {
            assert(head.spec_bytes() =~= src.spec_bytes().subrange(0, self.end as int));
        }
        let (_, text) = head.split_at(self.start);
        assert(text.spec_bytes() =~= src.spec_bytes().subrange(
            self.start as int,
            self.end as int,
        ));
        text
    }
}

/// A span together with the spans of the nodes beneath it.
#[derive(Debug)]
pub struct SpanTree {
    pub span: Span,
    pub children: Vec<SpanTree>,
}

impl SpanTree {
    /// The two trees hold the same spans in the same shape.
    pub open spec fn same_as(self, other: SpanTree) -> bool
        decreases self,
    {
        self.span == other.span && same_trees(self.children@, other.children@)
    }
}

/// Two lists of trees that pair up, position by position, with [`SpanTree::same_as`].
pub open spec fn same_trees(a: Seq<SpanTree>, b: Seq<SpanTree>) -> bool
    decreases a,
{
    &&& a.len() == b.len()
    &&& a.len() > 0 ==> {
        &&& same_trees(a.subrange(0, a.len() - 1), b.subrange(0, b.len() - 1))
        &&& a[a.len() - 1].same_as(b[b.len() - 1])
    }
}

impl Clone for SpanTree {
    fn clone(&self) -> (copy: Self)
        ensures
            copy.same_as(*self),
        decreases self,
    {
        let mut children: Vec<SpanTree> = Vec::new();
        let mut i: usize = 0;
        while i < self.children.len()
            invariant
                i <= self.children@.len(),
                same_trees(children@, self.children@.subrange(0, i as int)),
            decreases self.children@.len() - i,
        {
            let ghost before = children@;
            children.push(self.children[i].clone());
            proof {
                assert(children@.subrange(0, children@.len() - 1) =~= before);
                assert(self.children@.subrange(0, i + 1).subrange(0, i as int) =~= self.children@.subrange(0, i as int));
            }
            i = i + 1;
        }
        assert(self.children@.subrange(0, self.children@.len() as int) =~= self.children@);
        SpanTree { span: self.span, children }
    }
}

impl SpanTree {
    pub fn leaf(span: Span) -> (tree: Self)
        ensures
            tree.span == span,
            tree.children@.len() == 0,
    {
        SpanTree { span, children: Vec::new() }
    }

    pub fn node(span: Span, children: Vec<SpanTree>) -> (tree: Self)
        ensures
            tree.span == span,
            tree.children == children,
    {
        SpanTree { span, children }
    }
}

} // verus!
