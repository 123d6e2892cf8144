//! The concrete syntax tree that lowering reads: one [`SyntaxNode`] per node
//! of the C parser's tree, holding as plain values what lowering looks at (the
//! node kind, whether it is named, the field it fills in its parent, its byte
//! range and its children).
//!
//! [`parse_source`] produces such a tree from C source text with the
//! tree-sitter C grammar.
use vstd::prelude::*;

use crate::text::str_eq;

verus! {

/// A node of a C syntax tree.
#[derive(Debug)]
pub struct SyntaxNode {
    /// The grammar symbol, e.g. `"binary_expression"`.
    pub kind: String,
    /// Named nodes stand for grammar rules; anonymous ones for literal tokens
    /// such as `"("` or `"+"`.
    pub is_named: bool,
    /// The field this node fills in its parent, e.g. `"left"`.
    pub field: Option<String>,
    pub start_byte: usize,
    pub end_byte: usize,
    /// All children, named and anonymous, in source order.
    pub children: Vec<SyntaxNode>,
}

// ---------------------------------------------------------------------------
// Model
// ---------------------------------------------------------------------------

/// Every byte range in the tree is ordered and lies within `len` bytes.
pub open spec fn within(n: SyntaxNode, len: nat) -> bool
    decreases n,
{
    n.start_byte <= n.end_byte <= len && all_within(n.children@, len)
}

pub open spec fn all_within(s: Seq<SyntaxNode>, len: nat) -> bool
    decreases s,
{
    s.len() > 0 ==> all_within(s.subrange(0, s.len() - 1), len) && within(s[s.len() - 1], len)
}

pub proof fn lemma_all_within(s: Seq<SyntaxNode>, len: nat)
    requires
        all_within(s, len),
    ensures
        forall|i: int| 0 <= i < s.len() ==> within(#[trigger] s[i], len),
    decreases s.len(),
{
    if s.len() > 0 {
        let prefix = s.subrange(0, s.len() - 1);
        lemma_all_within(prefix, len);
        assert forall|i: int| 0 <= i < s.len() implies within(#[trigger] s[i], len) by {
            if i < s.len() - 1 {
                assert(s[i] == prefix[i]);
            }
        }
    }
}

/// The children of a node lie within the same bounds as the node.
pub proof fn lemma_child_within(n: SyntaxNode, len: nat, i: int)
    requires
        within(n, len),
        0 <= i < n.children@.len(),
    ensures
        within(n.children@[i], len),
{
    lemma_all_within(n.children@, len);
}

pub open spec fn has_field(n: SyntaxNode, name: Seq<char>) -> bool {
    n.field matches Some(f) && f@ == name
}

/// The first child at or after `i` that fills the field `name`.
pub open spec fn field_index_from(children: Seq<SyntaxNode>, name: Seq<char>, i: int) -> Option<int>
    decreases children.len() - i,
{
    if i < 0 || i >= children.len() {
        None
    } else if has_field(children[i], name) {
        Some(i)
    } else {
        field_index_from(children, name, i + 1)
    }
}

/// The position of the first child of `n` that fills the field `name`.
pub open spec fn field_index(n: SyntaxNode, name: Seq<char>) -> Option<int> {
    field_index_from(n.children@, name, 0)
}

/// The first named child at or after `i`.
pub open spec fn named_index_from(children: Seq<SyntaxNode>, i: int) -> Option<int>
    decreases children.len() - i,
{
    if i < 0 || i >= children.len() {
        None
    } else if children[i].is_named {
        Some(i)
    } else {
        named_index_from(children, i + 1)
    }
}

/// The position of the first named child of `n`.
pub open spec fn named_index(n: SyntaxNode) -> Option<int> {
    named_index_from(n.children@, 0)
}

/// How many of the first `k` children are named.
pub open spec fn named_count_upto(children: Seq<SyntaxNode>, k: int) -> nat
    decreases k,
{
    if k <= 0 || k > children.len() {
        0
    } else {
        named_count_upto(children, k - 1) + if children[k - 1].is_named {
            1nat
        } else {
            0nat
        }
    }
}

pub open spec fn named_count(n: SyntaxNode) -> nat {
    named_count_upto(n.children@, n.children@.len() as int)
}

pub proof fn lemma_field_index_from(children: Seq<SyntaxNode>, name: Seq<char>, i: int)
    ensures
        field_index_from(children, name, i) matches Some(j) ==> i <= j < children.len()
            && has_field(children[j], name),
    decreases children.len() - i,
{
    if 0 <= i < children.len() && !has_field(children[i], name) {
        lemma_field_index_from(children, name, i + 1);
    }
}

pub proof fn lemma_field_index(n: SyntaxNode, name: Seq<char>)
    ensures
        field_index(n, name) matches Some(j) ==> 0 <= j < n.children@.len() && has_field(
            n.children@[j],
            name,
        ),
{
    lemma_field_index_from(n.children@, name, 0);
}

pub proof fn lemma_named_index_from(children: Seq<SyntaxNode>, i: int)
    ensures
        named_index_from(children, i) matches Some(j) ==> i <= j < children.len()
            && children[j].is_named,
    decreases children.len() - i,
{
    if 0 <= i < children.len() && !children[i].is_named {
        lemma_named_index_from(children, i + 1);
    }
}

pub proof fn lemma_named_index(n: SyntaxNode)
    ensures
        named_index(n) matches Some(j) ==> 0 <= j < n.children@.len() && n.children@[j].is_named,
{
    lemma_named_index_from(n.children@, 0);
}

// ---------------------------------------------------------------------------
// Queries
// ---------------------------------------------------------------------------

impl SyntaxNode {
    /// Whether this node's kind is `kind`.
    pub fn kind_is(&self, kind: &str) -> (is: bool)
        ensures
            is == (self.kind@ == kind@),
    {
        str_eq(self.kind.as_str(), kind)
    }

    /// The position among the children of the first child filling the field
    /// `name`.
    pub fn child_index_by_field_name(&self, name: &str) -> (index: Option<usize>)
        ensures
            index matches Some(i) ==> field_index(*self, name@) == Some(i as int),
            index is None ==> field_index(*self, name@) is None,
    {
        let mut i: usize = 0;
        while i < self.children.len()
            invariant
                i <= self.children@.len(),
                field_index(*self, name@) == field_index_from(self.children@, name@, i as int),
            decreases self.children@.len() - i,
        {
            let found = match &self.children[i].field {
                Some(field) => str_eq(field.as_str(), name),
                None => false,
            };
            if found {
                return Some(i);
            }
            i = i + 1;
        }
        None
    }

    /// The position among the children of the first named child.
    pub fn named_child_index(&self) -> (index: Option<usize>)
        ensures
            index matches Some(i) ==> named_index(*self) == Some(i as int),
            index is None ==> named_index(*self) is None,
    {
        let mut i: usize = 0;
        while i < self.children.len()
            invariant
                i <= self.children@.len(),
                named_index(*self) == named_index_from(self.children@, i as int),
            decreases self.children@.len() - i,
        {
            if self.children[i].is_named {
                return Some(i);
            }
            i = i + 1;
        }
        None
    }

    /// Whether every byte range in this tree is ordered and lies within `len`
    /// bytes.
    pub fn fits_within(&self, len: usize) -> (fits: bool)
        ensures
            fits == within(*self, len as nat),
        decreases self,
    {
        if !(self.start_byte <= self.end_byte && self.end_byte <= len) {
            return false;
        }
        let mut i: usize = 0;
        while i < self.children.len()
            invariant
                i <= self.children@.len(),
                all_within(self.children@.subrange(0, i as int), len as nat),
            decreases self.children@.len() - i,
        {
            proof {
                let next = self.children@.subrange(0, i + 1);
                assert(next.subrange(0, next.len() - 1) =~= self.children@.subrange(0, i as int));
                assert(next[next.len() - 1] == self.children@[i as int]);
            }
            if !self.children[i].fits_within(len) {
                proof {
                    if all_within(self.children@, len as nat) {
                        lemma_all_within(self.children@, len as nat);
                    }
                }
                return false;
            }
            i = i + 1;
        }
        assert(self.children@.subrange(0, self.children@.len() as int) =~= self.children@);
        true
    }

    /// The number of named children.
    pub fn named_child_count(&self) -> (count: usize)
        ensures
            count == named_count(*self),
    {
        let mut count: usize = 0;
        let mut i: usize = 0;
        while i < self.children.len()
            invariant
                i <= self.children@.len(),
                count == named_count_upto(self.children@, i as int),
                count <= i,
            decreases self.children@.len() - i,
        {
            if self.children[i].is_named {
                count = count + 1;
            }
            i = i + 1;
        }
        count
    }
}

// ---------------------------------------------------------------------------
// Parsing
// ---------------------------------------------------------------------------

/// The syntax tree the tree-sitter C grammar gives `source`, or `None` when
/// the parser cannot be set up or gives no tree.
pub uninterp spec fn c_syntax_tree(source: Seq<char>) -> Option<SyntaxNode>;

/// Parses `source` with `tree_sitter::Parser` set to `tree_sitter_c::LANGUAGE`
/// and copies the resulting tree, node for node, into a [`SyntaxNode`].
///
/// The contract claims only that the result is a function of the source text
/// (named [`c_syntax_tree`]); it says nothing of the tree's shape, which is the
/// grammar's business.
#[verifier::external_body]
fn parse_with_tree_sitter(source: &str) -> (tree: Option<SyntaxNode>)
    ensures
        tree == c_syntax_tree(source@),
{
    let mut parser = tree_sitter::Parser::new();
    parser.set_language(&tree_sitter_c::LANGUAGE.into()).ok()?;
    let tree = parser.parse(source, None)?;
    let mut cursor = tree.walk();
    let root = copy_subtree(&mut cursor);
    Some(root)
}

/// The tree-sitter cursor, carried through [`copy_subtree`].
#[verifier::external_type_specification]
#[verifier::external_body]
pub struct ExTreeCursor<'tree>(tree_sitter::TreeCursor<'tree>);

/// Copies the node under `cursor` and its subtree into a [`SyntaxNode`],
/// leaving the cursor where it was. Only [`parse_with_tree_sitter`] uses it,
/// to convert the parser's result.
#[verifier::external_body]
fn copy_subtree(cursor: &mut tree_sitter::TreeCursor) -> SyntaxNode {
    let node = cursor.node();
    let field = cursor.field_name().map(String::from);
    let mut children = Vec::new();
    let mut more = cursor.goto_first_child();
    while more {
        children.push(copy_subtree(cursor));
        more = cursor.goto_next_sibling();
    }
    if !children.is_empty() {
        cursor.goto_parent();
    }
    let (kind, is_named, start_byte, end_byte) = (node.kind().to_string(), node.is_named(), node.start_byte(), node.end_byte());
    SyntaxNode { kind, is_named, field, start_byte, end_byte, children }
}

/// Parses C source text into its syntax tree.
pub fn parse_source(source: &str) -> (tree: Option<SyntaxNode>)
    ensures
        tree == c_syntax_tree(source@),
{
    parse_with_tree_sitter(source)
}

} // verus!
