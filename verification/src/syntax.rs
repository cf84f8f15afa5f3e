//! JavaScript syntax trees, as `tree-sitter` builds them, held as the list of
//! their nodes in pre-order, each with its depth.

use vstd::prelude::*;

verus! {

/// A node of a syntax tree: its kind, the field of its parent that holds it,
/// whether it is named, its source text and its depth below the root.
#[derive(Debug)]
pub struct SyntaxNode {
    pub kind: String,
    pub field: Option<String>,
    pub named: bool,
    pub text: String,
    pub depth: usize,
}

/// The model of a [`SyntaxNode`].
pub struct NodeModel {
    pub kind: Seq<char>,
    pub field: Option<Seq<char>>,
    pub named: bool,
    pub text: Seq<char>,
    pub depth: nat,
}

impl View for SyntaxNode {
    type V = NodeModel;

    open spec fn view(&self) -> NodeModel {
        NodeModel {
            kind: self.kind@,
            field: match self.field {
                Some(f) => Some(f@),
                None => None,
            },
            named: self.named,
            text: self.text@,
            depth: self.depth as nat,
        }
    }
}

/// The models of a sequence of nodes.
pub open spec fn node_models(s: Seq<SyntaxNode>) -> Seq<NodeModel> {
    s.map_values(|n: SyntaxNode| n@)
}

/// The nodes, in pre-order, of the tree that `tree-sitter` with the
/// JavaScript grammar builds for `source`; `None` when it builds none.
pub uninterp spec fn javascript_syntax(source: Seq<char>) -> Option<Seq<NodeModel>>;

/// Parses `source` with `tree_sitter::Parser` set to
/// `tree_sitter_javascript::LANGUAGE`, then walks the tree with a
/// `TreeCursor` (`goto_descendant` over `0..root.descendant_count()`) and
/// reads of each node its kind, its field name, whether it is named, its text
/// (`source[node.byte_range()]`) and its depth. `None` when the language
/// cannot be set or the parser returns no tree.
/// Claimed: the result is `javascript_syntax` of the source, which holds
/// because the parse depends on nothing but the source text.
#[verifier::external_body]
fn javascript_syntax_nodes(source: &str) -> (r: Option<Vec<SyntaxNode>>)
    ensures
        match r {
            Some(ns) => javascript_syntax(source@) == Some(node_models(ns@)),
            None => javascript_syntax(source@) is None,
        },
{
    let mut parser = tree_sitter::Parser::new();
    parser.set_language(&tree_sitter_javascript::LANGUAGE.into()).ok()?;
    let tree = parser.parse(source, None)?;
    let mut cursor = tree.walk();
    Some((0..tree.root_node().descendant_count()).map(|i| {
        cursor.goto_descendant(i);
        let node = cursor.node();
        SyntaxNode {
            kind: node.kind().to_string(),
            field: cursor.field_name().map(str::to_string),
            named: node.is_named(),
            text: source[node.byte_range()].to_string(),
            depth: cursor.depth() as usize,
        }
    }).collect())
}

/// The end of the subtree of node `i`, scanning from `j`: the first node at
/// or after `j` that is no deeper than `i`, or the end of the list.
pub open spec fn subtree_end_from(t: Seq<NodeModel>, i: int, j: int) -> int
    decreases t.len() - j,
{
    if j >= t.len() {
        t.len() as int
    } else if t[j].depth <= t[i].depth {
        j
    } else {
        subtree_end_from(t, i, j + 1)
    }
}

/// One past the last node of the subtree of node `i`.
pub open spec fn subtree_end(t: Seq<NodeModel>, i: int) -> int {
    subtree_end_from(t, i, i + 1)
}

pub proof fn lemma_subtree_end_from_bounds(t: Seq<NodeModel>, i: int, j: int)
    requires
        0 <= j <= t.len(),
    ensures
        j <= subtree_end_from(t, i, j) <= t.len(),
    decreases t.len() - j,
{
    if j < t.len() && t[j].depth > t[i].depth {
        lemma_subtree_end_from_bounds(t, i, j + 1);
    }
}

/// The subtree of a node ends after the node and within the list.
pub proof fn lemma_subtree_end_bounds(t: Seq<NodeModel>, i: int)
    requires
        0 <= i < t.len(),
    ensures
        i < subtree_end(t, i) <= t.len(),
{
    lemma_subtree_end_from_bounds(t, i, i + 1);
}

/// The first child of the node whose subtree ends at `stop`, from child `c`
/// on, that satisfies `p`. Children are found by skipping subtrees.
pub open spec fn first_child_where(
    t: Seq<NodeModel>,
    c: int,
    stop: int,
    p: spec_fn(NodeModel) -> bool,
) -> Option<int>
    decreases t.len() - c,
{
    if c < 0 || c >= stop || c >= t.len() {
        None
    } else if p(t[c]) {
        Some(c)
    } else {
        proof {
            lemma_subtree_end_bounds(t, c);
        }
        first_child_where(t, subtree_end(t, c), stop, p)
    }
}

/// The first child of node `i` held in field `f`
/// (`Node::child_by_field_name`).
pub open spec fn field_child(t: Seq<NodeModel>, i: int, f: Seq<char>) -> Option<int> {
    first_child_where(t, i + 1, subtree_end(t, i), |n: NodeModel| n.field == Some(f))
}

/// The first named child of node `i` (`Node::named_child(0)`).
pub open spec fn first_named_child(t: Seq<NodeModel>, i: int) -> Option<int> {
    first_child_where(t, i + 1, subtree_end(t, i), |n: NodeModel| n.named)
}

/// A JavaScript syntax tree.
pub struct SyntaxTree {
    pub nodes: Vec<SyntaxNode>,
}

impl View for SyntaxTree {
    type V = Seq<NodeModel>;

    open spec fn view(&self) -> Seq<NodeModel> {
        node_models(self.nodes@)
    }
}

impl SyntaxTree {
    /// The tree that `tree-sitter` builds for `source`.
    pub fn parse_javascript(source: &str) -> (r: Option<SyntaxTree>)
        ensures
            match r {
                Some(t) => javascript_syntax(source@) == Some(t@),
                None => javascript_syntax(source@) is None,
            },
    {
        match javascript_syntax_nodes(source) {
            Some(nodes) => Some(SyntaxTree { nodes }),
            None => None,
        }
    }

    /// The number of nodes.
    pub fn len(&self) -> (r: usize)
        ensures
            r == self@.len(),
    {
        self.nodes.len()
    }

    /// Whether node `i` is of kind `kind`.
    pub fn kind_is(&self, i: usize, kind: &str) -> (r: bool)
        requires
            i < self@.len(),
        ensures
            r == (self@[i as int].kind == kind@),
    {
        self.nodes[i].kind == kind.to_owned()
    }

    /// Whether the text of node `i` is `text`.
    pub fn text_is(&self, i: usize, text: &str) -> (r: bool)
        requires
            i < self@.len(),
        ensures
            r == (self@[i as int].text == text@),
    {
        self.nodes[i].text == text.to_owned()
    }

    /// One past the last node of the subtree of node `i`.
    pub fn subtree_end(&self, i: usize) -> (r: usize)
        requires
            i < self@.len(),
        ensures
            r == subtree_end(self@, i as int),
            i < r <= self@.len(),
    {
        proof {
            lemma_subtree_end_bounds(self@, i as int);
        }
        let depth = self.nodes[i].depth;
        let n = self.nodes.len();
        let mut j = i + 1;
        while j < self.nodes.len() && self.nodes[j].depth > depth
            invariant
                i < j <= self@.len(),
                depth == self@[i as int].depth,
                subtree_end(self@, i as int) == subtree_end_from(self@, i as int, j as int),
            decreases self.nodes.len() - j,
        {
            j = j + 1;
        }
        j
    }

    /// The first child of node `i` held in field `field`.
    pub fn child_by_field_name(&self, i: usize, field: &str) -> (r: Option<usize>)
        requires
            i < self@.len(),
        ensures
            match r {
                Some(c) => field_child(self@, i as int, field@) == Some(c as int) && c < self@.len(),
                None => field_child(self@, i as int, field@) is None,
            },
    {
        let stop = self.subtree_end(i);
        let ghost p = |n: NodeModel| n.field == Some(field@);
        let owned = field.to_owned();
        let mut c = i + 1;
        while c < stop
            invariant
                i < c <= self@.len(),
                stop == subtree_end(self@, i as int),
                stop <= self@.len(),
                owned@ == field@,
                p == (|n: NodeModel| n.field == Some(field@)),
                field_child(self@, i as int, field@) == first_child_where(
                    self@,
                    c as int,
                    stop as int,
                    p,
                ),
            decreases self.nodes.len() - c,
        {
            let hit = match &self.nodes[c].field {
                Some(f) => *f == owned,
                None => false,
            };
            if hit {
                return Some(c);
            }
            c = self.subtree_end(c);
        }
        None
    }

    /// The first named child of node `i`.
    pub fn first_named_child(&self, i: usize) -> (r: Option<usize>)
        requires
            i < self@.len(),
        ensures
            match r {
                Some(c) => first_named_child(self@, i as int) == Some(c as int) && c < self@.len(),
                None => first_named_child(self@, i as int) is None,
            },
    {
        let stop = self.subtree_end(i);
        let ghost p = |n: NodeModel| n.named;
        let mut c = i + 1;
        while c < stop
            invariant
                i < c <= self@.len(),
                stop == subtree_end(self@, i as int),
                stop <= self@.len(),
                p == (|n: NodeModel| n.named),
                first_named_child(self@, i as int) == first_child_where(
                    self@,
                    c as int,
                    stop as int,
                    p,
                ),
            decreases self.nodes.len() - c,
        {
            if self.nodes[c].named {
                return Some(c);
            }
            c = self.subtree_end(c);
        }
        None
    }
}

} // verus!
