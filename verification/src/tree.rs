//! The rewriter's view of a parsed script: a flat list of nodes in depth-first
//! preorder, each carrying its syntactic category, its byte span in the
//! source, and a link to its parent. Only the categories and the structural
//! data that the rewrite rules read are represented; everything else is
//! `Other`.

use vstd::prelude::*;
use vstd::slice::slice_to_vec;
use crate::Span;

verus! {

/// The unary operators the rules distinguish.
#[derive(Clone, Copy, PartialEq, Eq, Structural, Debug)]
pub enum UnaryOp {
    Typeof,
    Delete,
    OtherOp,
}

/// A function's name together with the span of that name in the source.
pub struct FunctionName {
    pub text: Vec<u8>,
    pub span: Span,
}

/// A binding pattern of a variable declarator; every bound name in it is
/// hoisted when the declaration sits at the top level.
pub enum Pattern {
    /// A plain identifier binding.
    Ident { name: Vec<u8> },
    /// An array pattern; holes are `None`.
    ArrayPattern { elements: Vec<Option<Pattern>> },
    /// An object pattern: the value pattern of each property (a shorthand
    /// property is its own value), rest elements included.
    ObjectPattern { properties: Vec<Pattern> },
    /// A rest element `...inner`.
    RestElement { inner: Box<Pattern> },
    /// A binding with a default value; the default expression is not needed.
    DefaultPattern { inner: Box<Pattern> },
}

/// One declarator of a variable declaration.
pub struct Declarator {
    pub span: Span,
    pub pattern: Pattern,
}

/// The syntactic category of a node, with the structural data the rules read.
pub enum NodeKind {
    Program,
    Function { is_async: bool, name: Option<FunctionName>, body: Option<Span> },
    ArrowFunctionExpression { is_async: bool, expression: bool, body: Span },
    Class { name: Option<Vec<u8>> },
    VariableDeclaration { declarators: Vec<Declarator> },
    ExpressionStatement { expression: Span },
    ReturnStatement { argument: Option<Span> },
    IdentifierReference { name: Vec<u8> },
    /// `inner` is the index of the wrapped expression's node.
    ParenthesizedExpression { inner: usize },
    CallExpression,
    ChainExpression,
    MemberExpression,
    UnaryExpression { op: UnaryOp },
    ObjectProperty,
    FunctionBody,
    ForStatementInit,
    AssignmentTarget,
    SimpleAssignmentTarget,
    AssignmentTargetPattern,
    AssignmentTargetWithDefault,
    AwaitExpression,
    FormalParameter,
    Other,
}

/// One node of the tree.
pub struct Node {
    pub kind: NodeKind,
    pub span: Span,
    /// Index of the parent node; `None` only for the root.
    pub parent: Option<usize>,
}

/// A parsed script: nodes in depth-first preorder, parents before children.
pub struct Tree {
    pub nodes: Vec<Node>,
}

impl NodeKind {
    /// Function-likes for the purpose of the enclosing-function relation.
    pub open spec fn is_function_like(&self) -> bool {
        match self {
            NodeKind::Function { .. } => true,
            NodeKind::ArrowFunctionExpression { .. } => true,
            _ => false,
        }
    }

    /// Whether a function-like carries the `async` marker.
    pub open spec fn is_async_function(&self) -> bool {
        match self {
            NodeKind::Function { is_async, .. } => *is_async,
            NodeKind::ArrowFunctionExpression { is_async, .. } => *is_async,
            _ => false,
        }
    }

    /// Positions in which an expression must never be wrapped: assignment
    /// targets in all their forms, `for`-loop initializers, operands that are
    /// already awaited, and formal parameters.
    pub open spec fn forbids_wrap(&self) -> bool {
        match self {
            NodeKind::ForStatementInit => true,
            NodeKind::AssignmentTarget => true,
            NodeKind::SimpleAssignmentTarget => true,
            NodeKind::AssignmentTargetPattern => true,
            NodeKind::AssignmentTargetWithDefault => true,
            NodeKind::AwaitExpression => true,
            NodeKind::FormalParameter => true,
            _ => false,
        }
    }
}

/// Executable mirror of `NodeKind::is_function_like`.
pub fn kind_is_function_like(k: &NodeKind) -> (r: bool)
    ensures
        r == k.is_function_like(),
{
    match k {
        NodeKind::Function { .. } => true,
        NodeKind::ArrowFunctionExpression { .. } => true,
        _ => false,
    }
}

/// Executable mirror of `NodeKind::is_async_function`.
pub fn kind_is_async_function(k: &NodeKind) -> (r: bool)
    ensures
        r == k.is_async_function(),
{
    match k {
        NodeKind::Function { is_async, .. } => *is_async,
        NodeKind::ArrowFunctionExpression { is_async, .. } => *is_async,
        _ => false,
    }
}

/// Executable mirror of `NodeKind::forbids_wrap`.
pub fn kind_forbids_wrap(k: &NodeKind) -> (r: bool)
    ensures
        r == k.forbids_wrap(),
{
    match k {
        NodeKind::ForStatementInit => true,
        NodeKind::AssignmentTarget => true,
        NodeKind::SimpleAssignmentTarget => true,
        NodeKind::AssignmentTargetPattern => true,
        NodeKind::AssignmentTargetWithDefault => true,
        NodeKind::AwaitExpression => true,
        NodeKind::FormalParameter => true,
        _ => false,
    }
}

/// An `Option<usize>` index as a mathematical option.
pub open spec fn opt_int(o: Option<usize>) -> Option<int> {
    match o {
        Some(n) => Some(n as int),
        None => None,
    }
}

impl Tree {
    pub open spec fn len(self) -> nat {
        self.nodes@.len()
    }

    /// Parent links point backwards: the nodes stand in preorder.
    pub open spec fn parents_ok(self) -> bool {
        forall|i: int|
            0 <= i < self.len() ==> match (#[trigger] self.nodes@[i]).parent {
                Some(p) => 0 <= p < i,
                None => true,
            }
    }

    /// The wrapped expression of a parenthesized expression comes after it
    /// in preorder.
    pub open spec fn inners_ok(self) -> bool {
        forall|i: int|
            0 <= i < self.len() ==> match (#[trigger] self.nodes@[i]).kind {
                NodeKind::ParenthesizedExpression { inner } => i < inner < self.len(),
                _ => true,
            }
    }

    /// Structural well-formedness of one node against a source of `src_len`
    /// bytes: spans are valid and lie inside the parent's span, parent links
    /// point backwards, and the kind-specific spans are valid too.
    pub open spec fn node_wf(self, i: int, src_len: nat) -> bool {
        let n = self.nodes@[i];
        &&& n.span.valid(src_len)
        &&& match n.parent {
            Some(p) => {
                &&& 0 <= p < i
                &&& self.nodes@[p as int].span.start <= n.span.start
                &&& n.span.end <= self.nodes@[p as int].span.end
            },
            None => true,
        }
        &&& match n.kind {
            NodeKind::Function { name, body, .. } => {
                &&& match name {
                    Some(fname) => fname.span.valid(src_len) && fname.span.end <= n.span.end,
                    None => true,
                }
                &&& match body {
                    Some(b) => b.valid(src_len),
                    None => true,
                }
            },
            NodeKind::ArrowFunctionExpression { body, .. } => body.valid(src_len),
            NodeKind::VariableDeclaration { declarators } => {
                &&& declarators@.len() > 0
                &&& forall|d: int|
                    0 <= d < declarators@.len() ==> {
                        &&& (#[trigger] declarators@[d]).span.valid(src_len)
                        &&& n.span.start <= declarators@[d].span.start
                        &&& declarators@[d].span.end <= n.span.end
                    }
            },
            NodeKind::ExpressionStatement { expression } => expression.valid(src_len),
            NodeKind::ReturnStatement { argument } => match argument {
                Some(a) => a.valid(src_len),
                None => true,
            },
            NodeKind::ParenthesizedExpression { inner } => i < inner < self.len(),
            _ => true,
        }
    }

    /// The whole tree is well formed against a source of `src_len` bytes.
    pub open spec fn wf(self, src_len: nat) -> bool {
        forall|i: int| 0 <= i < self.len() ==> self.node_wf(i, src_len)
    }

    pub proof fn lemma_wf_implies_links_ok(self, src_len: nat)
        requires
            self.wf(src_len),
        ensures
            self.parents_ok(),
            self.inners_ok(),
    {
        assert forall|i: int|
            0 <= i < self.len() implies match (#[trigger] self.nodes@[i]).parent {
            Some(p) => 0 <= p < i,
            None => true,
        } by {
            assert(self.node_wf(i, src_len));
        }
        assert forall|i: int|
            0 <= i < self.len() implies match (#[trigger] self.nodes@[i]).kind {
            NodeKind::ParenthesizedExpression { inner } => i < inner < self.len(),
            _ => true,
        } by {
            assert(self.node_wf(i, src_len));
        }
    }

    /// The innermost function-like ancestor of node `i`, skipping `i` itself.
    pub open spec fn enclosing_fn(self, i: int) -> Option<int>
        decreases i,
        when self.parents_ok() && 0 <= i < self.len()
    {
        match self.nodes@[i].parent {
            None => None,
            Some(p) => if self.nodes@[p as int].kind.is_function_like() {
                Some(p as int)
            } else {
                self.enclosing_fn(p as int)
            },
        }
    }

    /// Whether node `i` sits inside a function-like whose `async` flag is set.
    pub open spec fn enclosing_fn_is_async(self, i: int) -> bool {
        match self.enclosing_fn(i) {
            Some(f) => self.nodes@[f].kind.is_async_function(),
            None => false,
        }
    }

    /// The identifier reference that node `i` is, possibly wrapped in
    /// parenthesized expressions; the index of the identifier node.
    pub open spec fn ident_ref(self, i: int) -> Option<int>
        decreases self.len() - i,
        when self.inners_ok() && 0 <= i < self.len()
    {
        match self.nodes@[i].kind {
            NodeKind::IdentifierReference { .. } => Some(i),
            NodeKind::ParenthesizedExpression { inner } => self.ident_ref(inner as int),
            _ => None,
        }
    }

    /// Parent index of node `i`.
    pub open spec fn parent_idx(self, i: int) -> Option<int> {
        opt_int(self.nodes@[i].parent)
    }
}

/// Executable mirror of `Tree::enclosing_fn`.
pub fn enclosing_function(tree: &Tree, i: usize) -> (r: Option<usize>)
    requires
        tree.parents_ok(),
        i < tree.len(),
    ensures
        opt_int(r) == tree.enclosing_fn(i as int),
{
    let mut cur = i;
    loop
        invariant
            tree.parents_ok(),
            cur < tree.len(),
            tree.enclosing_fn(cur as int) == tree.enclosing_fn(i as int),
        decreases cur,
    {
        match tree.nodes[cur].parent {
            None => {
                return None;
            },
            Some(p) => {
                if kind_is_function_like(&tree.nodes[p].kind) {
                    return Some(p);
                }
                cur = p;
            },
        }
    }
}

/// Executable mirror of `Tree::ident_ref`.
pub fn identifier_reference(tree: &Tree, i: usize) -> (r: Option<usize>)
    requires
        tree.inners_ok(),
        i < tree.len(),
    ensures
        opt_int(r) == tree.ident_ref(i as int),
{
    let mut cur = i;
    loop
        invariant
            tree.inners_ok(),
            cur < tree.len(),
            tree.ident_ref(cur as int) == tree.ident_ref(i as int),
        decreases tree.len() - cur,
    {
        match &tree.nodes[cur].kind {
            NodeKind::IdentifierReference { .. } => {
                return Some(cur);
            },
            NodeKind::ParenthesizedExpression { inner } => {
                cur = *inner;
            },
            _ => {
                return None;
            },
        }
    }
}

/// The bound names of a pattern, in source order.
pub open spec fn pattern_names(p: Pattern) -> Seq<Seq<u8>>
    decreases p,
{
    match p {
        Pattern::Ident { name } => seq![name@],
        Pattern::ArrayPattern { elements } => element_list_names(elements@),
        Pattern::ObjectPattern { properties } => property_list_names(properties@),
        Pattern::RestElement { inner } => pattern_names(*inner),
        Pattern::DefaultPattern { inner } => pattern_names(*inner),
    }
}

/// The bound names of an array pattern's elements.
pub open spec fn element_list_names(ps: Seq<Option<Pattern>>) -> Seq<Seq<u8>>
    decreases ps,
{
    if ps.len() == 0 {
        Seq::empty()
    } else {
        element_list_names(ps.drop_last()) + (match ps.last() {
            Some(p) => pattern_names(p),
            None => Seq::empty(),
        })
    }
}

/// The bound names of an object pattern's properties.
pub open spec fn property_list_names(ps: Seq<Pattern>) -> Seq<Seq<u8>>
    decreases ps,
{
    if ps.len() == 0 {
        Seq::empty()
    } else {
        property_list_names(ps.drop_last()) + pattern_names(ps.last())
    }
}

/// Structural size of a pattern, the termination measure of the
/// executable traversal.
pub open spec fn pattern_height(p: Pattern) -> nat
    decreases p,
{
    match p {
        Pattern::Ident { .. } => 0,
        Pattern::ArrayPattern { elements } => 1 + element_list_height(elements@),
        Pattern::ObjectPattern { properties } => 1 + property_list_height(properties@),
        Pattern::RestElement { inner } => 1 + pattern_height(*inner),
        Pattern::DefaultPattern { inner } => 1 + pattern_height(*inner),
    }
}

/// Combined size of an array pattern's elements.
pub open spec fn element_list_height(ps: Seq<Option<Pattern>>) -> nat
    decreases ps,
{
    if ps.len() == 0 {
        0
    } else {
        element_list_height(ps.drop_last()) + (match ps.last() {
            Some(p) => 1 + pattern_height(p),
            None => 0,
        })
    }
}

/// Combined size of an object pattern's properties.
pub open spec fn property_list_height(ps: Seq<Pattern>) -> nat
    decreases ps,
{
    if ps.len() == 0 {
        0
    } else {
        property_list_height(ps.drop_last()) + 1 + pattern_height(ps.last())
    }
}

proof fn lemma_element_height(ps: Seq<Option<Pattern>>, k: int)
    requires
        0 <= k < ps.len(),
        ps[k] is Some,
    ensures
        pattern_height(ps[k]->0) < element_list_height(ps),
    decreases ps.len(),
{
    if k == ps.len() - 1 {
    } else {
        lemma_element_height(ps.drop_last(), k);
        assert(ps.drop_last()[k] == ps[k]);
    }
}

proof fn lemma_property_height(ps: Seq<Pattern>, k: int)
    requires
        0 <= k < ps.len(),
    ensures
        pattern_height(ps[k]) < property_list_height(ps),
    decreases ps.len(),
{
    if k == ps.len() - 1 {
    } else {
        lemma_property_height(ps.drop_last(), k);
        assert(ps.drop_last()[k] == ps[k]);
    }
}

/// An owned copy of a byte string.
pub fn clone_bytes(v: &Vec<u8>) -> (r: Vec<u8>)
    ensures
        r@ == v@,
{
    slice_to_vec(v.as_slice())
}

/// Appends every name bound by `p` to `out`, in source order.
pub fn collect_pattern_names(p: &Pattern, out: &mut Vec<Vec<u8>>)
    ensures
        crate::insertion::name_views(final(out)@) == crate::insertion::name_views(old(out)@)
            + pattern_names(*p),
    decreases pattern_height(*p),
{
    broadcast use vstd::seq_lib::group_seq_properties;

    match p {
        Pattern::Ident { name } => {
            out.push(clone_bytes(name));
            assert(crate::insertion::name_views(out@) =~= crate::insertion::name_views(old(out)@)
                + pattern_names(*p));
        },
        Pattern::ArrayPattern { elements } => {
            let n = elements.len();
            let mut k: usize = 0;
            while k < n
                invariant
                    n == elements@.len(),
                    0 <= k <= n,
                    pattern_height(*p) == 1 + element_list_height(elements@),
                    crate::insertion::name_views(out@) == crate::insertion::name_views(old(out)@)
                        + element_list_names(elements@.take(k as int)),
                decreases n - k,
            {
                match &elements[k] {
                    Some(q) => {
                        proof {
                            lemma_element_height(elements@, k as int);
                            assert(pattern_height(*q) < pattern_height(*p));
                        }
                        collect_pattern_names(q, out);
                    },
                    None => {},
                }
                proof {
                    assert(elements@.take(k + 1).drop_last() =~= elements@.take(k as int));
                    assert(elements@.take(k + 1).last() == elements@[k as int]);
                }
                k += 1;
            }
            proof {
                assert(elements@.take(n as int) =~= elements@);
            }
        },
        Pattern::ObjectPattern { properties } => {
            let n = properties.len();
            let mut k: usize = 0;
            while k < n
                invariant
                    n == properties@.len(),
                    0 <= k <= n,
                    pattern_height(*p) == 1 + property_list_height(properties@),
                    crate::insertion::name_views(out@) == crate::insertion::name_views(old(out)@)
                        + property_list_names(properties@.take(k as int)),
                decreases n - k,
            {
                let q = &properties[k];
                proof {
                    lemma_property_height(properties@, k as int);
                    assert(pattern_height(*q) < pattern_height(*p));
                }
                collect_pattern_names(q, out);
                proof {
                    assert(properties@.take(k + 1).drop_last() =~= properties@.take(k as int));
                    assert(properties@.take(k + 1).last() == properties@[k as int]);
                }
                k += 1;
            }
            proof {
                assert(properties@.take(n as int) =~= properties@);
            }
        },
        Pattern::RestElement { inner } => {
            collect_pattern_names(inner, out);
        },
        Pattern::DefaultPattern { inner } => {
            collect_pattern_names(inner, out);
        },
    }
}

/// Executable check of `Span::valid`.
pub fn span_valid(s: Span, len: usize) -> (r: bool)
    ensures
        r == s.valid(len as nat),
{
    s.start <= s.end && s.end <= len
}

/// Executable check of `Tree::node_wf` for one node.
fn node_ok(tree: &Tree, i: usize, src_len: usize) -> (r: bool)
    requires
        i < tree.len(),
    ensures
        r == tree.node_wf(i as int, src_len as nat),
{
    let n = &tree.nodes[i];
    if !span_valid(n.span, src_len) {
        return false;
    }
    match n.parent {
        Some(p) => {
            if !(p < i) {
                return false;
            }
            let pn = &tree.nodes[p];
            if !(pn.span.start <= n.span.start && n.span.end <= pn.span.end) {
                return false;
            }
        },
        None => {},
    }
    match &n.kind {
        NodeKind::Function { name, body, .. } => {
            match name {
                Some(fname) => {
                    if !(span_valid(fname.span, src_len) && fname.span.end <= n.span.end) {
                        return false;
                    }
                },
                None => {},
            }
            match body {
                Some(b) => span_valid(*b, src_len),
                None => true,
            }
        },
        NodeKind::ArrowFunctionExpression { body, .. } => span_valid(*body, src_len),
        NodeKind::VariableDeclaration { declarators } => {
            let m = declarators.len();
            if m == 0 {
                return false;
            }
            let mut d: usize = 0;
            while d < m
                invariant
                    m == declarators@.len(),
                    0 <= d <= m,
                    i < tree.len(),
                    n == &tree.nodes@[i as int],
                    n.kind == (NodeKind::VariableDeclaration { declarators: *declarators }),
                    forall|e: int|
                        0 <= e < d ==> {
                            &&& (#[trigger] declarators@[e]).span.valid(src_len as nat)
                            &&& n.span.start <= declarators@[e].span.start
                            &&& declarators@[e].span.end <= n.span.end
                        },
                decreases m - d,
            {
                let ds = declarators[d].span;
                if !(span_valid(ds, src_len) && n.span.start <= ds.start && ds.end <= n.span.end) {
                    return false;
                }
                d += 1;
            }
            true
        },
        NodeKind::ExpressionStatement { expression } => span_valid(*expression, src_len),
        NodeKind::ReturnStatement { argument } => match argument {
            Some(a) => span_valid(*a, src_len),
            None => true,
        },
        NodeKind::ParenthesizedExpression { inner } => i < *inner && *inner < tree.nodes.len(),
        _ => true,
    }
}

/// Executable check of `Tree::wf`: whether the tree is structurally well
/// formed against a source of `src_len` bytes.
pub fn check_wf(tree: &Tree, src_len: usize) -> (r: bool)
    ensures
        r == tree.wf(src_len as nat),
{
    let n = tree.nodes.len();
    let mut i: usize = 0;
    while i < n
        invariant
            n == tree.len(),
            0 <= i <= n,
            forall|j: int| 0 <= j < i ==> tree.node_wf(j, src_len as nat),
        decreases n - i,
    {
        if !node_ok(tree, i, src_len) {
            return false;
        }
        i += 1;
    }
    true
}

} // verus!
