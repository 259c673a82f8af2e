//! The syntax tree of a C file, copied out of tree-sitter into plain values: nodes in
//! preorder, each with its kind, its field under its parent, its byte and row span, its
//! parent, its children, and the end of its subtree.
use vstd::prelude::*;

verus! {

#[verifier::external_type_specification]
#[verifier::external_body]
pub struct ExTsParser(tree_sitter::Parser);

#[verifier::external_type_specification]
#[verifier::external_body]
pub struct ExTsTree(tree_sitter::Tree);

#[verifier::external_type_specification]
#[verifier::external_body]
pub struct ExTsNode<'tree>(tree_sitter::Node<'tree>);

/// tree-sitter's `Parser::new`: a parser with no language yet.
#[verifier::external_body]
fn ts_parser_new() -> (p: tree_sitter::Parser) {
    tree_sitter::Parser::new()
}

/// A tree-sitter parser that has the C grammar of tree-sitter-c assigned. Only
/// `ts_set_c_language` makes one, and no timeout or cancellation flag is ever set on it.
pub struct CParser {
    parser: tree_sitter::Parser,
}

/// tree-sitter's `Parser::set_language` with the C grammar of tree-sitter-c, taking the parser
/// over. `set_language` refuses a grammar only when its ABI version lies outside
/// `MIN_COMPATIBLE_LANGUAGE_VERSION ..= LANGUAGE_VERSION` (13 ..= 15 in this tree-sitter);
/// tree-sitter-c's grammar has ABI version 15, so it is always assigned.
#[verifier::external_body]
fn ts_set_c_language(p: tree_sitter::Parser) -> (r: Option<CParser>)
    ensures
        r is Some,
{
    let mut p = p;
    let language: tree_sitter::Language = tree_sitter_c::LANGUAGE.into();
    match p.set_language(&language) {
        Ok(()) => Some(CParser { parser: p }),
        Err(_) => None,
    }
}

/// A tree that tree-sitter gave for a text as C; its view is that text.
pub struct CTree {
    tree: tree_sitter::Tree,
    src: Ghost<Seq<char>>,
}

impl View for CTree {
    type V = Seq<char>;

    closed spec fn view(&self) -> Seq<char> {
        self.src@
    }
}

/// A node of the tree that tree-sitter gave for a text as C; its view is that text and the
/// child indices that lead from the root to the node (each step one call of `Node::child`).
pub struct CNode<'t> {
    node: tree_sitter::Node<'t>,
    src: Ghost<Seq<char>>,
    path: Ghost<Seq<usize>>,
}

impl<'t> View for CNode<'t> {
    type V = (Seq<char>, Seq<usize>);

    closed spec fn view(&self) -> (Seq<char>, Seq<usize>) {
        (self.src@, self.path@)
    }
}

/// The grammar name (`Node::kind`) of the node that the child indices `path` reach from the
/// root of the tree tree-sitter gives for `src` as C.
pub uninterp spec fn c_node_kind(src: Seq<char>, path: Seq<usize>) -> Seq<char>;

/// `Node::child_count` of the node at `path` in the tree of `src`.
pub uninterp spec fn c_node_child_count(src: Seq<char>, path: Seq<usize>) -> usize;

/// Whether `Node::child(i)` of the node at `path` in the tree of `src` gives a node.
pub uninterp spec fn c_node_has_child(src: Seq<char>, path: Seq<usize>, i: usize) -> bool;

/// `Node::field_name_for_child(i)` of the node at `path` in the tree of `src`.
pub uninterp spec fn c_node_field(src: Seq<char>, path: Seq<usize>, i: u32) -> Option<Seq<char>>;

/// `Node::start_byte` of the node at `path` in the tree of `src`.
pub uninterp spec fn c_node_start_byte(src: Seq<char>, path: Seq<usize>) -> usize;

/// `Node::end_byte` of the node at `path` in the tree of `src`.
pub uninterp spec fn c_node_end_byte(src: Seq<char>, path: Seq<usize>) -> usize;

/// The row of `Node::start_position` of the node at `path` in the tree of `src`.
pub uninterp spec fn c_node_start_row(src: Seq<char>, path: Seq<usize>) -> usize;

/// The row of `Node::end_position` of the node at `path` in the tree of `src`.
pub uninterp spec fn c_node_end_row(src: Seq<char>, path: Seq<usize>) -> usize;

/// tree-sitter's `Parser::parse` on the UTF-8 bytes of `src`, with no earlier tree. Its
/// documentation gives `None` only when the parser has no language, or when a timeout or a
/// cancellation flag that was set has run out; a `CParser` has its language and neither of
/// the others, so a tree always comes back. It depends on the language and the text alone.
#[verifier::external_body]
fn ts_parse(p: &mut CParser, src: &str) -> (t: Option<CTree>)
    ensures
        t is Some,
        t.unwrap()@ == src@,
{
    match p.parser.parse(src.as_bytes(), None) {
        Some(tree) => Some(CTree { tree, src: Ghost(src@) }),
        None => None,
    }
}

/// tree-sitter's `Tree::root_node`: the node reached by no child step.
#[verifier::external_body]
fn ts_root<'t>(t: &'t CTree) -> (n: CNode<'t>)
    ensures
        n@ == (t@, Seq::<usize>::empty()),
{
    CNode { node: t.tree.root_node(), src: Ghost(t.src@), path: Ghost(Seq::empty()) }
}

/// tree-sitter's `Node::kind`: the grammar name of the node's type.
#[verifier::external_body]
fn ts_kind(n: &CNode) -> (k: String)
    ensures
        k@ == c_node_kind(n@.0, n@.1),
{
    n.node.kind().to_string()
}

/// tree-sitter's `Node::child_count`.
#[verifier::external_body]
fn ts_child_count(n: &CNode) -> (c: usize)
    ensures
        c == c_node_child_count(n@.0, n@.1),
{
    n.node.child_count()
}

/// tree-sitter's `Node::child`: the child at index `i`, if there is one, one step further
/// from the root.
#[verifier::external_body]
fn ts_child<'t>(n: &CNode<'t>, i: usize) -> (c: Option<CNode<'t>>)
    ensures
        (c is Some) == c_node_has_child(n@.0, n@.1, i),
        c is Some ==> c.unwrap()@ == (n@.0, n@.1.push(i)),
{
    match n.node.child(i) {
        Some(x) => Some(CNode { node: x, src: Ghost(n.src@), path: Ghost(n.path@.push(i)) }),
        None => None,
    }
}

/// tree-sitter's `Node::field_name_for_child`: the field under which child `i` stands.
#[verifier::external_body]
fn ts_field_name_for_child(n: &CNode, i: u32) -> (f: Option<String>)
    ensures
        f.deep_view() == c_node_field(n@.0, n@.1, i),
{
    match n.node.field_name_for_child(i) {
        Some(s) => Some(s.to_string()),
        None => None,
    }
}

/// tree-sitter's `Node::start_byte`.
#[verifier::external_body]
fn ts_start_byte(n: &CNode) -> (b: usize)
    ensures
        b == c_node_start_byte(n@.0, n@.1),
{
    n.node.start_byte()
}

/// tree-sitter's `Node::end_byte`.
#[verifier::external_body]
fn ts_end_byte(n: &CNode) -> (b: usize)
    ensures
        b == c_node_end_byte(n@.0, n@.1),
{
    n.node.end_byte()
}

/// The row of tree-sitter's `Node::start_position`.
#[verifier::external_body]
fn ts_start_row(n: &CNode) -> (r: usize)
    ensures
        r == c_node_start_row(n@.0, n@.1),
{
    n.node.start_position().row
}

/// The row of tree-sitter's `Node::end_position`.
#[verifier::external_body]
fn ts_end_row(n: &CNode) -> (r: usize)
    ensures
        r == c_node_end_row(n@.0, n@.1),
{
    n.node.end_position().row
}

/// One node of the tree.
pub struct SyntaxNode {
    /// The grammar name of the node's type (`function_definition`, `identifier`, ...)
    pub kind: String,
    /// The field under which the node stands in its parent, if any
    pub field: Option<String>,
    pub start_byte: usize,
    pub end_byte: usize,
    /// Zero-based rows of the node's first and last character
    pub start_row: usize,
    pub end_row: usize,
    /// Preorder index of the parent; `None` for the root only
    pub parent: Option<usize>,
}

pub struct SyntaxNodeV {
    pub kind: Seq<char>,
    pub field: Option<Seq<char>>,
    pub start_byte: usize,
    pub end_byte: usize,
    pub start_row: usize,
    pub end_row: usize,
    pub parent: Option<usize>,
}

impl DeepView for SyntaxNode {
    type V = SyntaxNodeV;

    open spec fn deep_view(&self) -> SyntaxNodeV {
        SyntaxNodeV {
            kind: self.kind@,
            field: self.field.deep_view(),
            start_byte: self.start_byte,
            end_byte: self.end_byte,
            start_row: self.start_row,
            end_row: self.end_row,
            parent: self.parent,
        }
    }
}

/// A syntax tree in preorder: node 0 is the root, the subtree of node `i` is the run of
/// nodes `i .. sub_end[i]`, and `children[i]` lists the children of `i` in order.
pub struct SyntaxTree {
    pub nodes: Vec<SyntaxNode>,
    pub children: Vec<Vec<usize>>,
    pub sub_end: Vec<usize>,
}

pub struct SyntaxTreeV {
    pub nodes: Seq<SyntaxNodeV>,
    pub children: Seq<Seq<usize>>,
    pub sub_end: Seq<usize>,
}

/// The views of a list of index lists.
pub open spec fn lists_view(v: Seq<Vec<usize>>) -> Seq<Seq<usize>> {
    v.map_values(|x: Vec<usize>| x@)
}

impl View for SyntaxTree {
    type V = SyntaxTreeV;

    open spec fn view(&self) -> SyntaxTreeV {
        SyntaxTreeV { nodes: self.nodes.deep_view(), children: lists_view(self.children@), sub_end: self.sub_end@ }
    }
}

/// `j` descends from `i` (or is `i`) by the parent links.
pub open spec fn parent_ok(t: SyntaxTreeV, j: int) -> bool {
    j == 0 && t.nodes[0].parent is None || j > 0 && t.nodes[j].parent is Some && t.nodes[j].parent->0 < j
}

impl SyntaxTreeV {
    /// The shape of a preorder tree: parents come first, subtrees are runs of nodes that hold
    /// their own descendants only, children are nodes of the subtree whose parent is the node.
    pub open spec fn wf(self) -> bool {
        &&& self.nodes.len() >= 1
        &&& self.children.len() == self.nodes.len()
        &&& self.sub_end.len() == self.nodes.len()
        &&& forall|j: int| 0 <= j < self.nodes.len() ==> #[trigger] parent_ok(self, j)
        &&& forall|i: int| 0 <= i < self.nodes.len() ==> i < #[trigger] self.sub_end[i] <= self.nodes.len()
        &&& forall|i: int, j: int|
            #![trigger self.sub_end[i], self.nodes[j]]
            0 <= i < j < self.sub_end[i] && j < self.nodes.len() ==> i <= self.nodes[j].parent->0
        &&& forall|i: int, k: int|
            0 <= i < self.nodes.len() && 0 <= k < self.children[i].len() ==> {
                let c = #[trigger] self.children[i][k];
                &&& i < c < self.sub_end[i]
                &&& self.nodes[c as int].parent == Some(i as usize)
            }
        &&& forall|i: int, a: int, b: int|
            #![trigger self.children[i][a], self.children[i][b]]
            0 <= i < self.nodes.len() && 0 <= a < b < self.children[i].len() ==> self.children[i][a] < self.children[i][b]
    }
}

/// A node being walked: the tree-sitter node, the next child to visit, its child count, its
/// preorder index, and the indices of the children met so far.
struct Frame<'t> {
    node: CNode<'t>,
    next: usize,
    count: usize,
    idx: usize,
    kids: Vec<usize>,
}

/// The record `v` holds what tree-sitter reports of the node at `path` in the tree of `src`.
pub open spec fn node_is(v: SyntaxNodeV, src: Seq<char>, path: Seq<usize>) -> bool {
    &&& v.kind == c_node_kind(src, path)
    &&& v.start_byte == c_node_start_byte(src, path)
    &&& v.end_byte == c_node_end_byte(src, path)
    &&& v.start_row == c_node_start_row(src, path)
    &&& v.end_row == c_node_end_row(src, path)
}

/// The field recorded for child `k` of the node at `path` (fields are asked for with a `u32`
/// index, so a child beyond that range gets none).
pub open spec fn field_at(src: Seq<char>, path: Seq<usize>, k: int) -> Option<Seq<char>> {
    if 0 <= k <= u32::MAX {
        c_node_field(src, path, k as u32)
    } else {
        None
    }
}

/// Node `c` of the copy is child `k` of the node at `p`: that child exists, `c`'s path is one
/// step further, and `c` records its field.
pub open spec fn kid_ok(nodes: Seq<SyntaxNodeV>, src: Seq<char>, paths: Seq<Seq<usize>>, p: Seq<usize>, k: int, c: int) -> bool {
    &&& 0 <= c < paths.len()
    &&& c < nodes.len()
    &&& paths[c] == p.push(k as usize)
    &&& c_node_has_child(src, p, k as usize)
    &&& nodes[c].field == field_at(src, p, k)
}

/// The first `m` children of the node at `p` are all it has: tree-sitter counts `m` children,
/// or gives none at index `m`.
pub open spec fn all_children(src: Seq<char>, p: Seq<usize>, m: int) -> bool {
    &&& m <= c_node_child_count(src, p)
    &&& (m == c_node_child_count(src, p) || !c_node_has_child(src, p, m as usize))
}

/// `t` is the tree tree-sitter gives for `src`, node `j` being the node at `paths[j]`: the
/// root first, each node with what tree-sitter reports of it, and each node's children, in
/// order, exactly the children tree-sitter gives.
pub open spec fn tree_paths(t: SyntaxTreeV, src: Seq<char>, paths: Seq<Seq<usize>>) -> bool {
    &&& paths.len() == t.nodes.len()
    &&& t.children.len() == t.nodes.len()
    &&& paths.len() >= 1
    &&& paths[0] == Seq::<usize>::empty()
    &&& forall|j: int| #![trigger paths[j]] 0 <= j < paths.len() ==> node_is(t.nodes[j], src, paths[j])
    &&& forall|i: int, k: int|
        #![trigger t.children[i][k]]
        0 <= i < t.children.len() && 0 <= k < t.children[i].len() ==> kid_ok(t.nodes, src, paths, paths[i], k, t.children[i][k] as int)
    &&& forall|i: int| #![trigger t.children[i]] 0 <= i < t.children.len() ==> all_children(src, paths[i], t.children[i].len() as int)
}

/// `t` is a copy of the tree tree-sitter gives for `src` as C.
pub open spec fn copies_tree(t: SyntaxTreeV, src: Seq<char>) -> bool {
    exists|paths: Seq<Seq<usize>>| tree_paths(t, src, paths)
}

/// `t` is the well-formed syntax tree read from `src`: the copy of tree-sitter's tree.
pub open spec fn tree_of(t: SyntaxTreeV, src: Seq<char>) -> bool {
    t.wf() && copies_tree(t, src)
}

/// The child indices `p` lead, step by step from the root, to a node of the tree of `src`.
pub open spec fn present(src: Seq<char>, p: Seq<usize>) -> bool
    decreases p.len(),
{
    p.len() == 0 || (present(src, p.drop_last()) && c_node_has_child(src, p.drop_last(), p.last()))
}

/// The tree tree-sitter gives for `src` has more than `usize::MAX / 2` nodes (that many
/// different paths lead to nodes), more than the copy takes.
pub open spec fn big_tree(src: Seq<char>) -> bool {
    exists|ps: Seq<Seq<usize>>|
        ps.no_duplicates() && ps.len() > usize::MAX / 2 && forall|i: int| 0 <= i < ps.len() ==> present(src, #[trigger] ps[i])
}

/// The paths of the nodes copied so far lead to nodes, differ from each other, and each node
/// but the root is a child of its parent at an index below the parent's count of children
/// visited (`seen`); each frame's count is its next index.
spec fn path_inv(
    src: Seq<char>,
    nodes: Seq<SyntaxNodeV>,
    paths: Seq<Seq<usize>>,
    seen: Seq<int>,
    idxs: Seq<usize>,
    nexts: Seq<usize>,
) -> bool {
    let n = nodes.len();
    &&& paths.len() == n
    &&& seen.len() == n
    &&& forall|j: int| #![trigger paths[j]] 0 <= j < n ==> present(src, paths[j])
    &&& forall|a: int, b: int| 0 <= a < b < n ==> #[trigger] paths[a] != #[trigger] paths[b]
    &&& forall|s: int| 0 <= s < idxs.len() ==> #[trigger] seen[idxs[s] as int] == nexts[s]
    &&& forall|j: int|
        #![trigger nodes[j]]
        0 < j < n ==> {
            let q = nodes[j].parent->0 as int;
            &&& paths[j].len() >= 1
            &&& 0 <= q < n
            &&& paths[q] == paths[j].drop_last()
            &&& paths[j].last() < seen[q]
        }
}

proof fn lemma_path_child(
    src: Seq<char>,
    nv0: Seq<SyntaxNodeV>,
    pv0: Seq<Seq<usize>>,
    seen0: Seq<int>,
    idxs0: Seq<usize>,
    fn0: Seq<usize>,
    x: SyntaxNodeV,
    i: usize,
)
    requires
        path_inv(src, nv0, pv0, seen0, idxs0, fn0),
        pv0.len() >= 1,
        pv0[0] == Seq::<usize>::empty(),
        nv0.len() < usize::MAX,
        i < usize::MAX,
        idxs0.len() >= 1,
        fn0.len() == idxs0.len(),
        forall|a: int, b: int| 0 <= a < b < idxs0.len() ==> idxs0[a] < idxs0[b],
        forall|s: int| 0 <= s < idxs0.len() ==> idxs0[s] < nv0.len(),
        i == fn0[idxs0.len() - 1],
        c_node_has_child(src, pv0[idxs0.last() as int], i),
        x.parent == Some(idxs0.last()),
    ensures
        path_inv(
            src,
            nv0.push(x),
            pv0.push(pv0[idxs0.last() as int].push(i)),
            seen0.update(idxs0.last() as int, i + 1).push(0),
            idxs0.push(nv0.len() as usize),
            fn0.update(idxs0.len() - 1, (i + 1) as usize).push(0),
        ),
{
    let t = idxs0.len() - 1;
    let px = idxs0[t] as int;
    let k = nv0.len() as int;
    let q = pv0[px].push(i);
    let nv = nv0.push(x);
    let pv = pv0.push(q);
    let seen = seen0.update(px, i + 1).push(0);
    let idxs = idxs0.push(k as usize);
    let nexts = fn0.update(t, (i + 1) as usize).push(0);
    assert(seen0[px] == i);
    assert(present(src, pv0[px]));
    assert(q.drop_last() =~= pv0[px]);
    assert(present(src, q));
    assert forall|j: int| #![trigger pv[j]] 0 <= j < nv.len() implies present(src, pv[j]) by {
        if j < k {
            assert(pv[j] == pv0[j]);
        }
    }
    assert forall|a: int, b: int| 0 <= a < b < nv.len() implies #[trigger] pv[a] != #[trigger] pv[b] by {
        if b < k {
            assert(pv[a] == pv0[a] && pv[b] == pv0[b]);
        } else {
            assert(pv[a] == pv0[a]);
            if pv0[a] == q {
                if a == 0 {
                    assert(pv0[0].len() == 0);
                } else {
                    assert(nv0[a] == nv0[a]);
                    let pa = nv0[a].parent->0 as int;
                    assert(pv0[pa] == pv0[a].drop_last());
                    assert(pv0[pa] == pv0[px]);
                    if pa != px {
                        if pa < px {
                            assert(pv0[pa] != pv0[px]);
                        } else {
                            assert(pv0[px] != pv0[pa]);
                        }
                    }
                    assert(pv0[a].last() == i);
                }
            }
        }
    }
    assert forall|s: int| 0 <= s < idxs.len() implies #[trigger] seen[idxs[s] as int] == nexts[s] by {
        if s < t {
            assert(idxs[s] == idxs0[s]);
            assert(idxs0[s] < idxs0[t]);
            assert(seen[idxs0[s] as int] == seen0[idxs0[s] as int]);
            assert(seen0[idxs0[s] as int] == fn0[s]);
            assert(nexts[s] == fn0[s]);
        } else if s == t {
            assert(idxs[s] == idxs0[t]);
            assert(seen[px] == i + 1);
            assert(nexts[s] == i + 1);
        } else {
            assert(idxs[s] == k);
            assert(seen[k] == 0);
            assert(nexts[s] == 0);
        }
    }
    assert forall|j: int|
        #![trigger nv[j]]
        0 < j < nv.len() implies ({
            let qq = nv[j].parent->0 as int;
            &&& pv[j].len() >= 1
            &&& 0 <= qq < nv.len()
            &&& pv[qq] == pv[j].drop_last()
            &&& pv[j].last() < seen[qq]
        }) by {
        if j < k {
            assert(nv[j] == nv0[j]);
            assert(nv0[j] == nv0[j]);
            let qq = nv0[j].parent->0 as int;
            assert(pv[qq] == pv0[qq]);
            assert(pv[j] == pv0[j]);
            if qq == px {
                assert(seen[qq] == i + 1);
            } else {
                assert(seen[qq] == seen0[qq]);
            }
        } else {
            assert(nv[j] == x);
            assert(pv[px] == pv0[px]);
            assert(seen[px] == i + 1);
        }
    }
}


/// The record of a tree-sitter node.
fn record(n: &CNode, field: Option<String>, parent: Option<usize>) -> (r: SyntaxNode)
    ensures
        r.parent == parent,
        r.deep_view().field == field.deep_view(),
        node_is(r.deep_view(), n@.0, n@.1),
{
    SyntaxNode {
        kind: ts_kind(n),
        field,
        start_byte: ts_start_byte(n),
        end_byte: ts_end_byte(n),
        start_row: ts_start_row(n),
        end_row: ts_end_row(n),
        parent,
    }
}

/// Is `i` the index of one of the frames?
pub open spec fn on_stack(idxs: Seq<usize>, i: int) -> bool {
    exists|s: int| 0 <= s < idxs.len() && idxs[s] == i
}

/// What holds of the nodes copied so far while the walk goes on: finished nodes have their
/// subtree and children, unfinished ones are exactly those on the stack.
spec fn walk_inv(nodes: Seq<SyntaxNodeV>, children: Seq<Seq<usize>>, sub_end: Seq<usize>, idxs: Seq<usize>, kids: Seq<Seq<usize>>) -> bool {
    let n = nodes.len();
    &&& n >= 1
    &&& children.len() == n
    &&& sub_end.len() == n
    &&& kids.len() == idxs.len()
    &&& forall|j: int| 0 <= j < n ==> #[trigger] parent_ok(SyntaxTreeV { nodes, children, sub_end }, j)
    &&& forall|a: int, b: int| 0 <= a < b < idxs.len() ==> idxs[a] < idxs[b]
    &&& forall|s: int| 0 <= s < idxs.len() ==> #[trigger] idxs[s] < n
    &&& forall|i: int| 0 <= i < n ==> (#[trigger] sub_end[i] == 0 <==> on_stack(idxs, i))
    &&& forall|i: int| 0 <= i < n && sub_end[i] != 0 ==> i < #[trigger] sub_end[i] <= n
    &&& forall|i: int, j: int|
        #![trigger sub_end[i], nodes[j]]
        0 <= i < j < sub_end[i] && j < n ==> i <= nodes[j].parent->0
    &&& forall|s: int, j: int|
        #![trigger idxs[s], nodes[j]]
        0 <= s < idxs.len() && idxs[s] < j < n ==> idxs[s] <= nodes[j].parent->0
    &&& forall|i: int, k: int|
        0 <= i < n && sub_end[i] != 0 && 0 <= k < children[i].len() ==> {
            let c = #[trigger] children[i][k];
            &&& i < c < sub_end[i]
            &&& nodes[c as int].parent == Some(i as usize)
        }
    &&& forall|s: int, k: int|
        0 <= s < idxs.len() && 0 <= k < kids[s].len() ==> {
            let c = #[trigger] kids[s][k];
            &&& idxs[s] < c < n
            &&& nodes[c as int].parent == Some(idxs[s])
        }
    &&& forall|i: int, a: int, b: int|
        #![trigger children[i][a], children[i][b]]
        0 <= i < n && 0 <= a < b < children[i].len() ==> children[i][a] < children[i][b]
    &&& forall|s: int, a: int, b: int|
        #![trigger kids[s][a], kids[s][b]]
        0 <= s < idxs.len() && 0 <= a < b < kids[s].len() ==> kids[s][a] < kids[s][b]
}

/// What holds of the copy while the walk goes on, against the tree tree-sitter gives for
/// `src`: node `j` is the node at `paths[j]`; each frame's node is its node's path, with its
/// child count, and the children met so far are its first children; finished nodes have all
/// their children.
spec fn copy_inv(
    src: Seq<char>,
    nodes: Seq<SyntaxNodeV>,
    children: Seq<Seq<usize>>,
    sub_end: Seq<usize>,
    paths: Seq<Seq<usize>>,
    idxs: Seq<usize>,
    kids: Seq<Seq<usize>>,
    fpaths: Seq<Seq<usize>>,
    counts: Seq<usize>,
    nexts: Seq<usize>,
) -> bool {
    let n = nodes.len();
    &&& paths.len() == n
    &&& n >= 1
    &&& children.len() == n
    &&& sub_end.len() == n
    &&& paths[0] == Seq::<usize>::empty()
    &&& forall|j: int| #![trigger paths[j]] 0 <= j < n ==> node_is(nodes[j], src, paths[j])
    &&& fpaths.len() == idxs.len()
    &&& counts.len() == idxs.len()
    &&& nexts.len() == idxs.len()
    &&& kids.len() == idxs.len()
    &&& forall|s: int| 0 <= s < idxs.len() ==> #[trigger] fpaths[s] == paths[idxs[s] as int] && idxs[s] < n
    &&& forall|s: int| 0 <= s < idxs.len() ==> #[trigger] counts[s] == c_node_child_count(src, fpaths[s]) && counts[s] >= nexts[s]
    &&& forall|s: int| 0 <= s < idxs.len() ==> #[trigger] nexts[s] == kids[s].len()
    &&& forall|s: int, k: int|
        #![trigger kids[s][k]]
        0 <= s < idxs.len() && 0 <= k < kids[s].len() ==> kid_ok(nodes, src, paths, fpaths[s], k, kids[s][k] as int)
    &&& forall|i: int, k: int|
        #![trigger children[i][k]]
        0 <= i < n && sub_end[i] != 0 && 0 <= k < children[i].len() ==> kid_ok(nodes, src, paths, paths[i], k, children[i][k] as int)
    &&& forall|i: int|
        #![trigger children[i]]
        0 <= i < n && sub_end[i] != 0 ==> all_children(src, paths[i], children[i].len() as int)
}

spec fn frame_idxs<'t>(st: Seq<Frame<'t>>) -> Seq<usize> {
    st.map_values(|f: Frame<'t>| f.idx)
}

spec fn frame_kids<'t>(st: Seq<Frame<'t>>) -> Seq<Seq<usize>> {
    st.map_values(|f: Frame<'t>| f.kids@)
}

spec fn frame_paths<'t>(st: Seq<Frame<'t>>) -> Seq<Seq<usize>> {
    st.map_values(|f: Frame<'t>| f.node@.1)
}

spec fn frame_counts<'t>(st: Seq<Frame<'t>>) -> Seq<usize> {
    st.map_values(|f: Frame<'t>| f.count)
}

spec fn frame_nexts<'t>(st: Seq<Frame<'t>>) -> Seq<usize> {
    st.map_values(|f: Frame<'t>| f.next)
}

/// Copies the tree tree-sitter gave into plain values, node by node in preorder: the result
/// is the tree of the text (`tree_of`). The walk stops after `usize::MAX` steps, which takes
/// more than `usize::MAX / 2` nodes; `None` then (`big_tree`).
#[verifier::spinoff_prover]
#[verifier::rlimit(60)]
fn copy_tree(t: &CTree) -> (r: Option<SyntaxTree>)
    ensures
        match r {
            Some(st) => tree_of(st@, t@),
            None => big_tree(t@),
        },
{
    let ghost src = t@;
    let root = ts_root(t);
    let mut nodes: Vec<SyntaxNode> = Vec::new();
    let mut children: Vec<Vec<usize>> = Vec::new();
    let mut sub_end: Vec<usize> = Vec::new();
    nodes.push(record(&root, None, None));
    children.push(Vec::new());
    sub_end.push(0);
    let count = ts_child_count(&root);
    let mut stack: Vec<Frame> = Vec::new();
    stack.push(Frame { node: root, next: 0, count, idx: 0, kids: Vec::new() });
    let ghost mut paths: Seq<Seq<usize>> = seq![Seq::<usize>::empty()];
    let ghost mut seen: Seq<int> = seq![0int];
    let mut steps: usize = 0;
    proof {
        let idxs = frame_idxs(stack@);
        assert(idxs[0] == 0);
        assert(on_stack(idxs, 0));
        assert(frame_paths(stack@)[0] == paths[0]);
        assert(frame_kids(stack@)[0] =~= Seq::<usize>::empty());
        assert(lists_view(children@)[0] =~= Seq::<usize>::empty());
    }
    while stack.len() > 0 && steps < usize::MAX
        invariant
            walk_inv(nodes.deep_view(), lists_view(children@), sub_end@, frame_idxs(stack@), frame_kids(stack@)),
            copy_inv(
                src,
                nodes.deep_view(),
                lists_view(children@),
                sub_end@,
                paths,
                frame_idxs(stack@),
                frame_kids(stack@),
                frame_paths(stack@),
                frame_counts(stack@),
                frame_nexts(stack@),
            ),
            forall|s: int| 0 <= s < stack@.len() ==> (#[trigger] stack@[s]).node@.0 == src,
            steps + stack@.len() == 2 * nodes@.len() - 1,
            path_inv(src, nodes.deep_view(), paths, seen, frame_idxs(stack@), frame_nexts(stack@)),
        decreases usize::MAX - steps,
    {
        steps += 1;
        let ghost nv0 = nodes.deep_view();
        let ghost cv0 = lists_view(children@);
        let ghost se0 = sub_end@;
        let ghost pv0 = paths;
        let ghost st0 = stack@;
        let ghost idxs0 = frame_idxs(stack@);
        let ghost kids0 = frame_kids(stack@);
        let ghost fp0 = frame_paths(stack@);
        let ghost fc0 = frame_counts(stack@);
        let ghost fn0 = frame_nexts(stack@);
        let mut f = stack.pop().unwrap();
        let ghost top = idxs0.len() - 1;
        proof {
            assert(st0[top] == f);
            assert(idxs0[top] == f.idx);
            assert(kids0[top] == f.kids@);
            assert(fp0[top] == f.node@.1);
            assert(fc0[top] == f.count);
            assert(fn0[top] == f.next);
            assert(f.node@.0 == src);
            assert(stack@ =~= st0.drop_last());
        }
        let i = f.next;
        let c = if i < f.count {
            ts_child(&f.node, i)
        } else {
            None
        };
        match c {
                Some(cn) => {
                    let fld = if i <= 0xFFFF_FFFFusize {
                        ts_field_name_for_child(&f.node, i as u32)
                    } else {
                        None
                    };
                    let k = nodes.len();
                    let rec = record(&cn, fld, Some(f.idx));
                    nodes.push(rec);
                    children.push(Vec::new());
                    sub_end.push(0);
                    f.next = i + 1;
                    f.kids.push(k);
                    let cc = ts_child_count(&cn);
                    stack.push(f);
                    stack.push(Frame { node: cn, next: 0, count: cc, idx: k, kids: Vec::new() });
                    proof {
                        assert(fp0[top] == pv0[idxs0[top] as int]);
                        assert(nodes@.len() == nodes.len());
                        assert(nodes.deep_view().len() == nodes@.len());
                        assert(nodes.deep_view().len() == nv0.len() + 1);
                        assert(nv0.len() < usize::MAX);
                        lemma_path_child(src, nv0, pv0, seen, idxs0, fn0, rec.deep_view(), i);
                        seen = seen.update(idxs0[top] as int, i + 1).push(0);
                        paths = pv0.push(fp0[top].push(i));
                        assert(nodes.deep_view() =~= nv0.push(rec.deep_view()));
                        assert(frame_idxs(stack@) =~= idxs0.push(k));
                        assert(frame_kids(stack@) =~= kids0.update(top, kids0.last().push(k)).push(Seq::empty()));
                        assert(frame_paths(stack@) =~= fp0.push(fp0[top].push(i)));
                        assert(frame_counts(stack@) =~= fc0.push(cc));
                        assert(frame_nexts(stack@) =~= fn0.update(top, (i + 1) as usize).push(0));
                        assert(lists_view(children@) =~= cv0.push(Seq::empty()));
                        lemma_walk_child(nv0, cv0, se0, idxs0, kids0, nodes.deep_view(), lists_view(children@), sub_end@,
                            frame_idxs(stack@), frame_kids(stack@), k);
                        lemma_copy_child(src, nv0, cv0, se0, pv0, idxs0, kids0, fp0, fc0, fn0, nodes.deep_view(),
                            paths, frame_kids(stack@), frame_paths(stack@), frame_counts(stack@), frame_nexts(stack@),
                            rec.deep_view(), k, i, cc);
                        assert forall|s: int| 0 <= s < stack@.len() implies (#[trigger] stack@[s]).node@.0 == src by {
                            if s < top {
                                assert(stack@[s] == st0[s]);
                            }
                        }
                    }
                },
                None => {
            let ghost kf = f.kids@;
            let ghost fi = f.idx;
            proof {
                assert(all_children(src, fp0[top], kf.len() as int));
            }
            let n = nodes.len();
            children.set(f.idx, f.kids);
            sub_end.set(f.idx, n);
            proof {
                assert(lists_view(children@) =~= cv0.update(fi as int, kf));
                assert(frame_idxs(stack@) =~= idxs0.drop_last());
                assert(frame_kids(stack@) =~= kids0.drop_last());
                assert(frame_paths(stack@) =~= fp0.drop_last());
                assert(frame_counts(stack@) =~= fc0.drop_last());
                assert(frame_nexts(stack@) =~= fn0.drop_last());
                lemma_walk_finish(nv0, cv0, se0, idxs0, kids0, lists_view(children@), sub_end@,
                    frame_idxs(stack@), frame_kids(stack@), n);
                lemma_copy_finish(src, nv0, cv0, se0, pv0, idxs0, kids0, fp0, fc0, fn0, lists_view(children@),
                    sub_end@, n);
                assert forall|q: int| 0 <= q < frame_idxs(stack@).len() implies #[trigger] seen[frame_idxs(stack@)[q] as int]
                    == frame_nexts(stack@)[q] by {
                    assert(frame_idxs(stack@)[q] == idxs0[q]);
                    assert(frame_nexts(stack@)[q] == fn0[q]);
                }
            }
                },
        }
    }
    if stack.len() > 0 {
        proof {
            assert(nodes@.len() > usize::MAX / 2);
            assert(paths.no_duplicates());
            assert forall|q: int| 0 <= q < paths.len() implies present(src, #[trigger] paths[q]) by {}
            assert(big_tree(src));
        }
        return None;
    }
    proof {
        assert(frame_idxs(stack@) =~= Seq::<usize>::empty());
        assert(frame_kids(stack@) =~= Seq::<Seq<usize>>::empty());
    }
    let r = SyntaxTree { nodes, children, sub_end };
    proof {
        lemma_walk_done(r@.nodes, r@.children, r@.sub_end);
        lemma_copy_done(src, r@.nodes, r@.children, r@.sub_end, paths);
        assert(tree_paths(r@, src, paths));
    }
    Some(r)
}

proof fn lemma_copy_child(
    src: Seq<char>,
    nv0: Seq<SyntaxNodeV>,
    cv0: Seq<Seq<usize>>,
    se0: Seq<usize>,
    pv0: Seq<Seq<usize>>,
    idxs0: Seq<usize>,
    kids0: Seq<Seq<usize>>,
    fp0: Seq<Seq<usize>>,
    fc0: Seq<usize>,
    fn0: Seq<usize>,
    nv: Seq<SyntaxNodeV>,
    pv: Seq<Seq<usize>>,
    kids: Seq<Seq<usize>>,
    fp: Seq<Seq<usize>>,
    fc: Seq<usize>,
    fnx: Seq<usize>,
    x: SyntaxNodeV,
    k: usize,
    i: usize,
    cc: usize,
)
    requires
        copy_inv(src, nv0, cv0, se0, pv0, idxs0, kids0, fp0, fc0, fn0),
        idxs0.len() >= 1,
        i == fn0[idxs0.len() - 1],
        i < fc0[idxs0.len() - 1],
        c_node_has_child(src, fp0[idxs0.len() - 1], i),
        k == nv0.len(),
        nv == nv0.push(x),
        node_is(x, src, fp0[idxs0.len() - 1].push(i)),
        x.field == field_at(src, fp0[idxs0.len() - 1], i as int),
        pv == pv0.push(fp0[idxs0.len() - 1].push(i)),
        kids == kids0.update(idxs0.len() - 1, kids0.last().push(k)).push(Seq::empty()),
        fp == fp0.push(fp0[idxs0.len() - 1].push(i)),
        cc == c_node_child_count(src, fp0[idxs0.len() - 1].push(i)),
        fc == fc0.push(cc),
        fnx == fn0.update(idxs0.len() - 1, (i + 1) as usize).push(0),
    ensures
        copy_inv(src, nv, cv0.push(Seq::empty()), se0.push(0), pv, idxs0.push(k), kids, fp, fc, fnx),
{
    let t = idxs0.len() - 1;
    let n = nv.len();
    let cv = cv0.push(Seq::<usize>::empty());
    let se = se0.push(0usize);
    let idxs = idxs0.push(k);
    assert forall|j: int| #![trigger pv[j]] 0 <= j < n implies node_is(nv[j], src, pv[j]) by {
        if j < k {
            assert(pv[j] == pv0[j]);
            assert(nv[j] == nv0[j]);
        }
    }
    assert forall|s: int| 0 <= s < idxs.len() implies #[trigger] fp[s] == pv[idxs[s] as int] && idxs[s] < n by {
        if s <= t {
            assert(fp0[s] == pv0[idxs0[s] as int]);
        }
    }
    assert forall|s: int| 0 <= s < idxs.len() implies #[trigger] fc[s] == c_node_child_count(src, fp[s]) && fc[s] >= fnx[s] by {
        if s <= t {
            assert(fp0[s] == pv0[idxs0[s] as int]);
        }
    }
    assert forall|s: int| 0 <= s < idxs.len() implies #[trigger] fnx[s] == kids[s].len() by {
        if s < t {
            assert(fp0[s] == pv0[idxs0[s] as int]);
            assert(fnx[s] == fn0[s]);
            assert(kids[s] == kids0[s]);
        } else if s == t {
            assert(fn0[t] == kids0[t].len());
            assert(fnx[t] == i + 1);
            assert(kids[t] == kids0[t].push(k));
        } else {
            assert(fnx[s] == 0);
            assert(kids[s] == Seq::<usize>::empty());
        }
    }
    assert forall|s: int, q: int| #![trigger kids[s][q]] 0 <= s < idxs.len() && 0 <= q < kids[s].len() implies kid_ok(nv, src, pv, fp[s], q, kids[s][q] as int) by {
        if s < t {
            assert(kids[s] == kids0[s]);
            assert(kid_ok(nv0, src, pv0, fp0[s], q, kids0[s][q] as int));
        } else if s == t {
            if q < kids0[t].len() {
                assert(kids[s][q] == kids0[t][q]);
                assert(kid_ok(nv0, src, pv0, fp0[s], q, kids0[t][q] as int));
            } else {
                assert(q == kids0[t].len());
                assert(kids[s][q] == k);
                assert(fn0[t] == kids0[t].len());
            }
        }
    }
    assert forall|a: int, q: int| #![trigger cv[a][q]] 0 <= a < n && se[a] != 0 && 0 <= q < cv[a].len() implies kid_ok(nv, src, pv, pv[a], q, cv[a][q] as int) by {
        assert(a < k);
        assert(cv[a] == cv0[a]);
        assert(kid_ok(nv0, src, pv0, pv0[a], q, cv0[a][q] as int));
    }
    assert forall|a: int| #![trigger cv[a]] 0 <= a < n && se[a] != 0 implies all_children(src, pv[a], cv[a].len() as int) by {
        assert(a < k);
        assert(cv[a] == cv0[a]);
    }
}

proof fn lemma_copy_finish(
    src: Seq<char>,
    nv: Seq<SyntaxNodeV>,
    cv0: Seq<Seq<usize>>,
    se0: Seq<usize>,
    pv: Seq<Seq<usize>>,
    idxs0: Seq<usize>,
    kids0: Seq<Seq<usize>>,
    fp0: Seq<Seq<usize>>,
    fc0: Seq<usize>,
    fn0: Seq<usize>,
    cv: Seq<Seq<usize>>,
    se: Seq<usize>,
    n: usize,
)
    requires
        copy_inv(src, nv, cv0, se0, pv, idxs0, kids0, fp0, fc0, fn0),
        idxs0.len() >= 1,
        all_children(src, fp0[idxs0.len() - 1], kids0[idxs0.len() - 1].len() as int),
        n == nv.len(),
        cv == cv0.update(idxs0.last() as int, kids0.last()),
        se == se0.update(idxs0.last() as int, n),
    ensures
        copy_inv(src, nv, cv, se, pv, idxs0.drop_last(), kids0.drop_last(), fp0.drop_last(), fc0.drop_last(), fn0.drop_last()),
{
    let t = idxs0.len() - 1;
    let x = idxs0[t] as int;
    assert(fp0[t] == pv[x]);
    assert forall|a: int, q: int| #![trigger cv[a][q]] 0 <= a < nv.len() && se[a] != 0 && 0 <= q < cv[a].len() implies kid_ok(nv, src, pv, pv[a], q, cv[a][q] as int) by {
        if a == x {
            assert(cv[a] == kids0[t]);
            assert(kid_ok(nv, src, pv, fp0[t], q, kids0[t][q] as int));
        } else {
            assert(cv[a] == cv0[a]);
            assert(se[a] == se0[a]);
            assert(kid_ok(nv, src, pv, pv[a], q, cv0[a][q] as int));
        }
    }
    assert forall|a: int| #![trigger cv[a]] 0 <= a < nv.len() && se[a] != 0 implies all_children(src, pv[a], cv[a].len() as int) by {
        if a == x {
            assert(cv[a] == kids0[t]);
        } else {
            assert(cv[a] == cv0[a]);
            assert(se[a] == se0[a]);
        }
    }
    let idxs = idxs0.drop_last();
    let kids = kids0.drop_last();
    let fp = fp0.drop_last();
    let fc = fc0.drop_last();
    let fnx = fn0.drop_last();
    assert forall|s: int| 0 <= s < idxs.len() implies #[trigger] fp[s] == pv[idxs[s] as int] && idxs[s] < nv.len() by {
        assert(fp0[s] == pv[idxs0[s] as int]);
        assert(fp[s] == fp0[s]);
        assert(idxs[s] == idxs0[s]);
    }
    assert forall|s: int| 0 <= s < idxs.len() implies #[trigger] fc[s] == c_node_child_count(src, fp[s]) && fc[s] >= fnx[s] by {
        assert(fc0[s] == c_node_child_count(src, fp0[s]));
        assert(fc[s] == fc0[s]);
        assert(fnx[s] == fn0[s]);
        assert(fp[s] == fp0[s]);
    }
    assert forall|s: int| 0 <= s < idxs.len() implies #[trigger] fnx[s] == kids[s].len() by {
        assert(fn0[s] == kids0[s].len());
        assert(fnx[s] == fn0[s]);
        assert(kids[s] == kids0[s]);
    }
    assert forall|s: int, q: int| #![trigger kids[s][q]] 0 <= s < idxs.len() && 0 <= q < kids[s].len() implies kid_ok(nv, src, pv, fp[s], q, kids[s][q] as int) by {
        assert(kids[s] == kids0[s]);
        assert(kid_ok(nv, src, pv, fp0[s], q, kids0[s][q] as int));
    }
}

proof fn lemma_copy_done(src: Seq<char>, nv: Seq<SyntaxNodeV>, cv: Seq<Seq<usize>>, se: Seq<usize>, pv: Seq<Seq<usize>>)
    requires
        walk_inv(nv, cv, se, Seq::empty(), Seq::empty()),
        copy_inv(src, nv, cv, se, pv, Seq::empty(), Seq::empty(), Seq::empty(), Seq::empty(), Seq::empty()),
    ensures
        tree_paths(SyntaxTreeV { nodes: nv, children: cv, sub_end: se }, src, pv),
{
    assert forall|i: int| 0 <= i < nv.len() implies #[trigger] se[i] != 0 by {
        assert(!on_stack(Seq::<usize>::empty(), i));
    }
    let t = SyntaxTreeV { nodes: nv, children: cv, sub_end: se };
    assert forall|i: int, k: int|
        #![trigger t.children[i][k]]
        0 <= i < t.children.len() && 0 <= k < t.children[i].len() implies kid_ok(t.nodes, src, pv, pv[i], k, t.children[i][k] as int) by {
        assert(se[i] != 0);
    }
    assert forall|i: int| #![trigger t.children[i]] 0 <= i < t.children.len() implies all_children(src, pv[i], t.children[i].len() as int) by {
        assert(se[i] != 0);
    }
}

proof fn lemma_walk_child(
    nv0: Seq<SyntaxNodeV>,
    cv0: Seq<Seq<usize>>,
    se0: Seq<usize>,
    idxs0: Seq<usize>,
    kids0: Seq<Seq<usize>>,
    nv: Seq<SyntaxNodeV>,
    cv: Seq<Seq<usize>>,
    se: Seq<usize>,
    idxs: Seq<usize>,
    kids: Seq<Seq<usize>>,
    k: usize,
)
    requires
        walk_inv(nv0, cv0, se0, idxs0, kids0),
        idxs0.len() >= 1,
        k == nv0.len(),
        nv.len() == k + 1,
        forall|j: int| 0 <= j < k ==> nv[j] == nv0[j],
        nv[k as int].parent == Some(idxs0.last()),
        cv == cv0.push(Seq::empty()),
        se == se0.push(0),
        idxs == idxs0.push(k),
        kids == kids0.update(idxs0.len() - 1, kids0.last().push(k)).push(Seq::empty()),
    ensures
        walk_inv(nv, cv, se, idxs, kids),
{
    let n = nv.len();
    let t = idxs0.len() - 1;
    assert forall|j: int| 0 <= j < n implies #[trigger] parent_ok(SyntaxTreeV { nodes: nv, children: cv, sub_end: se }, j) by {
        if j < k as int {
            assert(parent_ok(SyntaxTreeV { nodes: nv0, children: cv0, sub_end: se0 }, j));
        }
    }
    assert forall|i: int| 0 <= i < n implies (#[trigger] se[i] == 0 <==> on_stack(idxs, i)) by {
        if i < k {
            if on_stack(idxs0, i) {
                let s = choose|s: int| 0 <= s < idxs0.len() && idxs0[s] == i;
                assert(idxs[s] == i);
            }
            if on_stack(idxs, i) {
                let s = choose|s: int| 0 <= s < idxs.len() && idxs[s] == i;
                if s < idxs0.len() {
                    assert(idxs0[s] == i);
                }
            }
        } else {
            assert(idxs[idxs0.len() as int] == k);
        }
    }
    assert forall|i: int, j: int| #![trigger se[i], nv[j]] 0 <= i < j < se[i] && j < n implies i <= nv[j].parent->0 by {
        assert(se[i] == se0[i]);
        if j == k {
            assert(se0[i] <= k);
        }
    }
    assert forall|s: int, j: int| #![trigger idxs[s], nv[j]] 0 <= s < idxs.len() && idxs[s] < j < n implies idxs[s] <= nv[j].parent->0 by {
        if s < idxs0.len() && j == k {
            assert(idxs0[s] <= idxs0[t]);
        }
    }
    assert forall|i: int, q: int| 0 <= i < n && se[i] != 0 && 0 <= q < cv[i].len() implies {
        let c = #[trigger] cv[i][q];
        &&& i < c < se[i]
        &&& nv[c as int].parent == Some(i as usize)
    } by {
        assert(cv[i] == cv0[i]);
        let c = cv0[i][q];
        assert(nv0[c as int].parent == Some(i as usize));
    }
    assert forall|s: int, q: int| 0 <= s < idxs.len() && 0 <= q < kids[s].len() implies {
        let c = #[trigger] kids[s][q];
        &&& idxs[s] < c < n
        &&& nv[c as int].parent == Some(idxs[s])
    } by {
        if s < t {
            assert(kids[s] == kids0[s]);
        } else if s == t {
            if q < kids0[t].len() {
                assert(kids[s][q] == kids0[t][q]);
            }
        }
    }
    assert forall|i: int, a: int, b: int|
        #![trigger cv[i][a], cv[i][b]]
        0 <= i < n && 0 <= a < b < cv[i].len() implies cv[i][a] < cv[i][b] by {
        assert(cv[i] == cv0[i]);
    }
    assert forall|s: int, a: int, b: int|
        #![trigger kids[s][a], kids[s][b]]
        0 <= s < idxs.len() && 0 <= a < b < kids[s].len() implies kids[s][a] < kids[s][b] by {
        if s < t {
            assert(kids[s] == kids0[s]);
        } else if s == t {
            assert(kids[s][a] == kids0[t][a]);
            if b < kids0[t].len() {
                assert(kids[s][b] == kids0[t][b]);
            }
        }
    }
}

proof fn lemma_walk_finish(
    nv: Seq<SyntaxNodeV>,
    cv0: Seq<Seq<usize>>,
    se0: Seq<usize>,
    idxs0: Seq<usize>,
    kids0: Seq<Seq<usize>>,
    cv: Seq<Seq<usize>>,
    se: Seq<usize>,
    idxs: Seq<usize>,
    kids: Seq<Seq<usize>>,
    n: usize,
)
    requires
        walk_inv(nv, cv0, se0, idxs0, kids0),
        idxs0.len() >= 1,
        n == nv.len(),
        idxs == idxs0.drop_last(),
        kids == kids0.drop_last(),
        cv == cv0.update(idxs0.last() as int, kids0.last()),
        se == se0.update(idxs0.last() as int, n),
    ensures
        walk_inv(nv, cv, se, idxs, kids),
{
    let t = idxs0.len() - 1;
    let x = idxs0[t] as int;
    assert forall|j: int| 0 <= j < n implies #[trigger] parent_ok(SyntaxTreeV { nodes: nv, children: cv, sub_end: se }, j) by {
        assert(parent_ok(SyntaxTreeV { nodes: nv, children: cv0, sub_end: se0 }, j));
    }
    assert forall|i: int| 0 <= i < n implies (#[trigger] se[i] == 0 <==> on_stack(idxs, i)) by {
        if on_stack(idxs0, i) {
            let s = choose|s: int| 0 <= s < idxs0.len() && idxs0[s] == i;
            if s < t {
                assert(idxs[s] == i);
            }
        }
        if on_stack(idxs, i) {
            let s = choose|s: int| 0 <= s < idxs.len() && idxs[s] == i;
            assert(idxs0[s] == i);
            assert(idxs0[s] < idxs0[t]);
        }
        if i == x {
            assert(on_stack(idxs0, x));
        }
    }
    assert forall|i: int, j: int| #![trigger se[i], nv[j]] 0 <= i < j < se[i] && j < n implies i <= nv[j].parent->0 by {
        if i != x {
            assert(se[i] == se0[i]);
        }
    }
    assert forall|i: int, q: int| 0 <= i < n && se[i] != 0 && 0 <= q < cv[i].len() implies {
        let c = #[trigger] cv[i][q];
        &&& i < c < se[i]
        &&& nv[c as int].parent == Some(i as usize)
    } by {
        if i == x {
            assert(cv[i] == kids0[t]);
            assert(kids0[t][q] == cv[i][q]);
        } else {
            assert(cv[i] == cv0[i]);
            assert(se[i] == se0[i]);
        }
    }
    assert forall|s: int, q: int| 0 <= s < idxs.len() && 0 <= q < kids[s].len() implies {
        let c = #[trigger] kids[s][q];
        &&& idxs[s] < c < n
        &&& nv[c as int].parent == Some(idxs[s])
    } by {
        assert(kids[s] == kids0[s]);
        assert(kids0[s][q] == kids[s][q]);
    }
    assert forall|i: int, a: int, b: int|
        #![trigger cv[i][a], cv[i][b]]
        0 <= i < n && 0 <= a < b < cv[i].len() implies cv[i][a] < cv[i][b] by {
        if i == x {
            assert(cv[i] == kids0[t]);
            assert(kids0[t][a] == cv[i][a]);
            assert(kids0[t][b] == cv[i][b]);
        } else {
            assert(cv[i] == cv0[i]);
        }
    }
    assert forall|s: int, a: int, b: int|
        #![trigger kids[s][a], kids[s][b]]
        0 <= s < idxs.len() && 0 <= a < b < kids[s].len() implies kids[s][a] < kids[s][b] by {
        assert(kids[s] == kids0[s]);
        assert(kids0[s][a] == kids[s][a]);
        assert(kids0[s][b] == kids[s][b]);
    }
}

proof fn lemma_walk_done(nv: Seq<SyntaxNodeV>, cv: Seq<Seq<usize>>, se: Seq<usize>)
    requires
        walk_inv(nv, cv, se, Seq::empty(), Seq::empty()),
    ensures
        (SyntaxTreeV { nodes: nv, children: cv, sub_end: se }).wf(),
{
    let t = SyntaxTreeV { nodes: nv, children: cv, sub_end: se };
    assert forall|i: int| 0 <= i < nv.len() implies i < #[trigger] se[i] <= nv.len() by {
        assert(!on_stack(Seq::<usize>::empty(), i));
    }
    assert forall|i: int, k: int| 0 <= i < nv.len() && 0 <= k < cv[i].len() implies {
        let c = #[trigger] cv[i][k];
        &&& i < c < se[i]
        &&& nv[c as int].parent == Some(i as usize)
    } by {
        assert(!on_stack(Seq::<usize>::empty(), i));
    }
    assert forall|i: int, a: int, b: int|
        #![trigger cv[i][a], cv[i][b]]
        0 <= i < nv.len() && 0 <= a < b < cv[i].len() implies cv[i][a] < cv[i][b] by {
        assert(!on_stack(Seq::<usize>::empty(), i));
    }
}

/// Parses `src` as C with tree-sitter and copies the tree: the result is the tree of the text
/// (`tree_of`). tree-sitter gives a tree for every text (one with error nodes where the text
/// is not C); `None` only when that tree has more than `usize::MAX / 2` nodes (`big_tree`).
pub fn parse_c(src: &str) -> (r: Option<SyntaxTree>)
    ensures
        match r {
            Some(t) => tree_of(t@, src@),
            None => big_tree(src@),
        },
{
    let mut p = match ts_set_c_language(ts_parser_new()) {
        Some(p) => p,
        None => return None,
    };
    match ts_parse(&mut p, src) {
        Some(tree) => copy_tree(&tree),
        None => None,
    }
}

} // verus!
