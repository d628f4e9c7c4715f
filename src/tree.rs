use vstd::prelude::*;

verus! {

/// A syntax tree reduced to what the statement count reads.
///
/// Every node keeps its children in document order.
pub enum Node {
    /// A statement, with the nodes it contains.
    Statement(Vec<Node>),
    /// An `unsafe { ... }` block.
    UnsafeBlock(Vec<Node>),
    /// A function declaration with a body: a free function, a method, or a
    /// trait method with a default body; `is_unsafe` is set for `unsafe fn`.
    Function { is_unsafe: bool, children: Vec<Node> },
    /// Any other node that may contain statements.
    Other(Vec<Node>),
}

/// One parsed source file: its top-level items.
pub struct SyntaxTree {
    pub items: Vec<Node>,
}

/// Number of nodes in a subtree.
pub open spec fn size(n: Node) -> nat
    decreases n,
{
    match n {
        Node::Statement(c) => 1 + sizes(c@),
        Node::UnsafeBlock(c) => 1 + sizes(c@),
        Node::Function { is_unsafe, children } => 1 + sizes(children@),
        Node::Other(c) => 1 + sizes(c@),
    }
}

pub open spec fn sizes(s: Seq<Node>) -> nat
    decreases s,
{
    if s.len() == 0 {
        0
    } else {
        sizes(s.drop_last()) + size(s.last())
    }
}

/// Number of statements in a subtree.
pub open spec fn statements(n: Node) -> nat
    decreases n,
{
    match n {
        Node::Statement(c) => 1 + statements_in(c@),
        Node::UnsafeBlock(c) => statements_in(c@),
        Node::Function { is_unsafe, children } => statements_in(children@),
        Node::Other(c) => statements_in(c@),
    }
}

pub open spec fn statements_in(s: Seq<Node>) -> nat
    decreases s,
{
    if s.len() == 0 {
        0
    } else {
        statements_in(s.drop_last()) + statements(s.last())
    }
}

/// Greatest number of unsafe regions that one path through a subtree opens.
pub open spec fn nesting(n: Node) -> nat
    decreases n,
{
    match n {
        Node::Statement(c) => nesting_in(c@),
        Node::UnsafeBlock(c) => 1 + nesting_in(c@),
        Node::Function { is_unsafe, children } => (if is_unsafe { 1nat } else { 0nat })
            + nesting_in(children@),
        Node::Other(c) => nesting_in(c@),
    }
}

pub open spec fn nesting_in(s: Seq<Node>) -> nat
    decreases s,
{
    if s.len() == 0 {
        0
    } else {
        let a = nesting_in(s.drop_last());
        let b = nesting(s.last());
        if a >= b {
            a
        } else {
            b
        }
    }
}

/// Number of statements of a subtree that lie inside an unsafe region, when
/// `depth` unsafe regions are already open around it.
pub open spec fn unsafe_statements(n: Node, depth: nat) -> nat
    decreases n,
{
    match n {
        Node::Statement(c) => (if depth > 0 { 1nat } else { 0nat }) + unsafe_statements_in(c@, depth),
        Node::UnsafeBlock(c) => unsafe_statements_in(c@, depth + 1),
        Node::Function { is_unsafe, children } => unsafe_statements_in(
            children@,
            if is_unsafe { depth + 1 } else { depth },
        ),
        Node::Other(c) => unsafe_statements_in(c@, depth),
    }
}

pub open spec fn unsafe_statements_in(s: Seq<Node>, depth: nat) -> nat
    decreases s,
{
    if s.len() == 0 {
        0
    } else {
        unsafe_statements_in(s.drop_last(), depth) + unsafe_statements(s.last(), depth)
    }
}

/// Whether a subtree holds an unsafe block or an `unsafe fn`.
pub open spec fn has_unsafe(n: Node) -> bool
    decreases n,
{
    match n {
        Node::Statement(c) => has_unsafe_in(c@),
        Node::UnsafeBlock(c) => true,
        Node::Function { is_unsafe, children } => is_unsafe || has_unsafe_in(children@),
        Node::Other(c) => has_unsafe_in(c@),
    }
}

pub open spec fn has_unsafe_in(s: Seq<Node>) -> bool
    decreases s,
{
    if s.len() == 0 {
        false
    } else {
        has_unsafe_in(s.drop_last()) || has_unsafe(s.last())
    }
}

impl SyntaxTree {
    pub open spec fn size(&self) -> nat {
        sizes(self.items@)
    }

    /// Statements in the file.
    pub open spec fn total(&self) -> nat {
        statements_in(self.items@)
    }

    /// Statements of the file inside an unsafe region.
    pub open spec fn unsafe_total(&self) -> nat {
        unsafe_statements_in(self.items@, 0)
    }

    /// Greatest number of unsafe regions open at once during a walk.
    pub open spec fn nesting(&self) -> nat {
        nesting_in(self.items@)
    }

    pub open spec fn has_unsafe(&self) -> bool {
        has_unsafe_in(self.items@)
    }
}


/// Dropping the last element of a prefix gives the shorter prefix.
proof fn lemma_prefix_step<A>(s: Seq<A>, i: int)
    requires
        0 <= i < s.len(),
    ensures
        s.subrange(0, i + 1).drop_last() == s.subrange(0, i),
        s.subrange(0, i + 1).last() == s[i],
{
    assert(s.subrange(0, i + 1).drop_last() =~= s.subrange(0, i));
}

/// A prefix of a node sequence has no more nodes than the whole.
proof fn lemma_sizes_prefix(s: Seq<Node>, i: int)
    requires
        0 <= i <= s.len(),
    ensures
        sizes(s.subrange(0, i)) <= sizes(s),
    decreases s.len(),
{
    if i < s.len() {
        lemma_sizes_prefix(s.drop_last(), i);
        assert(s.drop_last().subrange(0, i) =~= s.subrange(0, i));
    } else {
        assert(s.subrange(0, i) =~= s);
    }
}

/// A prefix of a node sequence has no more statements than the whole.
proof fn lemma_statements_prefix(s: Seq<Node>, i: int)
    requires
        0 <= i <= s.len(),
    ensures
        statements_in(s.subrange(0, i)) <= statements_in(s),
    decreases s.len(),
{
    if i < s.len() {
        lemma_statements_prefix(s.drop_last(), i);
        assert(s.drop_last().subrange(0, i) =~= s.subrange(0, i));
    } else {
        assert(s.subrange(0, i) =~= s);
    }
}

/// No node of a sequence nests deeper than the sequence.
proof fn lemma_nesting_element(s: Seq<Node>, i: int)
    requires
        0 <= i < s.len(),
    ensures
        nesting(s[i]) <= nesting_in(s),
    decreases s.len(),
{
    if i < s.len() - 1 {
        lemma_nesting_element(s.drop_last(), i);
    }
}

/// Inside an unsafe region every statement of a subtree counts as unsafe, and
/// outside one at most all of them do; a subtree has at least as many nodes
/// as statements.
pub proof fn lemma_node_bounds(n: Node, depth: nat)
    ensures
        unsafe_statements(n, depth) <= statements(n),
        statements(n) <= size(n),
        nesting(n) <= size(n),
        depth > 0 ==> unsafe_statements(n, depth) == statements(n),
        !has_unsafe(n) && depth == 0 ==> unsafe_statements(n, depth) == 0,
    decreases n,
{
    match n {
        Node::Statement(c) => lemma_seq_bounds(c@, depth),
        Node::UnsafeBlock(c) => lemma_seq_bounds(c@, depth + 1),
        Node::Function { is_unsafe, children } => lemma_seq_bounds(
            children@,
            if is_unsafe { depth + 1 } else { depth },
        ),
        Node::Other(c) => lemma_seq_bounds(c@, depth),
    }
}

/// `lemma_node_bounds` over a sequence of sibling nodes.
pub proof fn lemma_seq_bounds(s: Seq<Node>, depth: nat)
    ensures
        unsafe_statements_in(s, depth) <= statements_in(s),
        statements_in(s) <= sizes(s),
        nesting_in(s) <= sizes(s),
        depth > 0 ==> unsafe_statements_in(s, depth) == statements_in(s),
        !has_unsafe_in(s) && depth == 0 ==> unsafe_statements_in(s, depth) == 0,
    decreases s,
{
    if s.len() > 0 {
        lemma_seq_bounds(s.drop_last(), depth);
        lemma_node_bounds(s.last(), depth);
    }
}

/// Walk state over one file: statements seen, those seen inside an unsafe
/// region, and the number of unsafe regions open around the cursor.
pub struct StmtVisitor {
    pub count: usize,
    pub unsafe_count: usize,
    pub in_unsafe: usize,
}

impl StmtVisitor {
    /// The state can count `statements` more statements and open `depth` more
    /// nested regions without overflow.
    pub open spec fn room(&self, statements: nat, depth: nat) -> bool {
        &&& self.unsafe_count <= self.count
        &&& self.count + statements <= usize::MAX
        &&& self.in_unsafe + depth <= usize::MAX
    }

    /// A visitor at the start of a file.
    pub fn new() -> (r: StmtVisitor)
        ensures
            r.count == 0,
            r.unsafe_count == 0,
            r.in_unsafe == 0,
    {
        StmtVisitor { count: 0, unsafe_count: 0, in_unsafe: 0 }
    }

    /// Walks one node and everything under it.
    pub fn visit_node(&mut self, node: &Node)
        requires
            old(self).room(statements(*node), nesting(*node)),
        ensures
            final(self).count == old(self).count + statements(*node),
            final(self).unsafe_count == old(self).unsafe_count + unsafe_statements(
                *node,
                old(self).in_unsafe as nat,
            ),
            final(self).in_unsafe == old(self).in_unsafe,
        decreases *node, 1nat,
    {
        match node {
            Node::Statement(c) => self.visit_stmt(c),
            Node::UnsafeBlock(c) => self.visit_expr_unsafe(c),
            Node::Function { is_unsafe, children } => self.visit_item_fn(*is_unsafe, children),
            Node::Other(c) => self.visit_nodes(c),
        }
    }

    /// Walks sibling nodes in document order.
    pub fn visit_nodes(&mut self, nodes: &Vec<Node>)
        requires
            old(self).room(statements_in(nodes@), nesting_in(nodes@)),
        ensures
            final(self).count == old(self).count + statements_in(nodes@),
            final(self).unsafe_count == old(self).unsafe_count + unsafe_statements_in(
                nodes@,
                old(self).in_unsafe as nat,
            ),
            final(self).in_unsafe == old(self).in_unsafe,
        decreases nodes@, 0nat,
    {
        let ghost start = *self;
        let mut i: usize = 0;
        assert(nodes@.subrange(0, 0) =~= Seq::<Node>::empty());
        while i < nodes.len()
            invariant
                0 <= i <= nodes@.len(),
                start.room(statements_in(nodes@), nesting_in(nodes@)),
                self.in_unsafe == start.in_unsafe,
                self.count == start.count + statements_in(nodes@.subrange(0, i as int)),
                self.unsafe_count == start.unsafe_count + unsafe_statements_in(
                    nodes@.subrange(0, i as int),
                    start.in_unsafe as nat,
                ),
            decreases nodes@.len() - i,
        {
            proof {
                lemma_prefix_step(nodes@, i as int);
                lemma_statements_prefix(nodes@, i as int + 1);
                lemma_nesting_element(nodes@, i as int);
                lemma_seq_bounds(nodes@.subrange(0, i as int), start.in_unsafe as nat);
                assert(decreases_to!(nodes@ => nodes@[i as int]));
            }
            self.visit_node(&nodes[i]);
            i = i + 1;
        }
        assert(nodes@.subrange(0, i as int) =~= nodes@);
    }

    /// Walks an `unsafe` block: one more region is open while its contents
    /// are walked.
    pub fn visit_expr_unsafe(&mut self, children: &Vec<Node>)
        requires
            old(self).room(statements_in(children@), 1 + nesting_in(children@)),
        ensures
            final(self).count == old(self).count + statements_in(children@),
            final(self).unsafe_count == old(self).unsafe_count + unsafe_statements_in(
                children@,
                old(self).in_unsafe as nat + 1,
            ),
            final(self).in_unsafe == old(self).in_unsafe,
        decreases children@, 1nat,
    {
        self.in_unsafe = self.in_unsafe + 1;
        self.visit_nodes(children);
        self.in_unsafe = self.in_unsafe - 1;
    }

    /// Walks a free function; an `unsafe fn` opens a region around its body.
    pub fn visit_item_fn(&mut self, is_unsafe: bool, children: &Vec<Node>)
        requires
            old(self).room(
                statements_in(children@),
                (if is_unsafe { 1nat } else { 0nat }) + nesting_in(children@),
            ),
        ensures
            final(self).count == old(self).count + statements_in(children@),
            final(self).unsafe_count == old(self).unsafe_count + unsafe_statements_in(
                children@,
                if is_unsafe { old(self).in_unsafe as nat + 1 } else { old(self).in_unsafe as nat },
            ),
            final(self).in_unsafe == old(self).in_unsafe,
        decreases children@, 1nat,
    {
        if is_unsafe {
            self.in_unsafe = self.in_unsafe + 1;
        }
        self.visit_nodes(children);
        if is_unsafe {
            self.in_unsafe = self.in_unsafe - 1;
        }
    }

    /// Counts a statement at the current depth, then walks what it contains.
    pub fn visit_stmt(&mut self, children: &Vec<Node>)
        requires
            old(self).room(1 + statements_in(children@), nesting_in(children@)),
        ensures
            final(self).count == old(self).count + 1 + statements_in(children@),
            final(self).unsafe_count == old(self).unsafe_count + (if old(self).in_unsafe > 0 {
                1nat
            } else {
                0nat
            }) + unsafe_statements_in(children@, old(self).in_unsafe as nat),
            final(self).in_unsafe == old(self).in_unsafe,
        decreases children@, 1nat,
    {
        self.count = self.count + 1;
        if self.in_unsafe > 0 {
            self.unsafe_count = self.unsafe_count + 1;
        }
        self.visit_nodes(children);
    }
}


/// Number of nodes under `nodes`, or `None` where it does not fit in `usize`.
fn sizes_checked(nodes: &Vec<Node>) -> (r: Option<usize>)
    ensures
        r == (if sizes(nodes@) <= usize::MAX {
            Some(sizes(nodes@) as usize)
        } else {
            None
        }),
    decreases nodes@,
{
    let mut acc: usize = 0;
    let mut i: usize = 0;
    assert(nodes@.subrange(0, 0) =~= Seq::<Node>::empty());
    while i < nodes.len()
        invariant
            0 <= i <= nodes@.len(),
            acc == sizes(nodes@.subrange(0, i as int)),
        decreases nodes@.len() - i,
    {
        proof {
            lemma_prefix_step(nodes@, i as int);
            lemma_sizes_prefix(nodes@, i as int + 1);
            assert(decreases_to!(nodes@ => nodes@[i as int]));
        }
        let ghost kids: Seq<Node>;
        let inner = match &nodes[i] {
            Node::Statement(c) => {
                proof {
                    kids = c@;
                }
                sizes_checked(c)
            },
            Node::UnsafeBlock(c) => {
                proof {
                    kids = c@;
                }
                sizes_checked(c)
            },
            Node::Function { is_unsafe, children } => {
                proof {
                    kids = children@;
                }
                sizes_checked(children)
            },
            Node::Other(c) => {
                proof {
                    kids = c@;
                }
                sizes_checked(c)
            },
        };
        assert(size(nodes@[i as int]) == 1 + sizes(kids));
        assert(inner == (if sizes(kids) <= usize::MAX {
            Some(sizes(kids) as usize)
        } else {
            None
        }));
        match inner {
            None => return None,
            Some(k) => {
                if k == usize::MAX || acc > usize::MAX - (k + 1) {
                    return None;
                }
                acc = acc + k + 1;
            },
        }
        i = i + 1;
    }
    assert(nodes@.subrange(0, i as int) =~= nodes@);
    Some(acc)
}

/// Walks a whole file from a fresh visitor; every region opened on the way
/// is closed again by the end.
pub fn walk_file(tree: &SyntaxTree) -> (r: StmtVisitor)
    requires
        tree.total() <= usize::MAX,
        tree.nesting() <= usize::MAX,
    ensures
        r.count == tree.total(),
        r.unsafe_count == tree.unsafe_total(),
        r.in_unsafe == 0,
{
    let mut visitor = StmtVisitor::new();
    visitor.visit_nodes(&tree.items);
    visitor
}

/// Counts the statements of a file: `(total, inside unsafe regions)`.
pub fn count_statements(tree: &SyntaxTree) -> (r: (usize, usize))
    requires
        tree.total() <= usize::MAX,
        tree.nesting() <= usize::MAX,
    ensures
        r.0 == tree.total(),
        r.1 == tree.unsafe_total(),
        r.1 <= r.0,
        !tree.has_unsafe() ==> r.1 == 0,
{
    let visitor = walk_file(tree);
    proof {
        lemma_seq_bounds(tree.items@, 0);
    }
    (visitor.count, visitor.unsafe_count)
}

/// `count_statements` for any tree: `None` where the tree has more nodes than
/// `usize` can count.
pub fn count_statements_checked(tree: &SyntaxTree) -> (r: Option<(usize, usize)>)
    ensures
        r == (if tree.size() <= usize::MAX {
            Some((tree.total() as usize, tree.unsafe_total() as usize))
        } else {
            None
        }),
{
    match sizes_checked(&tree.items) {
        None => None,
        Some(_) => {
            proof {
                lemma_seq_bounds(tree.items@, 0);
            }
            Some(count_statements(tree))
        },
    }
}

/// The unsafe count never exceeds the total count.
pub proof fn lemma_unsafe_at_most_total(tree: SyntaxTree)
    ensures
        tree.unsafe_total() <= tree.total(),
{
    lemma_seq_bounds(tree.items@, 0);
}

/// A file without unsafe blocks or `unsafe fn` has no unsafe statements.
pub proof fn lemma_safe_file_counts_none(tree: SyntaxTree)
    requires
        !tree.has_unsafe(),
    ensures
        tree.unsafe_total() == 0,
{
    lemma_seq_bounds(tree.items@, 0);
}

/// In a file whose only item is an `unsafe fn`, every statement is unsafe:
/// unsafe blocks nested in it open a further region and, on closing, leave
/// the function's own region open.
pub proof fn lemma_unsafe_fn_counts_all(tree: SyntaxTree)
    requires
        tree.items@.len() == 1,
        tree.items@[0] matches Node::Function { is_unsafe: true, .. },
    ensures
        tree.unsafe_total() == tree.total(),
{
    let n = tree.items@[0];
    if let Node::Function { is_unsafe, children } = n {
        lemma_seq_bounds(children@, 1);
        assert(unsafe_statements(n, 0) == statements(n));
    }
    assert(tree.items@.drop_last() =~= Seq::<Node>::empty());
    assert(statements_in(tree.items@.drop_last()) == 0);
    assert(unsafe_statements_in(tree.items@.drop_last(), 0) == 0);
    assert(tree.items@.last() == n);
    assert(statements_in(tree.items@) == statements(n));
    assert(unsafe_statements_in(tree.items@, 0) == unsafe_statements(n, 0));
}

/// Statement totals summed over a batch of files.
pub open spec fn batch_total(files: Seq<SyntaxTree>) -> nat
    decreases files.len(),
{
    if files.len() == 0 {
        0
    } else {
        batch_total(files.drop_last()) + files.last().total()
    }
}

/// Unsafe statement counts summed over a batch of files.
pub open spec fn batch_unsafe_total(files: Seq<SyntaxTree>) -> nat
    decreases files.len(),
{
    if files.len() == 0 {
        0
    } else {
        batch_unsafe_total(files.drop_last()) + files.last().unsafe_total()
    }
}

/// Counting a batch in two parts and adding the results gives the counts of
/// the whole batch.
pub proof fn lemma_batch_split(a: Seq<SyntaxTree>, b: Seq<SyntaxTree>)
    ensures
        batch_total(a + b) == batch_total(a) + batch_total(b),
        batch_unsafe_total(a + b) == batch_unsafe_total(a) + batch_unsafe_total(b),
    decreases b.len(),
{
    if b.len() == 0 {
        assert(a + b =~= a);
    } else {
        lemma_batch_split(a, b.drop_last());
        assert((a + b).drop_last() =~= a + b.drop_last());
    }
}

/// Counting two runs of sibling nodes apart and adding the results gives the
/// counts of the two runs side by side.
pub proof fn lemma_concat_counts(a: Seq<Node>, b: Seq<Node>, depth: nat)
    ensures
        statements_in(a + b) == statements_in(a) + statements_in(b),
        unsafe_statements_in(a + b, depth) == unsafe_statements_in(a, depth)
            + unsafe_statements_in(b, depth),
    decreases b.len(),
{
    if b.len() == 0 {
        assert(a + b =~= a);
    } else {
        lemma_concat_counts(a, b.drop_last(), depth);
        assert((a + b).drop_last() =~= a + b.drop_last());
    }
}

/// A file holding the items of two files, one after the other, has the sum of
/// their counts.
pub proof fn lemma_joined_file_counts(a: SyntaxTree, b: SyntaxTree, joined: SyntaxTree)
    requires
        joined.items@ == a.items@ + b.items@,
    ensures
        joined.total() == a.total() + b.total(),
        joined.unsafe_total() == a.unsafe_total() + b.unsafe_total(),
{
    lemma_concat_counts(a.items@, b.items@, 0);
}

/// Sum of the first components of per-file counts.
pub open spec fn sum_totals(counts: Seq<(usize, usize)>) -> nat
    decreases counts.len(),
{
    if counts.len() == 0 {
        0
    } else {
        sum_totals(counts.drop_last()) + counts.last().0 as nat
    }
}

/// Sum of the second components of per-file counts.
pub open spec fn sum_unsafe(counts: Seq<(usize, usize)>) -> nat
    decreases counts.len(),
{
    if counts.len() == 0 {
        0
    } else {
        sum_unsafe(counts.drop_last()) + counts.last().1 as nat
    }
}

proof fn lemma_sums_prefix(counts: Seq<(usize, usize)>, i: int)
    requires
        0 <= i <= counts.len(),
    ensures
        sum_totals(counts.subrange(0, i)) <= sum_totals(counts),
        sum_unsafe(counts.subrange(0, i)) <= sum_unsafe(counts),
    decreases counts.len(),
{
    if i < counts.len() {
        lemma_sums_prefix(counts.drop_last(), i);
        assert(counts.drop_last().subrange(0, i) =~= counts.subrange(0, i));
    } else {
        assert(counts.subrange(0, i) =~= counts);
    }
}

/// Adds up per-file `(total, unsafe)` counts; `None` where a sum does not fit
/// in `usize`.
pub fn aggregate(counts: &Vec<(usize, usize)>) -> (r: Option<(usize, usize)>)
    ensures
        r == (if sum_totals(counts@) <= usize::MAX && sum_unsafe(counts@) <= usize::MAX {
            Some((sum_totals(counts@) as usize, sum_unsafe(counts@) as usize))
        } else {
            None
        }),
{
    let mut total: usize = 0;
    let mut unsafe_total: usize = 0;
    let mut i: usize = 0;
    assert(counts@.subrange(0, 0) =~= Seq::<(usize, usize)>::empty());
    while i < counts.len()
        invariant
            0 <= i <= counts@.len(),
            total == sum_totals(counts@.subrange(0, i as int)),
            unsafe_total == sum_unsafe(counts@.subrange(0, i as int)),
        decreases counts@.len() - i,
    {
        proof {
            lemma_prefix_step(counts@, i as int);
        }
        let (t, u) = counts[i];
        if total > usize::MAX - t || unsafe_total > usize::MAX - u {
            proof {
                lemma_sums_prefix(counts@, i as int + 1);
            }
            return None;
        }
        total = total + t;
        unsafe_total = unsafe_total + u;
        i = i + 1;
    }
    assert(counts@.subrange(0, i as int) =~= counts@);
    Some((total, unsafe_total))
}

} // verus!
