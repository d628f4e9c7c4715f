use unsafe_density::tree::{aggregate, count_statements, count_statements_checked, walk_file, Node, SyntaxTree};

fn stmt() -> Node {
    Node::Statement(vec![])
}

fn stmts(n: usize) -> Vec<Node> {
    (0..n).map(|_| stmt()).collect()
}

#[test]
fn empty_file_counts_nothing() {
    let tree = SyntaxTree { items: vec![] };
    assert_eq!(count_statements(&tree), (0, 0));
}

#[test]
fn safe_file_has_no_unsafe_statements() {
    let f = Node::Function { is_unsafe: false, children: stmts(5) };
    let tree = SyntaxTree { items: vec![f] };
    assert_eq!(count_statements(&tree), (5, 0));
}

#[test]
fn four_of_ten_inside_unsafe_fn() {
    let unsafe_fn = Node::Function { is_unsafe: true, children: stmts(4) };
    let safe_fn = Node::Function { is_unsafe: false, children: stmts(6) };
    let tree = SyntaxTree { items: vec![unsafe_fn, safe_fn] };
    let (total, unsafe_count) = count_statements(&tree);
    assert_eq!(format!("{}: {}/{}", "a.rs", unsafe_count, total), "a.rs: 4/10");
}

#[test]
fn statement_opening_block_counts_at_outer_depth() {
    // let x = unsafe { a; b; };
    let block = Node::UnsafeBlock(stmts(2));
    let outer = Node::Statement(vec![block]);
    let f = Node::Function { is_unsafe: false, children: vec![outer] };
    let tree = SyntaxTree { items: vec![f] };
    assert_eq!(count_statements(&tree), (3, 2));
}

#[test]
fn unsafe_fn_stays_unsafe_after_nested_block() {
    let mut body = stmts(2);
    body.push(Node::Statement(vec![Node::UnsafeBlock(stmts(3))]));
    body.extend(stmts(2));
    let f = Node::Function { is_unsafe: true, children: body };
    let tree = SyntaxTree { items: vec![f] };
    assert_eq!(count_statements(&tree), (8, 8));
}

#[test]
fn nested_blocks_close_in_order() {
    let inner = Node::Statement(vec![Node::UnsafeBlock(stmts(1))]);
    let outer = Node::Statement(vec![Node::UnsafeBlock(vec![inner, stmt()])]);
    let f = Node::Function { is_unsafe: false, children: vec![outer, stmt()] };
    let tree = SyntaxTree { items: vec![f] };
    let v = walk_file(&tree);
    assert_eq!(v.in_unsafe, 0);
    assert_eq!((v.count, v.unsafe_count), (5, 3));
}

#[test]
fn statements_in_other_containers_are_counted() {
    let closure = Node::Other(vec![Node::UnsafeBlock(stmts(2))]);
    let f = Node::Function { is_unsafe: false, children: vec![Node::Statement(vec![closure])] };
    let tree = SyntaxTree { items: vec![Node::Other(vec![f])] };
    assert_eq!(count_statements_checked(&tree), Some((3, 2)));
}

#[test]
fn two_files_total() {
    let totals = aggregate(&vec![(5, 2), (3, 0)]).unwrap();
    assert_eq!(format!("total: {}/{}", totals.1, totals.0), "total: 2/8");
}

#[test]
fn batch_equals_sum_of_files() {
    let a = SyntaxTree { items: vec![Node::Function { is_unsafe: true, children: stmts(2) }] };
    let b = SyntaxTree { items: vec![Node::Function { is_unsafe: false, children: stmts(3) }] };
    let both = SyntaxTree {
        items: vec![
            Node::Function { is_unsafe: true, children: stmts(2) },
            Node::Function { is_unsafe: false, children: stmts(3) },
        ],
    };
    let sum = aggregate(&vec![count_statements(&a), count_statements(&b)]).unwrap();
    assert_eq!(sum, count_statements(&both));
    assert_eq!(sum, (5, 2));
}

#[test]
fn aggregate_overflow_is_none() {
    assert_eq!(aggregate(&vec![(usize::MAX, 0), (1, 0)]), None);
    assert_eq!(aggregate(&vec![]), Some((0, 0)));
}

#[test]
fn unsafe_method_opens_region() {
    // fn f() { impl S { unsafe fn m(&self) { a(); } } }
    let method = Node::Function { is_unsafe: true, children: stmts(1) };
    let item_stmt = Node::Statement(vec![Node::Other(vec![method])]);
    let f = Node::Function { is_unsafe: false, children: vec![item_stmt] };
    let tree = SyntaxTree { items: vec![f] };
    assert_eq!(count_statements(&tree), (2, 1));
}

#[test]
fn deep_walk_near_count_limit() {
    let mut v = unsafe_density::tree::StmtVisitor { count: usize::MAX - 2, unsafe_count: 0, in_unsafe: 0 };
    v.visit_expr_unsafe(&stmts(2));
    assert_eq!((v.count, v.unsafe_count, v.in_unsafe), (usize::MAX, 2, 0));
}
