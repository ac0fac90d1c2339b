use crate::translator::analyzer::{lemma_trees_view_index, lemma_trees_view_len};
use crate::translator::ast::{
    lemma_trees_view_push, node_view, tree_view, trees_view, NodeView, RawAbstractSyntaxNode,
    RawAbstractSyntaxTree, TreeView,
};
use std::collections::VecDeque;
use crate::translator::expression::{shape, Expression, ExpressionBinaryOperator, ExpressionView};
use vstd::prelude::*;

verus! {

/// The operator that a compound assignment applies: `+` for `+=`, and so on.
pub open spec fn compound_base(operator: ExpressionBinaryOperator) -> Option<ExpressionBinaryOperator> {
    match operator {
        ExpressionBinaryOperator::AssignAdd => Some(ExpressionBinaryOperator::Add),
        ExpressionBinaryOperator::AssignSub => Some(ExpressionBinaryOperator::Sub),
        ExpressionBinaryOperator::AssignMul => Some(ExpressionBinaryOperator::Multiply),
        ExpressionBinaryOperator::AssignDiv => Some(ExpressionBinaryOperator::Divide),
        ExpressionBinaryOperator::AssignAnd => Some(ExpressionBinaryOperator::BitwiseAnd),
        ExpressionBinaryOperator::AssignOr => Some(ExpressionBinaryOperator::BitwiseOr),
        ExpressionBinaryOperator::AssignXor => Some(ExpressionBinaryOperator::BitwiseXor),
        _ => None,
    }
}

/// Whether an expression can be rewritten: a compound assignment must assign a variable.
pub open spec fn rewritable(e: ExpressionView) -> bool {
    match e {
        ExpressionView::Binary(left, operator, _) => compound_base(operator) is Some ==> (*left)
            is Variable,
        _ => true,
    }
}

/// A compound assignment `x op= e` rewritten as `x = x op e`; any other expression unchanged.
pub open spec fn rewritten(e: ExpressionView) -> ExpressionView {
    match e {
        ExpressionView::Binary(left, operator, right) => match (compound_base(operator), *left) {
            (Some(base), ExpressionView::Variable(name)) => ExpressionView::Assign(
                name,
                Box::new(
                    ExpressionView::Binary(Box::new(ExpressionView::Variable(name)), base, right),
                ),
            ),
            _ => e,
        },
        _ => e,
    }
}

/// The weight of a statement: `else if` counts twice, a `for` counts its initializer too.
pub open spec fn node_weight(node: NodeView) -> nat
    decreases node,
{
    match node {
        NodeView::ElseIf(_) => 2,
        NodeView::For(Some(initializer), _, _) => 1 + node_weight(*initializer),
        _ => 1,
    }
}

/// The weight of a tree: the weights of all its statements.
pub open spec fn weight(tree: TreeView) -> nat
    decreases tree,
{
    node_weight(tree.node) + weights(tree.children)
}

/// The weight of a sequence of trees.
pub open spec fn weights(trees: Seq<TreeView>) -> nat
    decreases trees,
{
    if trees.len() == 0 {
        0
    } else {
        weights(trees.drop_last()) + weight(trees.last())
    }
}

/// An `if` chained with the `else if` and `else` statements that follow it: each `else if`
/// becomes an `if` inside an `else` at the end of the previous one, and a final `else` is moved
/// to the end of the last `if`. The result is the chained statement and how many of the
/// following statements it took.
pub open spec fn chained(current: TreeView, rest: Seq<TreeView>) -> (TreeView, nat)
    decreases rest.len(),
{
    let head = match current.node {
        NodeView::ElseIf(condition) => TreeView { node: NodeView::If(condition), children: current.children },
        _ => current,
    };
    if rest.len() > 0 && rest[0].node is ElseIf {
        let (nested, taken) = chained(rest[0], rest.skip(1));
        (
            TreeView {
                node: head.node,
                children: head.children.push(TreeView { node: NodeView::Else, children: seq![nested] }),
            },
            taken + 1,
        )
    } else if rest.len() > 0 && rest[0].node is Else {
        (TreeView { node: head.node, children: head.children.push(rest[0]) }, 1)
    } else {
        (head, 0)
    }
}

/// Chaining takes no more statements than follow, and moves their weight into the chain.
pub proof fn lemma_chained_weight(current: TreeView, rest: Seq<TreeView>)
    ensures
        chained(current, rest).1 <= rest.len(),
        weight(chained(current, rest).0) + weights(rest.skip(chained(current, rest).1 as int))
            + (if current.node is ElseIf { 1int } else { 0int }) == weight(current) + weights(rest),
    decreases rest.len(),
{
    let head = match current.node {
        NodeView::ElseIf(condition) => TreeView { node: NodeView::If(condition), children: current.children },
        _ => current,
    };
    assert(weight(head) + (if current.node is ElseIf { 1int } else { 0int }) == weight(current));
    if rest.len() > 0 {
        lemma_weights_first(rest);
    }
    if rest.len() > 0 && rest[0].node is ElseIf {
        lemma_chained_weight(rest[0], rest.skip(1));
        let (nested, taken) = chained(rest[0], rest.skip(1));
        let wrapper = TreeView { node: NodeView::Else, children: seq![nested] };
        assert(seq![nested].drop_last() =~= Seq::<TreeView>::empty());
        assert(weights(Seq::<TreeView>::empty()) == 0);
        assert(seq![nested].last() == nested);
        assert(weights(seq![nested]) == weight(nested));
        assert(weight(wrapper) == 1 + weight(nested));
        assert(head.children.push(wrapper).drop_last() =~= head.children);
        assert(rest.skip(1).skip(taken as int) =~= rest.skip(taken + 1int));
    } else if rest.len() > 0 && rest[0].node is Else {
        assert(head.children.push(rest[0]).drop_last() =~= head.children);
    } else {
        assert(rest.skip(0) =~= rest);
    }
}

/// The weight of a sequence is that of its first tree and of the others.
pub proof fn lemma_weights_first(trees: Seq<TreeView>)
    requires
        trees.len() > 0,
    ensures
        weights(trees) == weight(trees[0]) + weights(trees.skip(1)),
    decreases trees.len(),
{
    if trees.len() > 1 {
        lemma_weights_first(trees.drop_last());
        assert(trees.drop_last().skip(1) =~= trees.skip(1).drop_last());
        assert(trees.skip(1).last() == trees.last());
    } else {
        assert(trees.drop_last() =~= Seq::<TreeView>::empty());
        assert(trees.skip(1) =~= Seq::<TreeView>::empty());
    }
}

/// Every tree weighs at least one.
pub proof fn lemma_weight_positive(tree: TreeView)
    ensures
        weight(tree) >= 1,
{
    match tree.node {
        NodeView::ElseIf(_) => {},
        NodeView::For(Some(initializer), _, _) => {},
        _ => {},
    }
}

/// The statement trees of a body after the first pass, in order: an `if` is chained with the
/// statements that continue it, and each resulting tree is simplified.
pub open spec fn simplified_children(children: Seq<TreeView>) -> Seq<TreeView>
    decreases weights(children), 2nat,
{
    if children.len() == 0 {
        Seq::empty()
    } else {
        let first = children[0];
        let (tree, taken) = if first.node is If {
            chained(first, children.skip(1))
        } else {
            (first, 0nat)
        };
        proof {
            lemma_weights_first(children);
            if first.node is If {
                lemma_chained_weight(first, children.skip(1));
            }
            lemma_weight_positive(tree);
            assert(children.skip(1).skip(taken as int) =~= children.skip(taken + 1int));
        }
        if taken + 1 <= children.len() {
            seq![simplified_tree(tree)] + simplified_children(children.skip(taken + 1int))
        } else {
            seq![simplified_tree(tree)]
        }
    }
}

/// The first pass of the simplification: `if` chains are built in every body, and a `for`
/// becomes a scope that holds its initializer and a `while` loop whose body ends with the
/// increment; a missing condition is `true`.
pub open spec fn simplified_tree(tree: TreeView) -> TreeView
    decreases weight(tree), 1nat,
{
    proof {
        assert(weight(tree) == node_weight(tree.node) + weights(tree.children));
    }
    let children = simplified_children(tree.children);
    match tree.node {
        NodeView::For(initializer, condition, increment) => {
            let start = match initializer {
                Some(init) => seq![simplified_tree(TreeView { node: *init, children: Seq::empty() })],
                None => Seq::empty(),
            };
            let body = match increment {
                Some(e) => children.push(
                    TreeView { node: NodeView::Expression(e), children: Seq::empty() },
                ),
                None => children,
            };
            let test = match condition {
                Some(c) => c,
                None => ExpressionView::Literal(seq!['t', 'r', 'u', 'e']),
            };
            TreeView {
                node: NodeView::Scope,
                children: start.push(TreeView { node: NodeView::While(test), children: body }),
            }
        },
        _ => TreeView { node: tree.node, children },
    }
}

/// Whether every expression statement of a tree can be rewritten.
pub open spec fn all_rewritable(tree: TreeView) -> bool
    decreases tree,
{
    (tree.node matches NodeView::Expression(e) ==> rewritable(e)) && forall|i: int|
        0 <= i < tree.children.len() ==> all_rewritable(#[trigger] tree.children[i])
}

/// The second pass of the simplification: compound assignments in expression statements are
/// rewritten.
pub open spec fn rewritten_tree(tree: TreeView) -> TreeView
    decreases tree,
{
    TreeView {
        node: match tree.node {
            NodeView::Expression(e) => NodeView::Expression(rewritten(e)),
            other => other,
        },
        children: rewritten_trees(tree.children),
    }
}

/// The second pass over a sequence of trees.
pub open spec fn rewritten_trees(trees: Seq<TreeView>) -> Seq<TreeView>
    decreases trees,
{
    if trees.len() == 0 {
        Seq::empty()
    } else {
        rewritten_trees(trees.drop_last()).push(rewritten_tree(trees.last()))
    }
}

/// The views of trees are the trees' views, one by one.
pub proof fn lemma_trees_view_map(s: Seq<RawAbstractSyntaxTree>)
    ensures
        trees_view(s) == s.map_values(|t: RawAbstractSyntaxTree| tree_view(t)),
{
    lemma_trees_view_len(s);
    assert forall|i: int| 0 <= i < s.len() implies #[trigger] trees_view(s)[i] == tree_view(s[i]) by {
        lemma_trees_view_index(s, i);
    }
    assert(trees_view(s) =~= s.map_values(|t: RawAbstractSyntaxTree| tree_view(t)));
}

/// A queue of the trees, first tree first.
fn to_queue(trees: Vec<RawAbstractSyntaxTree>) -> (queue: VecDeque<RawAbstractSyntaxTree>)
    ensures
        queue@ == trees@,
{
    let ghost all = trees@;
    let mut rest = trees;
    let mut queue: VecDeque<RawAbstractSyntaxTree> = VecDeque::new();
    proof {
        assert(rest@ + queue@ =~= all);
    }
    while rest.len() > 0
        invariant
            rest@ + queue@ == all,
        decreases rest@.len(),
    {
        let ghost before = rest@;
        let last = rest.pop().unwrap();
        queue.push_front(last);
        proof {
            assert(before =~= rest@.push(last));
            assert(rest@ + queue@ =~= all);
        }
    }
    proof {
        assert(queue@ =~= all);
    }
    queue
}

/// An `if` chained with the `else if` and `else` statements at the front of the queue, which
/// it takes from the queue.
fn build_if_tree(current: RawAbstractSyntaxTree, queue: &mut VecDeque<RawAbstractSyntaxTree>) -> (tree:
    RawAbstractSyntaxTree)
    ensures
        tree_view(tree) == chained(tree_view(current), trees_view(old(queue)@)).0,
        final(queue)@ == old(queue)@.skip(chained(tree_view(current), trees_view(old(queue)@)).1 as int),
    decreases old(queue)@.len(),
{
    let ghost rest = trees_view(queue@);
    proof {
        lemma_trees_view_map(queue@);
        lemma_trees_view_map(queue@.skip(1));
        if queue@.len() > 0 {
            assert(rest.skip(1) =~= trees_view(queue@.skip(1)));
            assert(rest[0] == tree_view(queue@[0]));
        }
    }
    let RawAbstractSyntaxTree { node, children } = current;
    let node = match node {
        RawAbstractSyntaxNode::ElseIf { condition } => RawAbstractSyntaxNode::If { condition },
        other => other,
    };
    let mut children = children;
    if queue.len() > 0 {
        let is_else_if = match &queue[0].node {
            RawAbstractSyntaxNode::ElseIf { .. } => true,
            _ => false,
        };
        let is_else = match &queue[0].node {
            RawAbstractSyntaxNode::Else => true,
            _ => false,
        };
        if is_else_if {
            let next = queue.pop_front().unwrap();
            proof {
                assert(queue@ =~= old(queue)@.skip(1));
            }
            let ghost after_next = queue@;
            let nested = build_if_tree(next, queue);
            let mut wrapper_children: Vec<RawAbstractSyntaxTree> = Vec::new();
            wrapper_children.push(nested);
            proof {
                lemma_trees_view_push(Seq::empty(), nested);
                assert(wrapper_children@ =~= Seq::<RawAbstractSyntaxTree>::empty().push(nested));
                assert(trees_view(Seq::<RawAbstractSyntaxTree>::empty()) =~= Seq::<TreeView>::empty());
            }
            let wrapper = RawAbstractSyntaxTree::with_children(RawAbstractSyntaxNode::Else, wrapper_children);
            proof {
                lemma_trees_view_push(children@, wrapper);
                let taken = chained(rest[0], rest.skip(1)).1;
                lemma_chained_weight(rest[0], rest.skip(1));
                assert(after_next =~= old(queue)@.skip(1));
                assert(taken <= after_next.len());
                assert(after_next.skip(taken as int) =~= old(queue)@.skip(taken + 1int));
            }
            children.push(wrapper);
        } else if is_else {
            let else_tree = queue.pop_front().unwrap();
            proof {
                lemma_trees_view_push(children@, else_tree);
                assert(queue@ =~= old(queue)@.skip(1));
            }
            children.push(else_tree);
        }
    }
    proof {
        if !(queue@.len() > 0 && (rest[0].node is ElseIf || rest[0].node is Else)) {
            assert(old(queue)@.skip(0) =~= old(queue)@);
        }
    }
    RawAbstractSyntaxTree::with_children(node, children)
}

/// The first pass of the simplification of a tree.
fn simplify_ast(ast: RawAbstractSyntaxTree) -> (simplified: RawAbstractSyntaxTree)
    ensures
        tree_view(simplified) == simplified_tree(tree_view(ast)),
    decreases weight(tree_view(ast)),
{
    let ghost tv = tree_view(ast);
    proof {
        assert(weight(tv) == node_weight(tv.node) + weights(tv.children));
        lemma_weight_positive(tv);
        assert(node_weight(tv.node) >= 1);
    }
    let RawAbstractSyntaxTree { node, children } = ast;
    let mut queue = to_queue(children);
    let mut done: Vec<RawAbstractSyntaxTree> = Vec::new();
    proof {
        assert(trees_view(done@) =~= Seq::<TreeView>::empty());
        assert(trees_view(done@) + simplified_children(trees_view(queue@)) =~= simplified_children(tv.children));
    }
    while queue.len() > 0
        invariant
            trees_view(done@) + simplified_children(trees_view(queue@)) == simplified_children(tv.children),
            weights(trees_view(queue@)) <= weights(tv.children),
            weights(tv.children) < weight(tv),
            tv == tree_view(ast),
        decreases queue@.len(),
    {
        let ghost q = trees_view(queue@);
        let ghost q_raw = queue@;
        proof {
            lemma_trees_view_map(queue@);
            lemma_trees_view_map(queue@.skip(1));
            assert(q.skip(1) =~= trees_view(queue@.skip(1)));
            assert(q[0] == tree_view(queue@[0]));
            lemma_weights_first(q);
        }
        let first = queue.pop_front().unwrap();
        proof {
            assert(queue@ =~= q_raw.skip(1));
        }
        let is_if = match &first.node {
            RawAbstractSyntaxNode::If { .. } => true,
            _ => false,
        };
        let ghost after_first = queue@;
        let tree = if is_if {
            build_if_tree(first, &mut queue)
        } else {
            first
        };
        let ghost taken: nat = if is_if {
            chained(q[0], q.skip(1)).1
        } else {
            0
        };
        proof {
            if is_if {
                lemma_chained_weight(q[0], q.skip(1));
            } else {
                assert(after_first.skip(0) =~= after_first);
            }
            lemma_weight_positive(tree_view(tree));
            lemma_trees_view_map(queue@);
            assert(q.skip(1).skip(taken as int) =~= q.skip(taken + 1int));
            assert(trees_view(queue@) =~= q.skip(taken + 1int));
            assert(weight(tree_view(tree)) <= weights(q));
        }
        let simplified = simplify_ast(tree);
        let ghost before = done@;
        done.push(simplified);
        proof {
            lemma_trees_view_push(before, simplified);
            assert(simplified_children(q) == seq![simplified_tree(tree_view(tree))] + simplified_children(
                q.skip(taken + 1int),
            ));
            assert(trees_view(done@) + simplified_children(trees_view(queue@)) =~= trees_view(before)
                + simplified_children(q));
        }
    }
    proof {
        assert(simplified_children(trees_view(queue@)) =~= Seq::<TreeView>::empty()) by {
            lemma_trees_view_len(queue@);
        }
        assert(trees_view(done@) =~= simplified_children(tv.children));
    }
    match node {
        RawAbstractSyntaxNode::For { initializer, condition, increment } => {
            let mut scope_children: Vec<RawAbstractSyntaxTree> = Vec::new();
            proof {
                assert(trees_view(scope_children@) =~= Seq::<TreeView>::empty());
            }
            match initializer {
                Some(init) => {
                    let leaf = RawAbstractSyntaxTree::new(*init);
                    proof {
                        assert(leaf.children@ =~= Seq::<RawAbstractSyntaxTree>::empty());
                        assert(trees_view(leaf.children@) =~= Seq::<TreeView>::empty());
                        assert(weights(Seq::<TreeView>::empty()) == 0);
                        assert(weight(tree_view(leaf)) == node_weight(node_view(*init)));
                    }
                    let start = simplify_ast(leaf);
                    proof {
                        lemma_trees_view_push(scope_children@, start);
                    }
                    scope_children.push(start);
                },
                None => {},
            }
            let mut body = done;
            match increment {
                Some(e) => {
                    let step = RawAbstractSyntaxTree::new(RawAbstractSyntaxNode::Expression { expression: e });
                    proof {
                        lemma_trees_view_push(body@, step);
                        assert(trees_view(step.children@) =~= Seq::<TreeView>::empty());
                    }
                    body.push(step);
                },
                None => {},
            }
            let test = match condition {
                Some(c) => c,
                None => {
                    proof {
                        assert(['t', 'r', 'u', 'e']@ =~= seq!['t', 'r', 'u', 'e']);
                    }
                    Expression::Literal {
                        typ: (),
                        value: crate::translator::expression::text_of(&['t', 'r', 'u', 'e']),
                    }
                },
            };
            let loop_tree = RawAbstractSyntaxTree::with_children(
                RawAbstractSyntaxNode::While { condition: test },
                body,
            );
            proof {
                lemma_trees_view_push(scope_children@, loop_tree);
            }
            scope_children.push(loop_tree);
            RawAbstractSyntaxTree::with_children(RawAbstractSyntaxNode::Scope, scope_children)
        },
        other => RawAbstractSyntaxTree::with_children(other, done),
    }
}

/// Only a variable has the shape of a variable.
pub proof fn lemma_shape_variable<T>(e: Expression<T>)
    ensures
        shape(e) is Variable <==> e is Variable,
{
    match e {
        Expression::Variable { .. } => {},
        _ => {},
    }
}

/// The operator that a compound assignment applies.
fn compound_operator(operator: ExpressionBinaryOperator) -> (base: Option<ExpressionBinaryOperator>)
    ensures
        base == compound_base(operator),
{
    match operator {
        ExpressionBinaryOperator::AssignAdd => Some(ExpressionBinaryOperator::Add),
        ExpressionBinaryOperator::AssignSub => Some(ExpressionBinaryOperator::Sub),
        ExpressionBinaryOperator::AssignMul => Some(ExpressionBinaryOperator::Multiply),
        ExpressionBinaryOperator::AssignDiv => Some(ExpressionBinaryOperator::Divide),
        ExpressionBinaryOperator::AssignAnd => Some(ExpressionBinaryOperator::BitwiseAnd),
        ExpressionBinaryOperator::AssignOr => Some(ExpressionBinaryOperator::BitwiseOr),
        ExpressionBinaryOperator::AssignXor => Some(ExpressionBinaryOperator::BitwiseXor),
        _ => None,
    }
}

/// A compound assignment to a variable rewritten as a plain assignment.
fn simplify_expression(expression: Expression<()>) -> (simplified: Expression<()>)
    requires
        rewritable(shape(expression)),
    ensures
        shape(simplified) == rewritten(shape(expression)),
{
    let ghost view = shape(expression);
    match expression {
        Expression::BinaryOperator { typ, left, operator, right } => match compound_operator(operator) {
            Some(base) => match *left {
                Expression::Variable { name, .. } => {
                    let copy = name.clone();
                    let variable = Expression::Variable { typ: (), name };
                    proof {
                        assert(shape(variable) == ExpressionView::Variable(copy@));
                    }
                    let inner = Expression::BinaryOperator {
                        typ: (),
                        left: Box::new(variable),
                        operator: base,
                        right,
                    };
                    proof {
                        assert(shape(inner) == ExpressionView::Binary(
                            Box::new(ExpressionView::Variable(copy@)),
                            base,
                            Box::new(shape(*right)),
                        ));
                    }
                    let result = Expression::Assign { typ, name: copy, value: Box::new(inner) };
                    proof {
                        assert(view == ExpressionView::Binary(Box::new(shape(*left)), operator, Box::new(shape(*right))));
                        assert(shape(*left) == ExpressionView::Variable(copy@));
                        assert(view == ExpressionView::Binary(
                            Box::new(ExpressionView::Variable(copy@)),
                            operator,
                            Box::new(shape(*right)),
                        ));
                        assert(shape(result) == rewritten(view));
                    }
                    result
                },
                other => {
                    proof {
                        lemma_shape_variable(other);
                    }
                    Expression::BinaryOperator { typ, left: Box::new(other), operator, right }
                },
            },
            None => Expression::BinaryOperator { typ, left, operator, right },
        },
        other => other,
    }
}

/// The second pass of the simplification of a tree.
fn simplify_expressions(ast: RawAbstractSyntaxTree) -> (simplified: RawAbstractSyntaxTree)
    requires
        all_rewritable(tree_view(ast)),
    ensures
        tree_view(simplified) == rewritten_tree(tree_view(ast)),
    decreases ast,
{
    let ghost given = ast;
    let ghost all = ast.children@;
    let count = ast.children.len();
    let RawAbstractSyntaxTree { node, children } = ast;
    proof {
        lemma_trees_view_len(all);
        assert(all.take(0) =~= Seq::<RawAbstractSyntaxTree>::empty());
    }
    let mut queue = to_queue(children);
    let mut done: Vec<RawAbstractSyntaxTree> = Vec::new();
    let mut k: usize = 0;
    while queue.len() > 0
        invariant
            given == ast,
            all == given.children@,
            all.len() == count,
            queue@.len() == all.len() - k,
            all_rewritable(tree_view(given)),
            trees_view(all).len() == all.len(),
            k <= all.len(),
            queue@ == all.skip(k as int),
            trees_view(done@) == rewritten_trees(trees_view(all.take(k as int))),
        decreases queue@.len(),
    {
        let child = queue.pop_front().unwrap();
        proof {
            assert(child == all[k as int]);
            assert(queue@ =~= all.skip(k + 1));
            lemma_trees_view_index(all, k as int);
            assert(tree_view(given).children[k as int] == tree_view(child));
            assert(all_rewritable(tree_view(child)));
            assert(decreases_to!(given => given.children@[k as int]));
            assert(decreases_to!(given => child));
        }
        let simplified = simplify_expressions(child);
        let ghost before = done@;
        done.push(simplified);
        proof {
            lemma_trees_view_push(before, simplified);
            assert(all.take(k + 1).drop_last() =~= all.take(k as int));
            assert(all.take(k + 1).last() == child);
            assert(trees_view(all.take(k + 1)).drop_last() =~= trees_view(all.take(k as int)));
            assert(trees_view(all.take(k + 1)).last() == tree_view(child));
        }
        k = k + 1;
    }
    proof {
        assert(all.take(k as int) =~= all);
    }
    match node {
        RawAbstractSyntaxNode::Expression { expression } => {
            let e = simplify_expression(expression);
            RawAbstractSyntaxTree::with_children(RawAbstractSyntaxNode::Expression { expression: e }, done)
        },
        other => RawAbstractSyntaxTree::with_children(other, done),
    }
}

/// The simplification of a statement tree before its analysis: `if` chains are built, `for`
/// loops become `while` loops in a scope of their own, and compound assignments in
/// expression statements become plain assignments.
pub fn simplify(ast: RawAbstractSyntaxTree) -> (simplified: RawAbstractSyntaxTree)
    requires
        all_rewritable(simplified_tree(tree_view(ast))),
    ensures
        tree_view(simplified) == rewritten_tree(simplified_tree(tree_view(ast))),
{
    let first = simplify_ast(ast);
    simplify_expressions(first)
}

/// Whether an expression statement can be rewritten.
fn is_rewritable(expression: &Expression<()>) -> (ok: bool)
    ensures
        ok == rewritable(shape(*expression)),
{
    match expression {
        Expression::BinaryOperator { left, operator, .. } => {
            proof {
                lemma_shape_variable(**left);
            }
            match compound_operator(*operator) {
                Some(_) => match **left {
                    Expression::Variable { .. } => true,
                    _ => false,
                },
                None => true,
            }
        },
        _ => true,
    }
}

/// Whether every expression statement of a tree can be rewritten.
fn is_all_rewritable(tree: &RawAbstractSyntaxTree) -> (ok: bool)
    ensures
        ok == all_rewritable(tree_view(*tree)),
    decreases tree,
{
    let own = match &tree.node {
        RawAbstractSyntaxNode::Expression { expression } => is_rewritable(expression),
        _ => true,
    };
    if !own {
        return false;
    }
    let ghost children = trees_view(tree.children@);
    proof {
        lemma_trees_view_len(tree.children@);
    }
    assert(tree_view(*tree).children == children);
    let mut k: usize = 0;
    while k < tree.children.len()
        invariant
            k <= tree.children@.len(),
            children == trees_view(tree.children@),
            children.len() == tree.children@.len(),
            forall|j: int| 0 <= j < k ==> all_rewritable(#[trigger] children[j]),
        decreases tree.children@.len() - k,
    {
        proof {
            lemma_trees_view_index(tree.children@, k as int);
        }
        if !is_all_rewritable(&tree.children[k]) {
            proof {
                assert(tree_view(*tree).children == children);
                assert(!all_rewritable(tree_view(*tree).children[k as int]));
            }
            return false;
        }
        k = k + 1;
    }
    true
}

/// The simplification of a statement tree where it is defined: `None` where a compound
/// assignment in an expression statement, after the first pass, assigns something other than
/// a variable.
pub fn simplify_checked(ast: RawAbstractSyntaxTree) -> (simplified: Option<RawAbstractSyntaxTree>)
    ensures
        match simplified {
            Some(t) => all_rewritable(simplified_tree(tree_view(ast))) && tree_view(t)
                == rewritten_tree(simplified_tree(tree_view(ast))),
            None => !all_rewritable(simplified_tree(tree_view(ast))),
        },
{
    let first = simplify_ast(ast);
    if !is_all_rewritable(&first) {
        return None;
    }
    Some(simplify_expressions(first))
}

/// Whether no statement of a tree is a `for` loop.
pub open spec fn free_of_for(tree: TreeView) -> bool
    decreases tree,
{
    !(tree.node is For) && forall|i: int|
        0 <= i < tree.children.len() ==> free_of_for(#[trigger] tree.children[i])
}

/// The first pass leaves no `for` loop in a tree.
proof fn lemma_simplified_tree_free_of_for(tree: TreeView)
    ensures
        free_of_for(simplified_tree(tree)),
    decreases weight(tree), 1nat,
{
    assert(weight(tree) == node_weight(tree.node) + weights(tree.children));
    lemma_weight_positive(tree);
    lemma_simplified_children_free_of_for(tree.children);
    let children = simplified_children(tree.children);
    match tree.node {
        NodeView::For(initializer, condition, increment) => {
            let start = match initializer {
                Some(init) => {
                    let leaf = TreeView { node: *init, children: Seq::empty() };
                    assert(weights(Seq::<TreeView>::empty()) == 0);
                    lemma_simplified_tree_free_of_for(leaf);
                    seq![simplified_tree(leaf)]
                },
                None => Seq::empty(),
            };
            let body = match increment {
                Some(e) => children.push(
                    TreeView { node: NodeView::Expression(e), children: Seq::empty() },
                ),
                None => children,
            };
            let test = match condition {
                Some(c) => c,
                None => ExpressionView::Literal(seq!['t', 'r', 'u', 'e']),
            };
            let loop_tree = TreeView { node: NodeView::While(test), children: body };
            assert(free_of_for(loop_tree)) by {
                assert forall|i: int| 0 <= i < body.len() implies free_of_for(#[trigger] body[i]) by {
                    if i < children.len() {
                        assert(body[i] == children[i]);
                    }
                }
            }
            let result = simplified_tree(tree);
            assert(result.children == start.push(loop_tree));
            assert forall|i: int| 0 <= i < result.children.len() implies free_of_for(
                #[trigger] result.children[i],
            ) by {
                if i < start.len() {
                    assert(result.children[i] == start[i]);
                }
            }
        },
        _ => {},
    }
}

/// The first pass leaves no `for` loop in the statements of a body.
proof fn lemma_simplified_children_free_of_for(children: Seq<TreeView>)
    ensures
        forall|i: int|
            0 <= i < simplified_children(children).len() ==> free_of_for(
                #[trigger] simplified_children(children)[i],
            ),
    decreases weights(children), 2nat,
{
    if children.len() > 0 {
        let first = children[0];
        let (tree, taken) = if first.node is If {
            chained(first, children.skip(1))
        } else {
            (first, 0nat)
        };
        lemma_weights_first(children);
        if first.node is If {
            lemma_chained_weight(first, children.skip(1));
        }
        lemma_weight_positive(tree);
        assert(children.skip(1).skip(taken as int) =~= children.skip(taken + 1int));
        lemma_simplified_tree_free_of_for(tree);
        if taken + 1 <= children.len() {
            lemma_simplified_children_free_of_for(children.skip(taken + 1int));
            let rest = simplified_children(children.skip(taken + 1int));
            let all = simplified_children(children);
            assert(all == seq![simplified_tree(tree)] + rest);
            assert forall|i: int| 0 <= i < all.len() implies free_of_for(#[trigger] all[i]) by {
                if i > 0 {
                    assert(all[i] == rest[i - 1]);
                }
            }
        }
    }
}

/// The second pass keeps a tree free of `for` loops.
proof fn lemma_rewritten_free_of_for(tree: TreeView)
    requires
        free_of_for(tree),
    ensures
        free_of_for(rewritten_tree(tree)),
    decreases tree,
{
    lemma_rewritten_trees_free_of_for(tree.children);
}

/// The second pass keeps sequences of trees free of `for` loops.
proof fn lemma_rewritten_trees_free_of_for(trees: Seq<TreeView>)
    requires
        forall|i: int| 0 <= i < trees.len() ==> free_of_for(#[trigger] trees[i]),
    ensures
        rewritten_trees(trees).len() == trees.len(),
        forall|i: int|
            0 <= i < rewritten_trees(trees).len() ==> free_of_for(#[trigger] rewritten_trees(trees)[i]),
    decreases trees,
{
    if trees.len() > 0 {
        lemma_rewritten_trees_free_of_for(trees.drop_last());
        lemma_rewritten_free_of_for(trees.last());
        let all = rewritten_trees(trees);
        assert forall|i: int| 0 <= i < all.len() implies free_of_for(#[trigger] all[i]) by {
            if i < trees.len() - 1 {
                assert(all[i] == rewritten_trees(trees.drop_last())[i]);
            }
        }
    }
}

/// After the simplification no `for` loop is left anywhere in the tree: each has become a
/// `while` loop inside a scope.
pub proof fn lemma_simplify_removes_for(tree: TreeView)
    ensures
        free_of_for(rewritten_tree(simplified_tree(tree))),
{
    lemma_simplified_tree_free_of_for(tree);
    lemma_rewritten_free_of_for(simplified_tree(tree));
}

/// Whether no expression statement anywhere in a tree is a compound assignment.
pub open spec fn free_of_compound(tree: TreeView) -> bool
    decreases tree,
{
    !(tree.node matches NodeView::Expression(ExpressionView::Binary(_, operator, _))
        && compound_base(operator) is Some) && forall|i: int|
        0 <= i < tree.children.len() ==> free_of_compound(#[trigger] tree.children[i])
}

/// Rewriting leaves no compound assignment in a tree whose compound assignments all assign
/// variables.
proof fn lemma_rewritten_free_of_compound(tree: TreeView)
    requires
        all_rewritable(tree),
    ensures
        free_of_compound(rewritten_tree(tree)),
    decreases tree,
{
    lemma_rewritten_trees_free_of_compound(tree.children);
}

/// Rewriting leaves no compound assignment in a sequence of such trees.
proof fn lemma_rewritten_trees_free_of_compound(trees: Seq<TreeView>)
    requires
        forall|i: int| 0 <= i < trees.len() ==> all_rewritable(#[trigger] trees[i]),
    ensures
        rewritten_trees(trees).len() == trees.len(),
        forall|i: int|
            0 <= i < rewritten_trees(trees).len() ==> free_of_compound(
                #[trigger] rewritten_trees(trees)[i],
            ),
    decreases trees,
{
    if trees.len() > 0 {
        lemma_rewritten_trees_free_of_compound(trees.drop_last());
        lemma_rewritten_free_of_compound(trees.last());
        let all = rewritten_trees(trees);
        assert forall|i: int| 0 <= i < all.len() implies free_of_compound(#[trigger] all[i]) by {
            if i < trees.len() - 1 {
                assert(all[i] == rewritten_trees(trees.drop_last())[i]);
            }
        }
    }
}

/// After the simplification no compound assignment `x op= e` is left as a statement: each has
/// become `x = x op e`.
pub proof fn lemma_simplify_removes_compound_assignments(tree: TreeView)
    requires
        all_rewritable(simplified_tree(tree)),
    ensures
        free_of_compound(rewritten_tree(simplified_tree(tree))),
{
    lemma_rewritten_free_of_compound(simplified_tree(tree));
}

/// Whether no `else if` is left anywhere in a tree.
pub open spec fn free_of_else_if(tree: TreeView) -> bool
    decreases tree,
{
    !(tree.node is ElseIf) && forall|i: int|
        0 <= i < tree.children.len() ==> free_of_else_if(#[trigger] tree.children[i])
}

/// Whether every `else if` among `trees`, past the first `skip` of them, directly follows an
/// `if` or an `else if`.
pub open spec fn else_ifs_follow(trees: Seq<TreeView>, skip: int) -> bool {
    forall|i: int|
        skip <= i < trees.len() && (#[trigger] trees[i]).node is ElseIf ==> i > 0 && (trees[i
            - 1].node is If || trees[i - 1].node is ElseIf)
}

/// Whether no `for` loop, nor any `for` loop in its initializer, starts with an `else if`.
pub open spec fn initializers_placed(node: NodeView) -> bool
    decreases node,
{
    match node {
        NodeView::For(Some(initializer), _, _) => !(*initializer is ElseIf) && initializers_placed(
            *initializer,
        ),
        _ => true,
    }
}

/// Whether every `else if` in a tree directly follows an `if` or an `else if` of the same body,
/// and no `for` loop starts with an `else if`: the shape that building statement trees gives.
pub open spec fn else_ifs_placed(tree: TreeView) -> bool
    decreases tree,
{
    &&& else_ifs_follow(tree.children, 0)
    &&& initializers_placed(tree.node)
    &&& forall|i: int|
        0 <= i < tree.children.len() ==> else_ifs_placed(#[trigger] tree.children[i])
}

/// Chaining a placed `if` or `else if` with the statements that follow gives a placed tree that
/// is not an `else if`, and the first statement it leaves is not an `else if`.
proof fn lemma_chained_placed(current: TreeView, rest: Seq<TreeView>)
    requires
        else_ifs_placed(current),
        current.node is If || current.node is ElseIf,
        else_ifs_follow(rest, 1),
        forall|i: int| 0 <= i < rest.len() ==> else_ifs_placed(#[trigger] rest[i]),
    ensures
        else_ifs_placed(chained(current, rest).0),
        !(chained(current, rest).0.node is ElseIf),
        chained(current, rest).1 <= rest.len(),
        chained(current, rest).1 < rest.len() ==> !(rest[chained(current, rest).1 as int].node is ElseIf),
    decreases rest.len(),
{
    lemma_chained_weight(current, rest);
    let head = match current.node {
        NodeView::ElseIf(condition) => TreeView { node: NodeView::If(condition), children: current.children },
        _ => current,
    };
    assert(else_ifs_placed(head));
    if rest.len() > 0 && rest[0].node is ElseIf {
        let tail = rest.skip(1);
        assert forall|i: int| 0 <= i < tail.len() implies else_ifs_placed(#[trigger] tail[i]) by {
            assert(tail[i] == rest[i + 1]);
        }
        assert forall|i: int| 1 <= i < tail.len() && (#[trigger] tail[i]).node is ElseIf implies i > 0
            && (tail[i - 1].node is If || tail[i - 1].node is ElseIf) by {
            assert(tail[i] == rest[i + 1] && tail[i - 1] == rest[i]);
        }
        lemma_chained_placed(rest[0], tail);
        let (nested, taken) = chained(rest[0], tail);
        let wrapper = TreeView { node: NodeView::Else, children: seq![nested] };
        assert(else_ifs_placed(wrapper)) by {
            assert(wrapper.children[0] == nested);
        }
        let children = head.children.push(wrapper);
        assert(else_ifs_follow(children, 0)) by {
            assert forall|i: int|
                0 <= i < children.len() && (#[trigger] children[i]).node is ElseIf implies i > 0
                && (children[i - 1].node is If || children[i - 1].node is ElseIf) by {
                assert(children[i] == head.children[i]);
                assert(children[i - 1] == head.children[i - 1]);
            }
        }
        assert forall|i: int| 0 <= i < children.len() implies else_ifs_placed(#[trigger] children[i]) by {
            if i < head.children.len() {
                assert(children[i] == head.children[i]);
            }
        }
        if taken < tail.len() {
            assert(tail[taken as int] == rest[taken + 1int]);
        }
    } else if rest.len() > 0 && rest[0].node is Else {
        let children = head.children.push(rest[0]);
        assert(else_ifs_follow(children, 0)) by {
            assert forall|i: int|
                0 <= i < children.len() && (#[trigger] children[i]).node is ElseIf implies i > 0
                && (children[i - 1].node is If || children[i - 1].node is ElseIf) by {
                assert(children[i] == head.children[i]);
                assert(children[i - 1] == head.children[i - 1]);
            }
        }
        assert forall|i: int| 0 <= i < children.len() implies else_ifs_placed(#[trigger] children[i]) by {
            if i < head.children.len() {
                assert(children[i] == head.children[i]);
            }
        }
        if rest.len() > 1 {
            assert(!(rest[1].node is ElseIf));
        }
    }
}

/// The first pass leaves no `else if` in a placed tree that is not itself an `else if`.
proof fn lemma_simplified_tree_free_of_else_if(tree: TreeView)
    requires
        else_ifs_placed(tree),
        !(tree.node is ElseIf),
    ensures
        free_of_else_if(simplified_tree(tree)),
    decreases weight(tree), 1nat,
{
    assert(weight(tree) == node_weight(tree.node) + weights(tree.children));
    lemma_weight_positive(tree);
    lemma_simplified_children_free_of_else_if(tree.children);
    let children = simplified_children(tree.children);
    match tree.node {
        NodeView::For(initializer, condition, increment) => {
            let start = match initializer {
                Some(init) => {
                    let leaf = TreeView { node: *init, children: Seq::empty() };
                    assert(weights(Seq::<TreeView>::empty()) == 0);
                    lemma_simplified_tree_free_of_else_if(leaf);
                    seq![simplified_tree(leaf)]
                },
                None => Seq::empty(),
            };
            let body = match increment {
                Some(e) => children.push(
                    TreeView { node: NodeView::Expression(e), children: Seq::empty() },
                ),
                None => children,
            };
            let test = match condition {
                Some(c) => c,
                None => ExpressionView::Literal(seq!['t', 'r', 'u', 'e']),
            };
            let loop_tree = TreeView { node: NodeView::While(test), children: body };
            assert(free_of_else_if(loop_tree)) by {
                assert forall|i: int| 0 <= i < body.len() implies free_of_else_if(#[trigger] body[i]) by {
                    if i < children.len() {
                        assert(body[i] == children[i]);
                    }
                }
            }
            let result = simplified_tree(tree);
            assert(result.children == start.push(loop_tree));
            assert forall|i: int| 0 <= i < result.children.len() implies free_of_else_if(
                #[trigger] result.children[i],
            ) by {
                if i < start.len() {
                    assert(result.children[i] == start[i]);
                }
            }
        },
        _ => {},
    }
}

/// The first pass leaves no `else if` in a placed body.
proof fn lemma_simplified_children_free_of_else_if(children: Seq<TreeView>)
    requires
        else_ifs_follow(children, 0),
        forall|i: int| 0 <= i < children.len() ==> else_ifs_placed(#[trigger] children[i]),
    ensures
        forall|i: int|
            0 <= i < simplified_children(children).len() ==> free_of_else_if(
                #[trigger] simplified_children(children)[i],
            ),
    decreases weights(children), 2nat,
{
    if children.len() > 0 {
        let first = children[0];
        let (tree, taken) = if first.node is If {
            chained(first, children.skip(1))
        } else {
            (first, 0nat)
        };
        lemma_weights_first(children);
        let rest1 = children.skip(1);
        assert forall|i: int| 0 <= i < rest1.len() implies else_ifs_placed(#[trigger] rest1[i]) by {
            assert(rest1[i] == children[i + 1]);
        }
        assert forall|i: int| 1 <= i < rest1.len() && (#[trigger] rest1[i]).node is ElseIf implies i
            > 0 && (rest1[i - 1].node is If || rest1[i - 1].node is ElseIf) by {
            assert(rest1[i] == children[i + 1] && rest1[i - 1] == children[i]);
        }
        if first.node is If {
            lemma_chained_weight(first, rest1);
            lemma_chained_placed(first, rest1);
        } else {
            if children.len() > 1 {
                assert(!(children[1].node is ElseIf));
            }
        }
        lemma_weight_positive(tree);
        assert(children.skip(1).skip(taken as int) =~= children.skip(taken + 1int));
        lemma_simplified_tree_free_of_else_if(tree);
        if taken + 1 <= children.len() {
            let later = children.skip(taken + 1int);
            assert forall|i: int| 0 <= i < later.len() implies else_ifs_placed(#[trigger] later[i]) by {
                assert(later[i] == children[i + taken + 1int]);
            }
            assert forall|i: int|
                0 <= i < later.len() && (#[trigger] later[i]).node is ElseIf implies i > 0 && (later[i
                    - 1].node is If || later[i - 1].node is ElseIf) by {
                assert(later[i] == children[i + taken + 1int]);
                if i > 0 {
                    assert(later[i - 1] == children[i + taken as int]);
                } else {
                    assert(later[0] == rest1[taken as int]);
                }
            }
            lemma_simplified_children_free_of_else_if(later);
            let rest = simplified_children(later);
            let all = simplified_children(children);
            assert(all == seq![simplified_tree(tree)] + rest);
            assert forall|i: int| 0 <= i < all.len() implies free_of_else_if(#[trigger] all[i]) by {
                if i > 0 {
                    assert(all[i] == rest[i - 1]);
                }
            }
        }
    }
}

/// The second pass keeps a tree free of `else if`.
proof fn lemma_rewritten_free_of_else_if(tree: TreeView)
    requires
        free_of_else_if(tree),
    ensures
        free_of_else_if(rewritten_tree(tree)),
    decreases tree,
{
    lemma_rewritten_trees_free_of_else_if(tree.children);
}

/// The second pass keeps sequences of trees free of `else if`.
proof fn lemma_rewritten_trees_free_of_else_if(trees: Seq<TreeView>)
    requires
        forall|i: int| 0 <= i < trees.len() ==> free_of_else_if(#[trigger] trees[i]),
    ensures
        rewritten_trees(trees).len() == trees.len(),
        forall|i: int|
            0 <= i < rewritten_trees(trees).len() ==> free_of_else_if(
                #[trigger] rewritten_trees(trees)[i],
            ),
    decreases trees,
{
    if trees.len() > 0 {
        lemma_rewritten_trees_free_of_else_if(trees.drop_last());
        lemma_rewritten_free_of_else_if(trees.last());
        let all = rewritten_trees(trees);
        assert forall|i: int| 0 <= i < all.len() implies free_of_else_if(#[trigger] all[i]) by {
            if i < trees.len() - 1 {
                assert(all[i] == rewritten_trees(trees.drop_last())[i]);
            }
        }
    }
}

/// After the simplification no `else if` is left anywhere in a tree whose `else if`s each
/// follow an `if` or `else if` of the same body: each chain has become an `if` whose `else`
/// holds the next `if`.
pub proof fn lemma_simplify_removes_else_if(tree: TreeView)
    requires
        else_ifs_placed(tree),
        !(tree.node is ElseIf),
    ensures
        free_of_else_if(rewritten_tree(simplified_tree(tree))),
{
    lemma_simplified_tree_free_of_else_if(tree);
    lemma_rewritten_free_of_else_if(simplified_tree(tree));
}

/// A compound assignment `x op= e`, written with the operator text `op` followed by `=`, is
/// rewritten as `x = x op e` with the operator that `op` alone names: `-=` subtracts, `*=`
/// multiplies, and so on.
pub proof fn lemma_compound_assignment_rewrite(name: Seq<char>, text: Seq<char>, value: ExpressionView)
    requires
        text.len() > 0,
        crate::translator::expression::operator_named(text.push('=')) is Some,
    ensures
        ({
            let operator = crate::translator::expression::operator_named(text.push('='))->0;
            let target = ExpressionView::Variable(name);
            compound_base(operator) is Some ==> crate::translator::expression::operator_named(text)
                is Some && rewritten(
                ExpressionView::Binary(Box::new(target), operator, Box::new(value)),
            ) == ExpressionView::Assign(
                name,
                Box::new(
                    ExpressionView::Binary(
                        Box::new(target),
                        crate::translator::expression::operator_named(text)->0,
                        Box::new(value),
                    ),
                ),
            )
        }),
{
    let whole = text.push('=');
    let operator = crate::translator::expression::operator_named(whole)->0;
    assert(text =~= whole.drop_last());
    if operator == ExpressionBinaryOperator::AssignAdd {
        assert(whole =~= seq!['+', '=']);
        assert(text =~= seq!['+']);
    } else if operator == ExpressionBinaryOperator::AssignSub {
        assert(whole =~= seq!['-', '=']);
        assert(text =~= seq!['-']);
    } else if operator == ExpressionBinaryOperator::AssignMul {
        assert(whole =~= seq!['*', '=']);
        assert(text =~= seq!['*']);
    } else if operator == ExpressionBinaryOperator::AssignDiv {
        assert(whole =~= seq!['/', '=']);
        assert(text =~= seq!['/']);
    } else if operator == ExpressionBinaryOperator::AssignAnd {
        assert(whole =~= seq!['&', '=']);
        assert(text =~= seq!['&']);
    } else if operator == ExpressionBinaryOperator::AssignOr {
        assert(whole =~= seq!['|', '=']);
        assert(text =~= seq!['|']);
    } else if operator == ExpressionBinaryOperator::AssignXor {
        assert(whole =~= seq!['^', '=']);
        assert(text =~= seq!['^']);
    }
}

} // verus!
