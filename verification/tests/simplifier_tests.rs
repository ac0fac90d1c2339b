use proc_translator::parser::{SyntaxNode, SyntaxTree};
use proc_translator::translator::analyzer::{semantic_analyze, TypedAbstractSyntaxNode};
use proc_translator::translator::ast::{build_ast, RawAbstractSyntaxNode, RawAbstractSyntaxTree};
use proc_translator::translator::expression::{Expression, ExpressionBinaryOperator};
use proc_translator::translator::simplifier::simplify;

fn line(value: &str) -> SyntaxTree {
    SyntaxTree::new(SyntaxNode::Line { value: value.to_string() })
}

fn with(node: SyntaxNode, children: Vec<SyntaxTree>) -> SyntaxTree {
    SyntaxTree { node, children }
}

fn scope(children: Vec<SyntaxTree>) -> RawAbstractSyntaxTree {
    match build_ast(with(SyntaxNode::Scope, children)) {
        Ok(tree) => tree,
        Err(_) => panic!("the statements should build"),
    }
}

fn if_tree(condition: &str, body: Vec<SyntaxTree>) -> SyntaxTree {
    with(SyntaxNode::If { condition: condition.to_string() }, body)
}

fn variable(e: &Expression<()>) -> &str {
    match e {
        Expression::Variable { name, .. } => name,
        _ => panic!("not a variable"),
    }
}

fn literal(e: &Expression<()>) -> &str {
    match e {
        Expression::Literal { value, .. } => value,
        _ => panic!("not a literal"),
    }
}

fn condition_name(tree: &RawAbstractSyntaxTree) -> &str {
    match &tree.node {
        RawAbstractSyntaxNode::If { condition } => variable(condition),
        _ => panic!("expected an if"),
    }
}

#[test]
fn test_for_becomes_while_in_a_scope() {
    let tree = simplify(scope(vec![with(
        SyntaxNode::For { condition: "int i = 0; i < 3; i++".to_string() },
        vec![line("x = i")],
    )]));
    let outer = &tree.children[0];
    assert!(matches!(outer.node, RawAbstractSyntaxNode::Scope));
    assert_eq!(outer.children.len(), 2);
    assert!(matches!(outer.children[0].node, RawAbstractSyntaxNode::Declaration { .. }));
    let while_tree = &outer.children[1];
    match &while_tree.node {
        RawAbstractSyntaxNode::While { condition } => {
            assert!(matches!(condition, Expression::BinaryOperator { operator: ExpressionBinaryOperator::Less, .. }))
        }
        _ => panic!("expected a while loop"),
    }
    assert_eq!(while_tree.children.len(), 2);
    assert!(matches!(while_tree.children[0].node, RawAbstractSyntaxNode::Expression { .. }));
    match &while_tree.children[1].node {
        RawAbstractSyntaxNode::Expression { expression: Expression::Increment { postfix: true, .. } } => {}
        _ => panic!("expected the increment last"),
    }
}

#[test]
fn test_for_without_parts() {
    let tree = simplify(scope(vec![with(SyntaxNode::For { condition: ";;".to_string() }, vec![line("break")])]));
    let outer = &tree.children[0];
    assert_eq!(outer.children.len(), 1);
    match &outer.children[0].node {
        RawAbstractSyntaxNode::While { condition } => assert_eq!(literal(condition), "true"),
        _ => panic!("expected a while loop"),
    }
    assert_eq!(outer.children[0].children.len(), 1);
}

#[test]
fn test_if_chain() {
    let tree = simplify(scope(vec![
        if_tree("a", vec![line("x = 1")]),
        with(SyntaxNode::ElseIf { condition: "b".to_string() }, vec![line("x = 2")]),
        with(SyntaxNode::Else, vec![line("x = 3")]),
        line("y = 4"),
    ]));
    assert_eq!(tree.children.len(), 2);
    let first = &tree.children[0];
    assert_eq!(condition_name(first), "a");
    assert_eq!(first.children.len(), 2);
    let else_tree = &first.children[1];
    assert!(matches!(else_tree.node, RawAbstractSyntaxNode::Else));
    assert_eq!(else_tree.children.len(), 1);
    let nested = &else_tree.children[0];
    assert_eq!(condition_name(nested), "b");
    assert_eq!(nested.children.len(), 2);
    assert!(matches!(nested.children[1].node, RawAbstractSyntaxNode::Else));
    assert!(matches!(tree.children[1].node, RawAbstractSyntaxNode::Expression { .. }));
}

#[test]
fn test_else_attaches_to_the_innermost_if() {
    let tree = simplify(scope(vec![
        if_tree("a", vec![if_tree("b", vec![line("x = 1")])]),
        with(SyntaxNode::Else, vec![line("x = 2")]),
    ]));
    let outer = &tree.children[0];
    assert_eq!(outer.children.len(), 1);
    let inner = &outer.children[0];
    assert_eq!(condition_name(inner), "b");
    assert_eq!(inner.children.len(), 2);
    assert!(matches!(inner.children[1].node, RawAbstractSyntaxNode::Else));
}

#[test]
fn test_compound_assignment() {
    let tree = simplify(scope(vec![line("x += 2"), line("y = 1")]));
    match &tree.children[0].node {
        RawAbstractSyntaxNode::Expression { expression: Expression::Assign { name, value, .. } } => {
            assert_eq!(name, "x");
            match &**value {
                Expression::BinaryOperator { left, operator, right, .. } => {
                    assert_eq!(variable(left), "x");
                    assert!(*operator == ExpressionBinaryOperator::Add);
                    assert_eq!(literal(right), "2");
                }
                _ => panic!("expected x + 2"),
            }
        }
        _ => panic!("expected an assignment"),
    }
    assert!(matches!(
        &tree.children[1].node,
        RawAbstractSyntaxNode::Expression { expression: Expression::Assign { .. } }
    ));
}

#[test]
fn test_simplified_program_passes_analysis() {
    let program = with(
        SyntaxNode::File,
        vec![with(
            SyntaxNode::Function {
                result_type: "int".to_string(),
                name: "Main".to_string(),
                arguments: "".to_string(),
            },
            vec![
                line("int total = 0"),
                with(
                    SyntaxNode::For { condition: "int i = 0; i < 4; i += 1".to_string() },
                    vec![line("total += i")],
                ),
                if_tree("total > 3", vec![line("return total;")]),
                with(SyntaxNode::Else, vec![line("return 0;")]),
            ],
        )],
    );
    let raw = match build_ast(program) {
        Ok(tree) => tree,
        Err(_) => panic!("the program should build"),
    };
    match semantic_analyze(simplify(raw)) {
        Ok(tree) => {
            let main = &tree.children[0];
            assert!(matches!(main.node, TypedAbstractSyntaxNode::Callable { .. }));
            assert_eq!(main.children.len(), 3);
            assert!(matches!(main.children[1].node, TypedAbstractSyntaxNode::Scope));
        }
        Err(_) => panic!("the simplified program should pass"),
    }
}
