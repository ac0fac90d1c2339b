use proc_translator::parser::{SyntaxNode, SyntaxTree};
use proc_translator::translator::ast::{build_ast, AstError, RawAbstractSyntaxNode, RawAbstractSyntaxTree};
use proc_translator::translator::common::Type;
use proc_translator::translator::expression::{Expression, ExpressionBinaryOperator, ParseError};

fn line(value: &str) -> SyntaxTree {
    SyntaxTree::new(SyntaxNode::Line { value: value.to_string() })
}

fn with(node: SyntaxNode, children: Vec<SyntaxTree>) -> SyntaxTree {
    SyntaxTree { node, children }
}

fn function(result_type: &str, name: &str, arguments: &str, body: Vec<SyntaxTree>) -> SyntaxTree {
    with(
        SyntaxNode::Function {
            result_type: result_type.to_string(),
            name: name.to_string(),
            arguments: arguments.to_string(),
        },
        body,
    )
}

fn literal(expression: &Expression<()>) -> &str {
    match expression {
        Expression::Literal { value, .. } => value,
        _ => panic!("not a literal"),
    }
}

fn variable(expression: &Expression<()>) -> &str {
    match expression {
        Expression::Variable { name, .. } => name,
        _ => panic!("not a variable"),
    }
}

fn single_line(value: &str) -> RawAbstractSyntaxNode {
    match build_ast(line(value)) {
        Ok(tree) => {
            assert!(tree.children.is_empty());
            tree.node
        }
        Err(_) => panic!("line should build"),
    }
}

fn line_error(value: &str) -> AstError {
    match build_ast(line(value)) {
        Ok(_) => panic!("line should fail"),
        Err(e) => e,
    }
}

#[test]
fn test_return_without_value() {
    assert!(matches!(single_line("return;"), RawAbstractSyntaxNode::Return { value: None }));
    assert!(matches!(single_line("  return;; "), RawAbstractSyntaxNode::Return { value: None }));
    assert!(line_error("return ;") == AstError::Expression(ParseError::Empty));
}

#[test]
fn test_return_with_value() {
    match single_line("return x;") {
        RawAbstractSyntaxNode::Return { value: Some(e) } => assert_eq!(variable(&e), "x"),
        _ => panic!("expected return"),
    }
}

#[test]
fn test_break_and_continue() {
    assert!(matches!(single_line("break;"), RawAbstractSyntaxNode::Break));
    assert!(matches!(single_line("continue"), RawAbstractSyntaxNode::Continue));
}

#[test]
fn test_declaration_with_value() {
    match single_line("int x = 1 + 2") {
        RawAbstractSyntaxNode::Declaration { typ, name, expression: Some(e) } => {
            assert!(typ == Type::Int);
            assert_eq!(name, "x");
            match e {
                Expression::BinaryOperator { left, operator, right, .. } => {
                    assert_eq!(literal(&left), "1");
                    assert!(operator == ExpressionBinaryOperator::Add);
                    assert_eq!(literal(&right), "2");
                }
                _ => panic!("expected a sum"),
            }
        }
        _ => panic!("expected a declaration"),
    }
}

#[test]
fn test_declaration_without_value() {
    match single_line("Point p") {
        RawAbstractSyntaxNode::Declaration { typ, name, expression: None } => {
            assert!(typ == Type::Class("Point".to_string()));
            assert_eq!(name, "p");
        }
        _ => panic!("expected a declaration"),
    }
    match single_line("int x =") {
        RawAbstractSyntaxNode::Declaration { typ, name, expression: None } => {
            assert!(typ == Type::Int);
            assert_eq!(name, "x");
        }
        _ => panic!("expected a declaration"),
    }
}

#[test]
fn test_array_declaration() {
    match single_line("int[10] values") {
        RawAbstractSyntaxNode::Declaration { typ, name, expression: None } => {
            assert!(typ == Type::Array(Box::new(Type::Int), 10));
            assert_eq!(name, "values");
        }
        _ => panic!("expected a declaration"),
    }
    match single_line("char[3][2] grid") {
        RawAbstractSyntaxNode::Declaration { typ, .. } => {
            assert!(typ == Type::Array(Box::new(Type::Array(Box::new(Type::Char), 3)), 2));
        }
        _ => panic!("expected a declaration"),
    }
}

#[test]
fn test_invalid_array_size() {
    assert!(line_error("int[n] values") == AstError::InvalidArraySize);
}

#[test]
fn test_lower_case_type_is_an_expression() {
    match single_line("x = y") {
        RawAbstractSyntaxNode::Expression { expression: Expression::Assign { name, value, .. } } => {
            assert_eq!(name, "x");
            assert_eq!(variable(&value), "y");
        }
        _ => panic!("expected an assignment"),
    }
}

#[test]
fn test_expression_error() {
    assert!(line_error("") == AstError::Expression(ParseError::Empty));
}

#[test]
fn test_for_loop() {
    let tree = with(
        SyntaxNode::For { condition: "int i = 0; i < 10; i++".to_string() },
        vec![line("x = x + i")],
    );
    match build_ast(tree) {
        Ok(RawAbstractSyntaxTree {
            node: RawAbstractSyntaxNode::For { initializer: Some(init), condition: Some(c), increment: Some(inc) },
            children,
        }) => {
            match *init {
                RawAbstractSyntaxNode::Declaration { typ, name, expression: Some(e) } => {
                    assert!(typ == Type::Int);
                    assert_eq!(name, "i");
                    assert_eq!(literal(&e), "0");
                }
                _ => panic!("expected a declaration"),
            }
            assert!(matches!(c, Expression::BinaryOperator { operator: ExpressionBinaryOperator::Less, .. }));
            assert!(matches!(inc, Expression::Increment { postfix: true, .. }));
            assert_eq!(children.len(), 1);
        }
        _ => panic!("expected a for loop"),
    }
}

#[test]
fn test_for_loop_with_empty_parts() {
    match build_ast(with(SyntaxNode::For { condition: ";;".to_string() }, vec![])) {
        Ok(RawAbstractSyntaxTree {
            node: RawAbstractSyntaxNode::For { initializer: None, condition: None, increment: None },
            children,
        }) => assert!(children.is_empty()),
        _ => panic!("expected an empty for loop"),
    }
}

#[test]
fn test_invalid_for_loop() {
    let tree = with(SyntaxNode::For { condition: "i < 10; i++".to_string() }, vec![]);
    assert!(matches!(build_ast(tree), Err(AstError::InvalidForLoop)));
}

#[test]
fn test_function_with_arguments() {
    let tree = function("int", "add", " int a, char[4] b ", vec![line("return a")]);
    match build_ast(tree) {
        Ok(RawAbstractSyntaxTree {
            node: RawAbstractSyntaxNode::Callable { result_type, name, arguments },
            children,
        }) => {
            assert!(result_type == Type::Int);
            assert_eq!(name, "add");
            assert_eq!(arguments.len(), 2);
            assert_eq!(arguments[0].name, "a");
            assert!(arguments[0].typ == Type::Int);
            assert_eq!(arguments[1].name, "b");
            assert!(arguments[1].typ == Type::Array(Box::new(Type::Char), 4));
            assert_eq!(children.len(), 1);
        }
        _ => panic!("expected a function"),
    }
}

#[test]
fn test_function_without_arguments() {
    match build_ast(function("void", "main", "  ", vec![])) {
        Ok(RawAbstractSyntaxTree {
            node: RawAbstractSyntaxNode::Callable { result_type, arguments, .. },
            ..
        }) => {
            assert!(result_type == Type::Void);
            assert!(arguments.is_empty());
        }
        _ => panic!("expected a function"),
    }
}

#[test]
fn test_invalid_argument() {
    assert!(matches!(
        build_ast(function("int", "f", "int a, b", vec![])),
        Err(AstError::InvalidVariable)
    ));
}

#[test]
fn test_child_error_is_reported() {
    let tree = with(
        SyntaxNode::While { condition: "x < 3".to_string() },
        vec![line("break"), line("int[k] a")],
    );
    assert!(matches!(build_ast(tree), Err(AstError::InvalidArraySize)));
}

#[test]
fn test_if_else_and_scope() {
    let tree = with(
        SyntaxNode::Scope,
        vec![
            with(SyntaxNode::If { condition: "a".to_string() }, vec![line("break")]),
            with(SyntaxNode::ElseIf { condition: "b".to_string() }, vec![]),
            with(SyntaxNode::Else, vec![line("continue")]),
        ],
    );
    match build_ast(tree) {
        Ok(RawAbstractSyntaxTree { node: RawAbstractSyntaxNode::Scope, children }) => {
            assert_eq!(children.len(), 3);
            match &children[0].node {
                RawAbstractSyntaxNode::If { condition } => assert_eq!(variable(condition), "a"),
                _ => panic!("expected if"),
            }
            match &children[1].node {
                RawAbstractSyntaxNode::ElseIf { condition } => assert_eq!(variable(condition), "b"),
                _ => panic!("expected else if"),
            }
            assert!(matches!(children[2].node, RawAbstractSyntaxNode::Else));
            assert!(matches!(children[2].children[0].node, RawAbstractSyntaxNode::Continue));
        }
        _ => panic!("expected a scope"),
    }
}

#[test]
fn test_file_gets_builtin_functions() {
    let tree = with(
        SyntaxNode::File,
        vec![with(SyntaxNode::Class { name: "Point".to_string() }, vec![line("int x")])],
    );
    match build_ast(tree) {
        Ok(RawAbstractSyntaxTree { node: RawAbstractSyntaxNode::File, children }) => {
            assert_eq!(children.len(), 5);
            match &children[0].node {
                RawAbstractSyntaxNode::Class { name } => assert_eq!(name, "Point"),
                _ => panic!("expected the class"),
            }
            let names: Vec<&str> = children[1..]
                .iter()
                .map(|c| match &c.node {
                    RawAbstractSyntaxNode::Callable { name, .. } => name.as_str(),
                    _ => panic!("expected a function"),
                })
                .collect();
            assert_eq!(names, vec!["iin", "cin", "iout", "cout"]);
            match &children[2].node {
                RawAbstractSyntaxNode::Callable { result_type, arguments, .. } => {
                    assert!(*result_type == Type::Char);
                    assert_eq!(arguments.len(), 1);
                    assert_eq!(arguments[0].name, "port");
                }
                _ => panic!("expected cin"),
            }
            match &children[2].children[0].node {
                RawAbstractSyntaxNode::Return { value: Some(e) } => assert_eq!(literal(e), "'0'"),
                _ => panic!("expected a return"),
            }
            match &children[4].node {
                RawAbstractSyntaxNode::Callable { result_type, arguments, .. } => {
                    assert!(*result_type == Type::Void);
                    assert_eq!(arguments[1].name, "value");
                    assert!(arguments[1].typ == Type::Char);
                }
                _ => panic!("expected cout"),
            }
        }
        _ => panic!("expected a file"),
    }
}
