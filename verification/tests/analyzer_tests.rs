use proc_translator::parser::{SyntaxNode, SyntaxTree};
use proc_translator::translator::analyzer::{
    get_literal_type, semantic_analyze, SemanticError, SemanticTable, TypedAbstractSyntaxNode,
    TypedAbstractSyntaxTree,
};
use proc_translator::translator::ast::{build_ast, RawAbstractSyntaxTree};
use proc_translator::translator::common::Type;
use proc_translator::translator::expression::{parse_expression, Expression};

fn line(value: &str) -> SyntaxTree {
    SyntaxTree::new(SyntaxNode::Line { value: value.to_string() })
}

fn with(node: SyntaxNode, children: Vec<SyntaxTree>) -> SyntaxTree {
    SyntaxTree { node, children }
}

fn function(result_type: &str, name: &str, arguments: &str, body: Vec<SyntaxTree>) -> SyntaxTree {
    with(
        SyntaxNode::Function {
            result_type: result_type.to_string(),
            name: name.to_string(),
            arguments: arguments.to_string(),
        },
        body,
    )
}

fn condition(node: fn(String) -> SyntaxNode, text: &str, body: Vec<SyntaxTree>) -> SyntaxTree {
    with(node(text.to_string()), body)
}

fn if_node(text: String) -> SyntaxNode {
    SyntaxNode::If { condition: text }
}

fn while_node(text: String) -> SyntaxNode {
    SyntaxNode::While { condition: text }
}

fn file(children: Vec<SyntaxTree>) -> RawAbstractSyntaxTree {
    match build_ast(with(SyntaxNode::File, children)) {
        Ok(tree) => tree,
        Err(_) => panic!("the program should build"),
    }
}

fn analyzed(children: Vec<SyntaxTree>) -> TypedAbstractSyntaxTree {
    match semantic_analyze(file(children)) {
        Ok(tree) => tree,
        Err(e) => panic!("the program should pass, got {}", error_name(e)),
    }
}

fn refused(children: Vec<SyntaxTree>) -> SemanticError {
    match semantic_analyze(file(children)) {
        Ok(_) => panic!("the program should be refused"),
        Err(e) => e,
    }
}

fn error_name(e: SemanticError) -> &'static str {
    match e {
        SemanticError::MissingMain => "MissingMain",
        SemanticError::MissingReturn => "MissingReturn",
        SemanticError::Undefined => "Undefined",
        SemanticError::UnknownLiteral => "UnknownLiteral",
        _ => "another error",
    }
}

fn annotation(e: &Expression<Type>) -> Type {
    e.get_type()
}

#[test]
fn test_literal_types() {
    assert!(get_literal_type(&"true".to_string()) == Ok(Type::Bool));
    assert!(get_literal_type(&"false".to_string()) == Ok(Type::Bool));
    assert!(get_literal_type(&"42".to_string()) == Ok(Type::Int));
    assert!(get_literal_type(&"-7".to_string()) == Ok(Type::Int));
    assert!(get_literal_type(&"'a'".to_string()) == Ok(Type::Char));
    assert!(get_literal_type(&"'".to_string()) == Ok(Type::Char));
    assert!(get_literal_type(&"abc".to_string()) == Err(SemanticError::UnknownLiteral));
    assert!(get_literal_type(&"99999999999999999999".to_string()) == Err(SemanticError::UnknownLiteral));
}

#[test]
fn test_expression_typing_in_a_table() {
    let mut table = SemanticTable::new();
    table.scopes[0].push(("x".to_string(), Type::Int));
    table.scopes[0].push(("flag".to_string(), Type::Bool));
    let typed = table.analyze_expression(&parse_expression("x + 2 < 7").unwrap_or_else(|_| panic!("parse"))).unwrap_or_else(|_| panic!("type"));
    assert!(annotation(&typed) == Type::Bool);
    match &typed {
        Expression::BinaryOperator { left, .. } => assert!(annotation(left) == Type::Int),
        _ => panic!("expected a comparison"),
    }
    let mismatch = table.analyze_expression(&parse_expression("x + flag").unwrap_or_else(|_| panic!("parse")));
    assert!(matches!(mismatch, Err(SemanticError::BinaryTypeMismatch)));
    let logical = table.analyze_expression(&parse_expression("x && x").unwrap_or_else(|_| panic!("parse")));
    assert!(matches!(logical, Err(SemanticError::LogicalType)));
    let undefined = table.analyze_expression(&parse_expression("y = 1").unwrap_or_else(|_| panic!("parse")));
    assert!(matches!(undefined, Err(SemanticError::Undefined)));
    let negated = table.analyze_expression(&parse_expression("!flag").unwrap_or_else(|_| panic!("parse")));
    assert!(matches!(negated, Ok(Expression::Not { typ: Type::Bool, .. })));
}

#[test]
fn test_later_declaration_hides_earlier() {
    let mut table = SemanticTable::new();
    table.scopes[0].push(("x".to_string(), Type::Int));
    table.scopes.push(vec![("x".to_string(), Type::Char)]);
    let typed = table.analyze_expression(&parse_expression("x").unwrap_or_else(|_| panic!("parse"))).unwrap_or_else(|_| panic!("type"));
    assert!(annotation(&typed) == Type::Char);
}

#[test]
fn test_array_indexing() {
    let mut table = SemanticTable::new();
    table.scopes[0].push(("v".to_string(), Type::Array(Box::new(Type::Int), 4)));
    let typed = table.analyze_expression(&parse_expression("v[3]").unwrap_or_else(|_| panic!("parse"))).unwrap_or_else(|_| panic!("type"));
    assert!(annotation(&typed) == Type::Int);
    let outside = table.analyze_expression(&parse_expression("v[4]").unwrap_or_else(|_| panic!("parse")));
    assert!(matches!(outside, Err(SemanticError::IndexOutOfBounds)));
    let sum = table.analyze_expression(&parse_expression("v + v").unwrap_or_else(|_| panic!("parse"))).unwrap_or_else(|_| panic!("type"));
    assert!(annotation(&sum) == Type::Array(Box::new(Type::Int), 4));
    let element = table.analyze_expression(&parse_expression("v[0] = 'c'").unwrap_or_else(|_| panic!("parse")));
    assert!(matches!(element, Err(SemanticError::ArrayAssignTypeMismatch)));
}

#[test]
fn test_program_passes() {
    let tree = analyzed(vec![function(
        "int",
        "Main",
        "",
        vec![
            line("int x = 1 + 2"),
            condition(
                if_node,
                "x > 1",
                vec![line("return x;"), with(SyntaxNode::Else, vec![line("return 0;")])],
            ),
        ],
    )]);
    assert!(matches!(tree.node, TypedAbstractSyntaxNode::File));
    assert_eq!(tree.children.len(), 5);
    let main = &tree.children[0];
    match &main.node {
        TypedAbstractSyntaxNode::Callable { name, result_type, .. } => {
            assert_eq!(name, "Main");
            assert!(*result_type == Type::Int);
        }
        _ => panic!("expected Main"),
    }
    match &main.children[0].node {
        TypedAbstractSyntaxNode::Declaration { typ, expression: Some(e), .. } => {
            assert!(*typ == Type::Int);
            assert!(annotation(e) == Type::Int);
        }
        _ => panic!("expected a declaration"),
    }
    match &main.children[1].node {
        TypedAbstractSyntaxNode::If { condition } => assert!(annotation(condition) == Type::Bool),
        _ => panic!("expected if"),
    }
}

#[test]
fn test_else_beside_if_does_not_count() {
    let e = refused(vec![function(
        "int",
        "Main",
        "",
        vec![
            condition(if_node, "true", vec![line("return 1;")]),
            with(SyntaxNode::Else, vec![line("return 0;")]),
        ],
    )]);
    assert!(e == SemanticError::MissingReturn);
}

#[test]
fn test_missing_main() {
    assert!(refused(vec![function("int", "helper", "", vec![line("return 1;")])]) == SemanticError::MissingMain);
}

#[test]
fn test_missing_return() {
    let e = refused(vec![function(
        "int",
        "Main",
        "",
        vec![condition(if_node, "true", vec![line("return 1;")])],
    )]);
    assert!(e == SemanticError::MissingReturn);
}

#[test]
fn test_return_type_mismatch() {
    let e = refused(vec![function("bool", "Main", "", vec![line("return 1;")])]);
    assert!(e == SemanticError::ReturnTypeMismatch);
}

#[test]
fn test_undefined_variable() {
    let e = refused(vec![function("int", "Main", "", vec![line("return y;")])]);
    assert!(e == SemanticError::Undefined);
}

#[test]
fn test_condition_must_be_bool() {
    let e = refused(vec![function(
        "int",
        "Main",
        "",
        vec![condition(while_node, "1", vec![line("break;")]), line("return 0;")],
    )]);
    assert!(e == SemanticError::ConditionNotBool);
}

#[test]
fn test_jump_outside_loop() {
    let e = refused(vec![function("int", "Main", "", vec![line("break;"), line("return 0;")])]);
    assert!(e == SemanticError::JumpOutsideLoop);
}

#[test]
fn test_loop_with_break() {
    let tree = analyzed(vec![function(
        "int",
        "Main",
        "",
        vec![
            line("int i = 0"),
            condition(while_node, "i < 10", vec![line("i++"), line("break;")]),
            line("return i;"),
        ],
    )]);
    assert!(matches!(tree.children[0].children[1].node, TypedAbstractSyntaxNode::While { .. }));
}

#[test]
fn test_duplicate_function() {
    let e = refused(vec![
        function("int", "Main", "", vec![line("return 0;")]),
        function("int", "Main", "", vec![line("return 1;")]),
    ]);
    assert!(e == SemanticError::FunctionExists);
}

#[test]
fn test_class_members() {
    let class = with(
        SyntaxNode::Class { name: "Point".to_string() },
        vec![
            line("int x = 3"),
            function("int", "Get", "", vec![line("return this.x;")]),
        ],
    );
    let tree = analyzed(vec![
        class,
        function("int", "Main", "", vec![line("Point p = new Point()"), line("return p.Get();")]),
    ]);
    match &tree.children[0].node {
        TypedAbstractSyntaxNode::Class { name } => assert_eq!(name, "Point"),
        _ => panic!("expected the class"),
    }
    match &tree.children[1].children[1].node {
        TypedAbstractSyntaxNode::Return { value: Some(e) } => assert!(annotation(e) == Type::Int),
        _ => panic!("expected a return"),
    }
}

#[test]
fn test_unknown_field() {
    let class = with(SyntaxNode::Class { name: "Point".to_string() }, vec![line("int x")]);
    let e = refused(vec![
        class,
        function("int", "Main", "", vec![line("Point p = new Point()"), line("return p.y;")]),
    ]);
    assert!(e == SemanticError::FieldNotFound);
}

#[test]
fn test_call_arguments() {
    let e = refused(vec![
        function("int", "twice", "int a", vec![line("return a + a;")]),
        function("int", "Main", "", vec![line("return twice(true);")]),
    ]);
    assert!(e == SemanticError::ArgumentTypeMismatch);
    let e = refused(vec![
        function("int", "twice", "int a", vec![line("return a + a;")]),
        function("int", "Main", "", vec![line("return twice(1, 2);")]),
    ]);
    assert!(e == SemanticError::ArgumentCountMismatch);
}

#[test]
fn test_for_is_not_analysed() {
    let e = refused(vec![function(
        "int",
        "Main",
        "",
        vec![with(SyntaxNode::For { condition: ";;".to_string() }, vec![]), line("return 0;")],
    )]);
    assert!(e == SemanticError::UnsupportedStatement);
}
