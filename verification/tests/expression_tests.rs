use proc_translator::translator::common::Type;
use proc_translator::translator::expression::{
    binding_order, is_arithmetic_binary_op, is_compering_binary_op, is_logical_binary_op,
    is_relational_binary_op, link_binary_operator, parse_expression, tokenize, Expression,
    ExpressionBinaryOperator, ExpressionError, ParseError, Token,
};

fn render<T>(expression: &Expression<T>) -> String {
    let list = |arguments: &Vec<Expression<T>>| {
        arguments.iter().map(render).collect::<Vec<_>>().join(", ")
    };
    match expression {
        Expression::Literal { value, .. } => value.clone(),
        Expression::Variable { name, .. } => name.clone(),
        Expression::BinaryOperator { left, operator, right, .. } => {
            format!("({} {} {})", render(left), operator_name(*operator), render(right))
        }
        Expression::FunctionCall { name, arguments, .. } => format!("{}({})", name, list(arguments)),
        Expression::MethodCall { object, name, arguments, .. } => {
            format!("{}.{}({})", render(object), name, list(arguments))
        }
        Expression::Assign { name, value, .. } => format!("({} := {})", name, render(value)),
        Expression::AssignField { object, name, value, .. } => {
            format!("({}.{} := {})", render(object), name, render(value))
        }
        Expression::AssignIndex { expression, index, value, .. } => {
            format!("({}[{}] := {})", render(expression), render(index), render(value))
        }
        Expression::Increment { expression, postfix, .. } => {
            if *postfix { format!("({}++)", render(expression)) } else { format!("(++{})", render(expression)) }
        }
        Expression::Decrement { expression, postfix, .. } => {
            if *postfix { format!("({}--)", render(expression)) } else { format!("(--{})", render(expression)) }
        }
        Expression::Negate { expression, .. } => format!("(neg {})", render(expression)),
        Expression::Not { expression, .. } => format!("(not {})", render(expression)),
        Expression::BitwiseNot { expression, .. } => format!("(inv {})", render(expression)),
        Expression::New { class_name, .. } => format!("new {}()", class_name),
        Expression::NewArray { element_type, size, .. } => {
            format!("new {}[{}]", render_type(element_type), size)
        }
        Expression::Field { object, name, .. } => format!("{}.{}", render(object), name),
        Expression::Index { expression, index, .. } => format!("{}[{}]", render(expression), render(index)),
        Expression::AssignSlice { expression, start, size, value, .. } => {
            format!("({}[{}:{}] := {})", render(expression), render(start), size, render(value))
        }
        Expression::Slice { expression, start, size, .. } => {
            format!("{}[{}:{}]", render(expression), render(start), size)
        }
        Expression::This { .. } => "this".to_string(),
    }
}

fn render_type(typ: &Type) -> String {
    match typ {
        Type::Void => "void".to_string(),
        Type::Int => "int".to_string(),
        Type::Bool => "bool".to_string(),
        Type::Char => "char".to_string(),
        Type::Array(element, size) => format!("{}[{}]", render_type(element), size),
        Type::Class(name) => name.clone(),
    }
}

fn operator_name(operator: ExpressionBinaryOperator) -> &'static str {
    match operator {
        ExpressionBinaryOperator::Add => "+",
        ExpressionBinaryOperator::Sub => "-",
        ExpressionBinaryOperator::Multiply => "*",
        ExpressionBinaryOperator::Divide => "/",
        ExpressionBinaryOperator::Less => "<",
        ExpressionBinaryOperator::And => "&&",
        ExpressionBinaryOperator::Or => "||",
        ExpressionBinaryOperator::Equal => "==",
        ExpressionBinaryOperator::AssignAdd => "+=",
        ExpressionBinaryOperator::LeftShift => "<<",
        _ => "other",
    }
}

fn parsed(code: &str) -> String {
    render(&parse_expression(code).ok().expect("expression parses"))
}

fn failure(code: &str) -> ParseError {
    match parse_expression(code) {
        Ok(_) => panic!("expected an error for {}", code),
        Err(error) => error,
    }
}

#[test]
fn operator_classes() {
    assert!(is_arithmetic_binary_op(&ExpressionBinaryOperator::BitwiseXor));
    assert!(!is_arithmetic_binary_op(&ExpressionBinaryOperator::Less));
    assert!(is_logical_binary_op(&ExpressionBinaryOperator::Or));
    assert!(!is_logical_binary_op(&ExpressionBinaryOperator::BitwiseOr));
    assert!(is_relational_binary_op(&ExpressionBinaryOperator::GreaterEqual));
    assert!(!is_relational_binary_op(&ExpressionBinaryOperator::Equal));
    assert!(is_compering_binary_op(&ExpressionBinaryOperator::Equal));
    assert!(is_compering_binary_op(&ExpressionBinaryOperator::Less));
    assert!(!is_compering_binary_op(&ExpressionBinaryOperator::Add));
}

#[test]
fn operators_bind_by_precedence() {
    assert_eq!(binding_order(&ExpressionBinaryOperator::Assign), (1, 2));
    assert_eq!(binding_order(&ExpressionBinaryOperator::Multiply), (21, 22));
    assert!(link_binary_operator(&"+=".to_string()) == Some(ExpressionBinaryOperator::AssignAdd));
    assert!(link_binary_operator(&"<<".to_string()) == Some(ExpressionBinaryOperator::LeftShift));
    assert!(link_binary_operator(&"~".to_string()).is_none());
}

#[test]
fn tokenizer_splits_text() {
    let chars: Vec<char> = "x1 += 42 \"a\\\"b\" 'c' true".chars().collect();
    let tokens = tokenize(&chars).ok().unwrap();
    assert_eq!(tokens.len(), 6);
    assert!(matches!(&tokens[0], Token::Id(name) if name == "x1"));
    assert!(matches!(&tokens[1], Token::Operator(op) if op == "+="));
    assert!(matches!(tokens[2], Token::Number(42)));
    assert!(matches!(&tokens[3], Token::String(text) if text == "a\\\"b"));
    assert!(matches!(&tokens[4], Token::Char(text) if text == "c"));
    assert!(matches!(tokens[5], Token::Bool(true)));
}

#[test]
fn precedence_and_associativity() {
    assert_eq!(parsed("a + b * 2"), "(a + (b * 2))");
    assert_eq!(parsed("a - b - c"), "((a - b) - c)");
    assert_eq!(parsed("a = b + 3"), "(a := (b + 3))");
    assert_eq!(parsed("x < 1 && y == 2 || z"), "(((x < 1) && (y == 2)) || z)");
    assert_eq!(parsed("(a + b) * c"), "((a + b) * c)");
    assert_eq!(parsed("a += 1 << 2"), "(a += (1 << 2))");
}

#[test]
fn prefix_and_postfix_forms() {
    assert_eq!(parsed("-5"), "-5");
    assert_eq!(parsed("-x * 2"), "((neg x) * 2)");
    assert_eq!(parsed("!done"), "(not done)");
    assert_eq!(parsed("~mask"), "(inv mask)");
    assert_eq!(parsed("++i"), "(++i)");
    assert_eq!(parsed("i--"), "(i--)");
    assert_eq!(parsed("f(1, y)"), "f(1, y)");
    assert_eq!(parsed("g()"), "g()");
    assert_eq!(parsed("this.items.push(x)"), "this.items.push(x)");
    assert_eq!(parsed("v[i + 1]"), "v[(i + 1)]");
    assert_eq!(parsed("v[2:4]"), "v[2:4]");
    assert_eq!(parsed("v[0] = 'c'"), "(v[0] := 'c')");
    assert_eq!(parsed("p.x = \"s\""), "(p.x := \"s\")");
    assert_eq!(parsed("v[1:2] = w"), "(v[1:2] := w)");
    assert_eq!(parsed("new int[3]"), "new int[3]");
    assert_eq!(parsed("new Node()"), "new Node()");
    assert_eq!(parsed("false"), "false");
}

#[test]
fn parse_errors() {
    assert!(failure("") == ParseError::Empty);
    assert!(failure("1 2") == ParseError::TrailingTokens);
    assert!(failure("(1") == ParseError::ExpectedRightBracket);
    assert!(failure("3 = 4") == ParseError::InvalidAssignmentTarget);
    assert!(failure("new int[") == ParseError::MissingSize);
    assert!(failure("new int[x]") == ParseError::ArraySizeNotConstant);
    assert!(failure("new Node(1)") == ParseError::ConstructorArguments);
    assert!(failure("a.1") == ParseError::ExpectedIdentifierAfterDot);
    assert!(failure("f(1)(2)") == ParseError::InvalidCallTarget);
    assert!(failure("a = b = 3") == ParseError::InvalidAssignmentTarget);
    assert!(failure("f(1 2)") == ParseError::ExpectedArgumentSeparator);
    assert!(failure("a +") == ParseError::UnexpectedEnd);
    assert!(failure("* a") == ParseError::InvalidPrefixOperator);
    assert!(failure(", a") == ParseError::UnexpectedPrefixToken);
    assert!(failure("\"ab\\") == ParseError::Token(ExpressionError::UnfinishedStringEscape));
    assert!(failure("99999999999999999999") == ParseError::Token(ExpressionError::NumberTooLarge));
}

#[test]
fn get_type_reads_the_annotation() {
    let expression: Expression<Type> = Expression::Variable { typ: Type::Int, name: "n".to_string() };
    assert!(expression.get_type() == Type::Int);
}
