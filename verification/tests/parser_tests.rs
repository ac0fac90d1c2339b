use proc_translator::parser::{parse_syntax_tree, SyntaxError, SyntaxNode, SyntaxTree};
use proc_translator::translator::analyzer::semantic_analyze;
use proc_translator::translator::ast::build_ast;
use proc_translator::translator::simplifier::simplify;
use proc_translator::translator::translate_to_bin;

fn parsed(code: &str) -> SyntaxTree {
    match parse_syntax_tree(code) {
        Ok(tree) => tree,
        Err(_) => panic!("the code should parse"),
    }
}

fn failure(code: &str) -> SyntaxError {
    match parse_syntax_tree(code) {
        Ok(_) => panic!("the code should be refused"),
        Err(e) => e,
    }
}

fn line_value(tree: &SyntaxTree) -> &str {
    match &tree.node {
        SyntaxNode::Line { value } => value,
        _ => panic!("expected a line"),
    }
}

#[test]
fn test_function_with_lines() {
    let tree = parsed("int Main() {\n  int x = 1;\n  return x;\n}\n");
    assert!(matches!(tree.node, SyntaxNode::File));
    assert_eq!(tree.children.len(), 1);
    let main = &tree.children[0];
    match &main.node {
        SyntaxNode::Function { result_type, name, arguments } => {
            assert_eq!(result_type, "int");
            assert_eq!(name, "Main");
            assert_eq!(arguments, "");
        }
        _ => panic!("expected a function"),
    }
    assert_eq!(main.children.len(), 2);
    assert_eq!(line_value(&main.children[0]), "int x = 1");
    assert_eq!(line_value(&main.children[1]), "return x");
}

#[test]
fn test_function_arguments() {
    let tree = parsed("void draw(int x, char c) { return; }");
    match &tree.children[0].node {
        SyntaxNode::Function { result_type, name, arguments } => {
            assert_eq!(result_type, "void");
            assert_eq!(name, "draw");
            assert_eq!(arguments, "int x, char c");
        }
        _ => panic!("expected a function"),
    }
}

#[test]
fn test_conditions() {
    let tree = parsed("if (a > (b)) { x = 1; } else if (c) { x = 2; } else { x = 3; } while (x < 3) { x++; }");
    assert_eq!(tree.children.len(), 4);
    match &tree.children[0].node {
        SyntaxNode::If { condition } => assert_eq!(condition, "a > (b)"),
        _ => panic!("expected if"),
    }
    match &tree.children[1].node {
        SyntaxNode::ElseIf { condition } => assert_eq!(condition, "c"),
        _ => panic!("expected else if"),
    }
    assert!(matches!(tree.children[2].node, SyntaxNode::Else));
    match &tree.children[3].node {
        SyntaxNode::While { condition } => assert_eq!(condition, "x < 3"),
        _ => panic!("expected while"),
    }
    assert_eq!(line_value(&tree.children[3].children[0]), "x++");
}

#[test]
fn test_for_head_keeps_its_semicolons() {
    let tree = parsed("for (int i = 0; i < 3; i++) { f(i); }");
    match &tree.children[0].node {
        SyntaxNode::For { condition } => assert_eq!(condition, "int i = 0; i < 3; i++"),
        _ => panic!("expected for"),
    }
    assert_eq!(line_value(&tree.children[0].children[0]), "f(i)");
}

#[test]
fn test_class_and_scope() {
    let tree = parsed("class Point { int x; } { y = 2;; }");
    assert_eq!(tree.children.len(), 2);
    match &tree.children[0].node {
        SyntaxNode::Class { name } => assert_eq!(name, "Point"),
        _ => panic!("expected a class"),
    }
    assert_eq!(line_value(&tree.children[0].children[0]), "int x");
    assert!(matches!(tree.children[1].node, SyntaxNode::Scope));
    assert_eq!(tree.children[1].children.len(), 1);
}

#[test]
fn test_unicode_names() {
    let tree = parsed("int größe() { return 1; }");
    match &tree.children[0].node {
        SyntaxNode::Function { name, .. } => assert_eq!(name, "größe"),
        _ => panic!("expected a function"),
    }
}

#[test]
fn test_syntax_errors() {
    assert!(failure("x = f(1));") == SyntaxError::UnmatchedClosingBracket);
    assert!(failure("x = 1; }") == SyntaxError::UnmatchedClosingBracket);
    assert!(failure("int Main() { return 0;") == SyntaxError::UnclosedBrackets);
    assert!(failure("x = 1") == SyntaxError::WrongSyntax);
}

#[test]
fn test_front_end_pipeline() {
    let code = "class Counter {\n  int count = 0;\n  int Next() { return this.count + 1; }\n}\n\
                int Main() {\n  Counter c = new Counter();\n  int total = 0;\n  \
                for (int i = 0; i < 3; i++) { total += c.Next(); }\n  \
                if (total > 2) { return total; } else { return 0; }\n}\n";
    let tree = parsed(code);
    let raw = match build_ast(tree) {
        Ok(raw) => raw,
        Err(_) => panic!("the syntax tree should build"),
    };
    match semantic_analyze(simplify(raw)) {
        Ok(typed) => assert_eq!(typed.children.len(), 6),
        Err(_) => panic!("the program should pass the analysis"),
    }
}

#[test]
fn translation_to_words_selects_nothing_yet() {
    let tree = parse_syntax_tree("int main() { return 0; }").unwrap();
    assert!(translate_to_bin(tree).is_empty());
}
