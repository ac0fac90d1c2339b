use crate::io::{is_space, trimmed, unsigned_value, words};
use crate::parser::{SyntaxNode, SyntaxTree};
use crate::translator::common::{Type, Variable};
use crate::translator::expression::{
    named_type, parsed_text, type_view, Expression, ExpressionView, ParseError, TypeView,
};
use vstd::prelude::*;

verus! {

/// A statement of the source language with its expressions parsed.
pub enum RawAbstractSyntaxNode {
    If { condition: Expression<()> },
    ElseIf { condition: Expression<()> },
    Else,
    While { condition: Expression<()> },
    For {
        initializer: Option<Box<RawAbstractSyntaxNode>>,
        condition: Option<Expression<()>>,
        increment: Option<Expression<()>>,
    },
    Callable { result_type: Type, name: String, arguments: Vec<Variable> },
    Class { name: String },
    Expression { expression: Expression<()> },
    Declaration { typ: Type, name: String, expression: Option<Expression<()>> },
    Return { value: Option<Expression<()>> },
    Break,
    Continue,
    Scope,
    File,
}

/// A tree of statements: a node and the trees of its body, in order.
pub struct RawAbstractSyntaxTree {
    pub node: RawAbstractSyntaxNode,
    pub children: Vec<RawAbstractSyntaxTree>,
}

/// Why a syntax tree cannot be turned into statements.
#[derive(Clone, Copy, Debug, PartialEq, Eq, Structural)]
pub enum AstError {
    /// An expression cannot be parsed.
    Expression(ParseError),
    /// A parameter is not a type and a name.
    InvalidVariable,
    /// The head of a `for` loop does not have three parts.
    InvalidForLoop,
    /// The size in an array type `T[n]` is not a number.
    InvalidArraySize,
}

/// A statement with its names as sequences of characters.
pub enum NodeView {
    If(ExpressionView),
    ElseIf(ExpressionView),
    Else,
    While(ExpressionView),
    For(Option<Box<NodeView>>, Option<ExpressionView>, Option<ExpressionView>),
    Callable(TypeView, Seq<char>, Seq<(TypeView, Seq<char>)>),
    Class(Seq<char>),
    Expression(ExpressionView),
    Declaration(TypeView, Seq<char>, Option<ExpressionView>),
    Return(Option<ExpressionView>),
    Break,
    Continue,
    Scope,
    File,
}

/// A tree of statement views.
pub struct TreeView {
    pub node: NodeView,
    pub children: Seq<TreeView>,
}

/// The view of an optional expression.
pub open spec fn optional_shape(expression: Option<Expression<()>>) -> Option<ExpressionView> {
    match expression {
        Some(e) => Some(crate::translator::expression::shape(e)),
        None => None,
    }
}

/// The view of a variable: its type and its name.
pub open spec fn variable_view(variable: Variable) -> (TypeView, Seq<char>) {
    (type_view(variable.typ), variable.name@)
}

/// The view of a statement.
pub open spec fn node_view(node: RawAbstractSyntaxNode) -> NodeView
    decreases node,
{
    match node {
        RawAbstractSyntaxNode::If { condition } => NodeView::If(
            crate::translator::expression::shape(condition),
        ),
        RawAbstractSyntaxNode::ElseIf { condition } => NodeView::ElseIf(
            crate::translator::expression::shape(condition),
        ),
        RawAbstractSyntaxNode::Else => NodeView::Else,
        RawAbstractSyntaxNode::While { condition } => NodeView::While(
            crate::translator::expression::shape(condition),
        ),
        RawAbstractSyntaxNode::For { initializer, condition, increment } => NodeView::For(
            match initializer {
                Some(node) => Some(Box::new(node_view(*node))),
                None => None,
            },
            optional_shape(condition),
            optional_shape(increment),
        ),
        RawAbstractSyntaxNode::Callable { result_type, name, arguments } => NodeView::Callable(
            type_view(result_type),
            name@,
            arguments@.map_values(|v: Variable| variable_view(v)),
        ),
        RawAbstractSyntaxNode::Class { name } => NodeView::Class(name@),
        RawAbstractSyntaxNode::Expression { expression } => NodeView::Expression(
            crate::translator::expression::shape(expression),
        ),
        RawAbstractSyntaxNode::Declaration { typ, name, expression } => NodeView::Declaration(
            type_view(typ),
            name@,
            optional_shape(expression),
        ),
        RawAbstractSyntaxNode::Return { value } => NodeView::Return(optional_shape(value)),
        RawAbstractSyntaxNode::Break => NodeView::Break,
        RawAbstractSyntaxNode::Continue => NodeView::Continue,
        RawAbstractSyntaxNode::Scope => NodeView::Scope,
        RawAbstractSyntaxNode::File => NodeView::File,
    }
}

/// The view of a statement tree.
pub open spec fn tree_view(tree: RawAbstractSyntaxTree) -> TreeView
    decreases tree,
{
    TreeView { node: node_view(tree.node), children: trees_view(tree.children@) }
}

/// The views of a sequence of statement trees.
pub open spec fn trees_view(trees: Seq<RawAbstractSyntaxTree>) -> Seq<TreeView>
    decreases trees,
{
    if trees.len() == 0 {
        Seq::empty()
    } else {
        trees_view(trees.drop_last()).push(tree_view(trees.last()))
    }
}

/// The index of the last occurrence of `c`, or -1.
pub open spec fn last_index_of(text: Seq<char>, c: char) -> int
    decreases text.len(),
{
    if text.len() == 0 {
        -1
    } else if text.last() == c {
        text.len() - 1
    } else {
        last_index_of(text.drop_last(), c)
    }
}

/// The index of the first occurrence of `c`, or -1.
pub open spec fn first_index_of(text: Seq<char>, c: char) -> int
    decreases text.len(),
{
    let before = if text.len() == 0 {
        -1
    } else {
        first_index_of(text.drop_last(), c)
    };
    if before >= 0 {
        before
    } else if text.len() > 0 && text.last() == c {
        text.len() - 1
    } else {
        -1
    }
}

/// The pieces of a text between occurrences of `separator`, as `str::split` yields them.
pub open spec fn split_on(text: Seq<char>, separator: char) -> Seq<Seq<char>>
    decreases text.len(),
{
    if text.len() == 0 {
        seq![Seq::empty()]
    } else {
        let before = split_on(text.drop_last(), separator);
        if text.last() == separator {
            before.push(Seq::empty())
        } else {
            before.update(before.len() - 1, before.last().push(text.last()))
        }
    }
}

/// The type that a type's text names: `T[n]` is an array of `n` elements of `T`.
pub open spec fn type_text(text: Seq<char>) -> Result<TypeView, AstError>
    decreases text.len(),
{
    let t = trimmed(text);
    let start = last_index_of(t, '[');
    if t.len() > 0 && t.last() == ']' && 0 <= start < t.len() - 1 && t.len() <= text.len() {
        let size = unsigned_value(trimmed(t.subrange(start + 1, t.len() - 1)));
        match size {
            Some(n) => if n <= u64::MAX {
                match type_text(t.subrange(0, start)) {
                    Ok(element) => Ok(TypeView::Array(Box::new(element), n as u64)),
                    Err(e) => Err(e),
                }
            } else {
                Err(AstError::InvalidArraySize)
            },
            None => Err(AstError::InvalidArraySize),
        }
    } else {
        Ok(named_type(t))
    }
}

/// Whether a character is upper case in the Unicode sense, as `char::is_uppercase` decides.
pub uninterp spec fn uppercase(c: char) -> bool;

/// `char::is_uppercase`.
#[verifier::external_body]
fn char_is_uppercase(c: char) -> (result: bool)
    ensures
        result == uppercase(c),
{
    c.is_uppercase()
}

/// The type and name of a parameter written as `type name`.
pub open spec fn variable_text(text: Seq<char>) -> Result<(TypeView, Seq<char>), AstError> {
    let parts = words(text);
    if parts.len() != 2 {
        Err(AstError::InvalidVariable)
    } else {
        match type_text(parts[0]) {
            Ok(typ) => Ok((typ, parts[1])),
            Err(e) => Err(e),
        }
    }
}

/// The parameters of the pieces, each trimmed, in order; the first error otherwise.
pub open spec fn variables_of(pieces: Seq<Seq<char>>) -> Result<Seq<(TypeView, Seq<char>)>, AstError>
    decreases pieces.len(),
{
    if pieces.len() == 0 {
        Ok(Seq::empty())
    } else {
        match variables_of(pieces.drop_last()) {
            Err(e) => Err(e),
            Ok(before) => match variable_text(trimmed(pieces.last())) {
                Err(e) => Err(e),
                Ok(variable) => Ok(before.push(variable)),
            },
        }
    }
}

/// The parameter list of a function: none when blank, else the comma-separated parameters.
pub open spec fn arguments_text(text: Seq<char>) -> Result<Seq<(TypeView, Seq<char>)>, AstError> {
    let t = trimmed(text);
    if t.len() == 0 {
        Ok(Seq::empty())
    } else {
        variables_of(split_on(t, ','))
    }
}

/// The text without its trailing semicolons.
pub open spec fn strip_semicolons(text: Seq<char>) -> Seq<char>
    decreases text.len(),
{
    if text.len() > 0 && text.last() == ';' {
        strip_semicolons(text.drop_last())
    } else {
        text
    }
}

/// The expression written in a text, or the error of parsing it.
#[verifier::opaque]
pub open spec fn expression_text(text: Seq<char>) -> Result<ExpressionView, AstError> {
    match parsed_text(text) {
        Ok(e) => Ok(e),
        Err(p) => Err(AstError::Expression(p)),
    }
}

/// The statement a line stands for when it is `return`, `return e`, `break` or `continue`.
pub open spec fn keyword_statement(value: Seq<char>) -> Result<Option<NodeView>, AstError> {
    let v = strip_semicolons(trimmed(value));
    let keyword = seq!['r', 'e', 't', 'u', 'r', 'n'];
    if v == keyword {
        Ok(Some(NodeView::Return(None)))
    } else if v.len() >= 6 && v.subrange(0, 6) == keyword {
        match expression_text(trimmed(v.skip(6))) {
            Ok(e) => Ok(Some(NodeView::Return(Some(e)))),
            Err(e) => Err(e),
        }
    } else if v == seq!['b', 'r', 'e', 'a', 'k'] {
        Ok(Some(NodeView::Break))
    } else if v == seq!['c', 'o', 'n', 't', 'i', 'n', 'u', 'e'] {
        Ok(Some(NodeView::Continue))
    } else {
        Ok(None)
    }
}

/// Whether a type's base name is a built-in type.
pub open spec fn primitive_name(name: Seq<char>) -> bool {
    name == seq!['i', 'n', 't'] || name == seq!['b', 'o', 'o', 'l'] || name == seq![
        'v',
        'o',
        'i',
        'd',
    ] || name == seq!['c', 'h', 'a', 'r']
}

/// A declaration `type name` or `type name = expression`: its type text, its name and its
/// initial value. `None` where the text is not one: no space, a type that is neither built in
/// nor capitalised, an empty name, or a name with `(`.
pub open spec fn declaration_text(text: Seq<char>) -> Result<
    Option<(Seq<char>, Seq<char>, Option<ExpressionView>)>,
    AstError,
> {
    let t = trimmed(text);
    let space = first_index_of(t, ' ');
    if t.len() == 0 || space < 0 {
        Ok(None)
    } else {
        let typ = t.subrange(0, space);
        let rest = trimmed(t.skip(space + 1));
        let bracket = first_index_of(typ, '[');
        let base = if bracket >= 0 {
            typ.subrange(0, bracket)
        } else {
            typ
        };
        if !primitive_name(base) && !(base.len() > 0 && uppercase(base[0])) {
            Ok(None)
        } else {
            let equal = first_index_of(rest, '=');
            if equal >= 0 {
                let name = trimmed(rest.subrange(0, equal));
                let value = trimmed(rest.skip(equal + 1));
                if name.len() == 0 {
                    Ok(None)
                } else if value.len() == 0 {
                    Ok(Some((typ, name, None)))
                } else {
                    match expression_text(value) {
                        Ok(e) => Ok(Some((typ, name, Some(e)))),
                        Err(e) => Err(e),
                    }
                }
            } else {
                let name = trimmed(rest);
                if first_index_of(name, '(') >= 0 || name.len() == 0 {
                    Ok(None)
                } else {
                    Ok(Some((typ, name, None)))
                }
            }
        }
    }
}

/// The declaration statement of a declaration, or the error of its type.
pub open spec fn declaration_node(typ: Seq<char>, name: Seq<char>, value: Option<ExpressionView>) -> Result<
    NodeView,
    AstError,
> {
    match type_text(typ) {
        Ok(t) => Ok(NodeView::Declaration(t, name, value)),
        Err(e) => Err(e),
    }
}

/// The statement of a part of a `for` head that may be a declaration or an expression.
pub open spec fn statement_part(text: Seq<char>) -> Result<NodeView, AstError> {
    match declaration_text(text) {
        Ok(Some((typ, name, value))) => declaration_node(typ, name, value),
        _ => match expression_text(text) {
            Ok(e) => Ok(NodeView::Expression(e)),
            Err(e) => Err(e),
        },
    }
}

/// An optional expression: none for a blank part.
pub open spec fn optional_expression(text: Seq<char>) -> Result<Option<ExpressionView>, AstError> {
    if text.len() == 0 {
        Ok(None)
    } else {
        match expression_text(text) {
            Ok(e) => Ok(Some(e)),
            Err(e) => Err(e),
        }
    }
}

/// The `for` statement with head `condition`: three parts separated by `;`, each trimmed.
pub open spec fn for_node(condition: Seq<char>) -> Result<NodeView, AstError> {
    let parts = split_on(condition, ';');
    if parts.len() != 3 {
        Err(AstError::InvalidForLoop)
    } else {
        let first = trimmed(parts[0]);
        let initializer = if first.len() == 0 {
            Ok(None)
        } else {
            match statement_part(first) {
                Ok(node) => Ok(Some(Box::new(node))),
                Err(e) => Err(e),
            }
        };
        match initializer {
            Err(e) => Err(e),
            Ok(initializer) => match optional_expression(trimmed(parts[1])) {
                Err(e) => Err(e),
                Ok(condition) => match optional_expression(trimmed(parts[2])) {
                    Err(e) => Err(e),
                    Ok(increment) => Ok(NodeView::For(initializer, condition, increment)),
                },
            },
        }
    }
}

/// The statement a line stands for: a keyword statement, a declaration, or an expression.
pub open spec fn line_node(value: Seq<char>) -> Result<NodeView, AstError> {
    match keyword_statement(value) {
        Err(e) => Err(e),
        Ok(Some(node)) => Ok(node),
        Ok(None) => statement_part(value),
    }
}

/// The four built-in input and output functions that every file provides.
pub open spec fn builtin_functions() -> Seq<TreeView> {
    let port = (TypeView::Int, seq!['p', 'o', 'r', 't']);
    seq![
        TreeView {
            node: NodeView::Callable(TypeView::Int, seq!['i', 'i', 'n'], seq![port]),
            children: seq![
                TreeView {
                    node: NodeView::Return(Some(ExpressionView::Literal(seq!['0']))),
                    children: Seq::empty(),
                },
            ],
        },
        TreeView {
            node: NodeView::Callable(TypeView::Char, seq!['c', 'i', 'n'], seq![port]),
            children: seq![
                TreeView {
                    node: NodeView::Return(Some(ExpressionView::Literal(seq!['\'', '0', '\'']))),
                    children: Seq::empty(),
                },
            ],
        },
        TreeView {
            node: NodeView::Callable(
                TypeView::Void,
                seq!['i', 'o', 'u', 't'],
                seq![port, (TypeView::Int, seq!['v', 'a', 'l', 'u', 'e'])],
            ),
            children: seq![TreeView { node: NodeView::Return(None), children: Seq::empty() }],
        },
        TreeView {
            node: NodeView::Callable(
                TypeView::Void,
                seq!['c', 'o', 'u', 't'],
                seq![port, (TypeView::Char, seq!['v', 'a', 'l', 'u', 'e'])],
            ),
            children: seq![TreeView { node: NodeView::Return(None), children: Seq::empty() }],
        },
    ]
}

/// The statement tree of a syntax node whose children have become `children`.
#[verifier::opaque]
pub open spec fn node_ast(node: SyntaxNode, children: Seq<TreeView>) -> Result<TreeView, AstError> {
    match node {
        SyntaxNode::If { condition } => match expression_text(condition@) {
            Ok(e) => Ok(TreeView { node: NodeView::If(e), children }),
            Err(e) => Err(e),
        },
        SyntaxNode::ElseIf { condition } => match expression_text(condition@) {
            Ok(e) => Ok(TreeView { node: NodeView::ElseIf(e), children }),
            Err(e) => Err(e),
        },
        SyntaxNode::Else => Ok(TreeView { node: NodeView::Else, children }),
        SyntaxNode::While { condition } => match expression_text(condition@) {
            Ok(e) => Ok(TreeView { node: NodeView::While(e), children }),
            Err(e) => Err(e),
        },
        SyntaxNode::For { condition } => match for_node(condition@) {
            Ok(node) => Ok(TreeView { node, children }),
            Err(e) => Err(e),
        },
        SyntaxNode::Line { value } => match line_node(value@) {
            Ok(node) => Ok(TreeView { node, children: Seq::empty() }),
            Err(e) => Err(e),
        },
        SyntaxNode::Function { result_type, name, arguments } => match arguments_text(
            arguments@,
        ) {
            Err(e) => Err(e),
            Ok(parameters) => match type_text(result_type@) {
                Ok(typ) => Ok(
                    TreeView { node: NodeView::Callable(typ, name@, parameters), children },
                ),
                Err(e) => Err(e),
            },
        },
        SyntaxNode::Class { name } => Ok(TreeView { node: NodeView::Class(name@), children }),
        SyntaxNode::Scope => Ok(TreeView { node: NodeView::Scope, children }),
        SyntaxNode::File => Ok(
            TreeView { node: NodeView::File, children: children + builtin_functions() },
        ),
    }
}

/// The statement tree of a syntax tree: the children first, in order, then the node's own
/// text; the first error otherwise.
pub open spec fn ast_of(tree: SyntaxTree) -> Result<TreeView, AstError>
    decreases tree,
{
    match asts_of(tree.children@) {
        Err(e) => Err(e),
        Ok(children) => node_ast(tree.node, children),
    }
}

/// A file builds to a file whose statements are those of its children, in order, followed
/// by the four built-in input and output functions; an error of a child is the file's error.
pub proof fn lemma_file_gets_builtins(tree: SyntaxTree)
    requires
        tree.node == SyntaxNode::File,
    ensures
        match asts_of(tree.children@) {
            Ok(children) => ast_of(tree) == Ok::<TreeView, AstError>(
                TreeView { node: NodeView::File, children: children + builtin_functions() },
            ),
            Err(e) => ast_of(tree) == Err::<TreeView, AstError>(e),
        },
{
    reveal(node_ast);
}

/// The statement trees of a sequence of syntax trees, in order; the first error otherwise.
pub open spec fn asts_of(trees: Seq<SyntaxTree>) -> Result<Seq<TreeView>, AstError>
    decreases trees,
{
    if trees.len() == 0 {
        Ok(Seq::empty())
    } else {
        match asts_of(trees.drop_last()) {
            Err(e) => Err(e),
            Ok(before) => match ast_of(trees.last()) {
                Err(e) => Err(e),
                Ok(tree) => Ok(before.push(tree)),
            },
        }
    }
}

/// The views of a sequence of character vectors.
pub open spec fn char_views(pieces: Seq<Vec<char>>) -> Seq<Seq<char>> {
    pieces.map_values(|piece: Vec<char>| piece@)
}

/// Once a character is found in a prefix, it is first in the whole text too.
pub proof fn lemma_first_index_prefix(text: Seq<char>, c: char, n: int)
    requires
        0 <= n <= text.len(),
        first_index_of(text.take(n), c) >= 0,
    ensures
        first_index_of(text, c) == first_index_of(text.take(n), c),
    decreases text.len(),
{
    if n < text.len() {
        assert(text.take(n) =~= text.drop_last().take(n));
        lemma_first_index_prefix(text.drop_last(), c, n);
    } else {
        assert(text.take(n) =~= text);
    }
}

/// The characters of `chars[from..to]`.
pub(crate) fn slice_of(chars: &[char], from: usize, to: usize) -> (piece: Vec<char>)
    requires
        from <= to <= chars@.len(),
    ensures
        piece@ == chars@.subrange(from as int, to as int),
{
    let mut piece: Vec<char> = Vec::new();
    let mut i = from;
    while i < to
        invariant
            from <= i <= to <= chars@.len(),
            piece@ == chars@.subrange(from as int, i as int),
        decreases to - i,
    {
        piece.push(chars[i]);
        proof {
            assert(piece@ =~= chars@.subrange(from as int, i + 1));
        }
        i = i + 1;
    }
    piece
}

/// The characters without leading and trailing white space.
pub(crate) fn trim_chars(chars: &[char]) -> (trimmed_chars: Vec<char>)
    ensures
        trimmed_chars@ == trimmed(chars@),
        trimmed_chars@.len() <= chars@.len(),
{
    let (start, end) = crate::io::trim_range(chars, 0, chars.len());
    proof {
        assert(chars@.subrange(0, chars@.len() as int) =~= chars@);
    }
    slice_of(chars, start, end)
}

/// The index of the last occurrence of `c`.
fn last_index(chars: &[char], c: char) -> (index: Option<usize>)
    ensures
        match index {
            Some(i) => i == last_index_of(chars@, c),
            None => last_index_of(chars@, c) == -1,
        },
{
    let mut k = chars.len();
    proof {
        assert(chars@.take(k as int) =~= chars@);
    }
    while k > 0
        invariant
            k <= chars@.len(),
            last_index_of(chars@, c) == last_index_of(chars@.take(k as int), c),
        decreases k,
    {
        proof {
            assert(chars@.take(k as int).drop_last() =~= chars@.take(k - 1));
        }
        if chars[k - 1] == c {
            return Some(k - 1);
        }
        k = k - 1;
    }
    proof {
        assert(chars@.take(0) =~= Seq::<char>::empty());
    }
    None
}

/// The index of the first occurrence of `c`.
fn first_index(chars: &[char], c: char) -> (index: Option<usize>)
    ensures
        match index {
            Some(i) => i == first_index_of(chars@, c) && i < chars@.len(),
            None => first_index_of(chars@, c) == -1,
        },
{
    let mut i: usize = 0;
    proof {
        assert(chars@.take(0) =~= Seq::<char>::empty());
    }
    while i < chars.len()
        invariant
            i <= chars@.len(),
            first_index_of(chars@.take(i as int), c) == -1,
        decreases chars@.len() - i,
    {
        proof {
            assert(chars@.take(i + 1).drop_last() =~= chars@.take(i as int));
        }
        if chars[i] == c {
            proof {
                lemma_first_index_prefix(chars@, c, i + 1);
            }
            return Some(i);
        }
        i = i + 1;
    }
    proof {
        assert(chars@.take(i as int) =~= chars@);
    }
    None
}

/// Splits the characters at each `separator`, as `str::split` does.
fn split_chars(chars: &[char], separator: char) -> (pieces: Vec<Vec<char>>)
    ensures
        char_views(pieces@) == split_on(chars@, separator),
{
    let mut pieces: Vec<Vec<char>> = Vec::new();
    let mut current: Vec<char> = Vec::new();
    let mut i: usize = 0;
    proof {
        assert(chars@.take(0) =~= Seq::<char>::empty());
        assert(char_views(pieces@).push(current@) =~= seq![Seq::<char>::empty()]);
    }
    while i < chars.len()
        invariant
            i <= chars@.len(),
            split_on(chars@.take(i as int), separator) == char_views(pieces@).push(current@),
        decreases chars@.len() - i,
    {
        proof {
            assert(chars@.take(i + 1).drop_last() =~= chars@.take(i as int));
            assert(chars@.take(i + 1).last() == chars@[i as int]);
        }
        let c = chars[i];
        if c == separator {
            let ghost before = char_views(pieces@);
            let finished = current;
            pieces.push(finished);
            current = Vec::new();
            proof {
                assert(char_views(pieces@) =~= before.push(finished@));
            }
        } else {
            current.push(c);
        }
        i = i + 1;
        proof {
            assert(split_on(chars@.take(i as int), separator) =~= char_views(pieces@).push(current@));
        }
    }
    let ghost before = char_views(pieces@);
    let last = current;
    pieces.push(last);
    proof {
        assert(chars@.take(i as int) =~= chars@);
        assert(char_views(pieces@) =~= before.push(last@));
    }
    pieces
}

/// The type that a type's text names.
fn type_of_text(chars: &[char]) -> (typ: Result<Type, AstError>)
    ensures
        match (typ, type_text(chars@)) {
            (Ok(t), Ok(v)) => type_view(t) == v,
            (Err(a), Err(b)) => a == b,
            _ => false,
        },
    decreases chars@.len(),
{
    let t = trim_chars(chars);
    let n = t.len();
    if n > 0 && t[n - 1] == ']' {
        match last_index(t.as_slice(), '[') {
            Some(start) => {
                if start < n - 1 {
                    let inner = slice_of(t.as_slice(), start + 1, n - 1);
                    let size_chars = trim_chars(inner.as_slice());
                    proof {
                        assert(size_chars@.subrange(0, size_chars@.len() as int) =~= size_chars@);
                    }
                    match crate::io::parse_unsigned(size_chars.as_slice(), 0, size_chars.len(), u64::MAX) {
                        Some(size) => {
                            let base = slice_of(t.as_slice(), 0, start);
                            match type_of_text(base.as_slice()) {
                                Ok(element) => {
                                    return Ok(Type::Array(Box::new(element), size));
                                },
                                Err(e) => {
                                    return Err(e);
                                },
                            }
                        },
                        None => {
                            return Err(AstError::InvalidArraySize);
                        },
                    }
                }
            },
            None => {},
        }
    }
    Ok(crate::translator::expression::parse_type_expr(&crate::translator::expression::text_of(t.as_slice())))
}

/// A parameter `type name`.
fn parse_variable(chars: &[char]) -> (variable: Result<Variable, AstError>)
    ensures
        match (variable, variable_text(chars@)) {
            (Ok(v), Ok(w)) => variable_view(v) == w,
            (Err(a), Err(b)) => a == b,
            _ => false,
        },
{
    let ranges = crate::io::words_in(chars, 0, chars.len());
    proof {
        assert(chars@.subrange(0, chars@.len() as int) =~= chars@);
    }
    if ranges.len() != 2 {
        return Err(AstError::InvalidVariable);
    }
    let (type_from, type_to) = ranges[0];
    let (name_from, name_to) = ranges[1];
    let type_chars = slice_of(chars, type_from, type_to);
    let name_chars = slice_of(chars, name_from, name_to);
    proof {
        assert(words(chars@)[0] == type_chars@);
        assert(words(chars@)[1] == name_chars@);
    }
    match type_of_text(type_chars.as_slice()) {
        Ok(typ) => Ok(Variable { name: crate::translator::expression::text_of(name_chars.as_slice()), typ }),
        Err(e) => Err(e),
    }
}

/// The parameter list of a function.
fn parse_arguments(chars: &[char]) -> (variables: Result<Vec<Variable>, AstError>)
    ensures
        match (variables, arguments_text(chars@)) {
            (Ok(v), Ok(w)) => v@.map_values(|x: Variable| variable_view(x)) == w,
            (Err(a), Err(b)) => a == b,
            _ => false,
        },
{
    let t = trim_chars(chars);
    if t.len() == 0 {
        let empty: Vec<Variable> = Vec::new();
        proof {
            assert(empty@.map_values(|x: Variable| variable_view(x)) =~= Seq::<(TypeView, Seq<char>)>::empty());
        }
        return Ok(empty);
    }
    let pieces = split_chars(t.as_slice(), ',');
    let ghost all = char_views(pieces@);
    let mut variables: Vec<Variable> = Vec::new();
    let mut k: usize = 0;
    proof {
        assert(all.take(0) =~= Seq::<Seq<char>>::empty());
        assert(variables@.map_values(|x: Variable| variable_view(x)) =~= Seq::<(TypeView, Seq<char>)>::empty());
    }
    while k < pieces.len()
        invariant
            all == char_views(pieces@),
            all == split_on(t@, ','),
            t@ == trimmed(chars@),
            t@.len() > 0,
            k <= pieces@.len(),
            variables_of(all.take(k as int)) == Ok::<Seq<(TypeView, Seq<char>)>, AstError>(
                variables@.map_values(|x: Variable| variable_view(x)),
            ),
        decreases pieces@.len() - k,
    {
        proof {
            assert(all.take(k + 1).drop_last() =~= all.take(k as int));
            assert(all.take(k + 1).last() == pieces@[k as int]@);
        }
        let piece = trim_chars(pieces[k].as_slice());
        match parse_variable(piece.as_slice()) {
            Ok(variable) => {
                let ghost before = variables@.map_values(|x: Variable| variable_view(x));
                variables.push(variable);
                proof {
                    assert(variables@.map_values(|x: Variable| variable_view(x)) =~= before.push(
                        variable_view(variable),
                    ));
                }
            },
            Err(e) => {
                proof {
                    assert(variables_of(all.take(k + 1)) == Err::<Seq<(TypeView, Seq<char>)>, AstError>(e));
                    lemma_variables_error_persists(all, k + 1);
                    assert(trimmed(chars@) == t@);
                    assert(arguments_text(chars@) == variables_of(all));
                }
                return Err(e);
            },
        }
        k = k + 1;
    }
    proof {
        assert(all.take(k as int) =~= all);
    }
    Ok(variables)
}

/// Once a prefix of the parameters is refused, the whole list is refused with that error.
pub proof fn lemma_variables_error_persists(pieces: Seq<Seq<char>>, n: int)
    requires
        0 <= n <= pieces.len(),
        variables_of(pieces.take(n)) is Err,
    ensures
        variables_of(pieces) == variables_of(pieces.take(n)),
    decreases pieces.len(),
{
    if n < pieces.len() {
        assert(pieces.take(n) =~= pieces.drop_last().take(n));
        lemma_variables_error_persists(pieces.drop_last(), n);
    } else {
        assert(pieces.take(n) =~= pieces);
    }
}

/// No piece of a split text is longer than the text.
pub proof fn lemma_split_pieces_shorter(text: Seq<char>, separator: char)
    ensures
        split_on(text, separator).len() >= 1,
        forall|i: int|
            0 <= i < split_on(text, separator).len() ==> #[trigger] split_on(
                text,
                separator,
            )[i].len() <= text.len(),
    decreases text.len(),
{
    if text.len() > 0 {
        lemma_split_pieces_shorter(text.drop_last(), separator);
    }
}

/// The characters without their trailing semicolons.
pub(crate) fn without_semicolons(chars: &[char]) -> (stripped: Vec<char>)
    ensures
        stripped@ == strip_semicolons(chars@),
        stripped@.len() <= chars@.len(),
{
    let mut n = chars.len();
    proof {
        assert(chars@.take(n as int) =~= chars@);
    }
    while n > 0 && chars[n - 1] == ';'
        invariant
            n <= chars@.len(),
            strip_semicolons(chars@) == strip_semicolons(chars@.take(n as int)),
        decreases n,
    {
        proof {
            assert(chars@.take(n as int).drop_last() =~= chars@.take(n - 1));
        }
        n = n - 1;
    }
    proof {
        if n > 0 {
            assert(chars@.take(n as int).last() == chars@[n - 1]);
        }
        assert(chars@.subrange(0, n as int) =~= chars@.take(n as int));
    }
    slice_of(chars, 0, n)
}

/// The expression written in the characters.
fn expression_of(chars: &[char]) -> (parsed: Result<Expression<()>, AstError>)
    requires
        chars@.len() + 8 < usize::MAX,
    ensures
        match (parsed, expression_text(chars@)) {
            (Ok(e), Ok(v)) => crate::translator::expression::shape(e) == v,
            (Err(a), Err(b)) => a == b,
            _ => false,
        },
{
    proof {
        reveal(expression_text);
    }
    match crate::translator::expression::parse_expression_chars(chars) {
        Ok(e) => Ok(e),
        Err(p) => Err(AstError::Expression(p)),
    }
}

/// The statement of a line that is `return`, `return e`, `break` or `continue`; `None` for
/// any other line.
fn parse_statement_keyword(value: &[char]) -> (statement: Result<
    Option<RawAbstractSyntaxNode>,
    AstError,
>)
    requires
        value@.len() + 8 < usize::MAX,
    ensures
        match (statement, keyword_statement(value@)) {
            (Ok(Some(n)), Ok(Some(v))) => node_view(n) == v,
            (Ok(None), Ok(None)) => true,
            (Err(a), Err(b)) => a == b,
            _ => false,
        },
{
    let t = trim_chars(value);
    let v = without_semicolons(t.as_slice());
    let n = v.len();
    let keyword = ['r', 'e', 't', 'u', 'r', 'n'];
    proof {
        assert(keyword@ =~= seq!['r', 'e', 't', 'u', 'r', 'n']);
        assert(['b', 'r', 'e', 'a', 'k']@ =~= seq!['b', 'r', 'e', 'a', 'k']);
        assert(['c', 'o', 'n', 't', 'i', 'n', 'u', 'e']@ =~= seq!['c', 'o', 'n', 't', 'i', 'n', 'u', 'e']);
        assert(v@.subrange(0, n as int) =~= v@);
    }
    if crate::io::same_text(v.as_slice(), 0, n, &keyword) {
        return Ok(Some(RawAbstractSyntaxNode::Return { value: None }));
    }
    if n >= 6 && crate::io::same_text(v.as_slice(), 0, 6, &keyword) {
        let rest = slice_of(v.as_slice(), 6, n);
        let expression_chars = trim_chars(rest.as_slice());
        proof {
            assert(rest@ =~= v@.skip(6));
        }
        return match expression_of(expression_chars.as_slice()) {
            Ok(e) => Ok(Some(RawAbstractSyntaxNode::Return { value: Some(e) })),
            Err(e) => Err(e),
        };
    }
    if crate::io::same_text(v.as_slice(), 0, n, &['b', 'r', 'e', 'a', 'k']) {
        return Ok(Some(RawAbstractSyntaxNode::Break));
    }
    if crate::io::same_text(v.as_slice(), 0, n, &['c', 'o', 'n', 't', 'i', 'n', 'u', 'e']) {
        return Ok(Some(RawAbstractSyntaxNode::Continue));
    }
    Ok(None)
}

/// Whether the characters name a built-in type.
fn is_primitive_name(name: &[char]) -> (primitive: bool)
    ensures
        primitive == primitive_name(name@),
{
    let n = name.len();
    proof {
        assert(name@.subrange(0, n as int) =~= name@);
        assert(['i', 'n', 't']@ =~= seq!['i', 'n', 't']);
        assert(['b', 'o', 'o', 'l']@ =~= seq!['b', 'o', 'o', 'l']);
        assert(['v', 'o', 'i', 'd']@ =~= seq!['v', 'o', 'i', 'd']);
        assert(['c', 'h', 'a', 'r']@ =~= seq!['c', 'h', 'a', 'r']);
    }
    crate::io::same_text(name, 0, n, &['i', 'n', 't']) || crate::io::same_text(
        name,
        0,
        n,
        &['b', 'o', 'o', 'l'],
    ) || crate::io::same_text(name, 0, n, &['v', 'o', 'i', 'd']) || crate::io::same_text(
        name,
        0,
        n,
        &['c', 'h', 'a', 'r'],
    )
}

/// A declaration `type name` or `type name = expression`: the type's text, the name and the
/// initial value; `None` where the text is no declaration.
fn parse_declaration(text: &[char]) -> (declaration: Result<
    Option<(Vec<char>, Vec<char>, Option<Expression<()>>)>,
    AstError,
>)
    requires
        text@.len() + 8 < usize::MAX,
    ensures
        match (declaration, declaration_text(text@)) {
            (Ok(Some((typ, name, value))), Ok(Some((t, m, w)))) => typ@ == t && name@ == m
                && optional_shape(value) == w,
            (Ok(None), Ok(None)) => true,
            (Err(a), Err(b)) => a == b,
            _ => false,
        },
{
    let t = trim_chars(text);
    let n = t.len();
    if n == 0 {
        return Ok(None);
    }
    let space = match first_index(t.as_slice(), ' ') {
        Some(i) => i,
        None => {
            return Ok(None);
        },
    };
    let typ = slice_of(t.as_slice(), 0, space);
    let after = slice_of(t.as_slice(), space + 1, n);
    let rest = trim_chars(after.as_slice());
    proof {
        assert(after@ =~= t@.skip(space + 1));
    }
    let base = match first_index(typ.as_slice(), '[') {
        Some(b) => slice_of(typ.as_slice(), 0, b),
        None => slice_of(typ.as_slice(), 0, typ.len()),
    };
    proof {
        assert(typ@.subrange(0, typ@.len() as int) =~= typ@);
    }
    let primitive = is_primitive_name(base.as_slice());
    let class = base.len() > 0 && char_is_uppercase(base[0]);
    if !primitive && !class {
        return Ok(None);
    }
    match first_index(rest.as_slice(), '=') {
        Some(equal) => {
            let name_part = slice_of(rest.as_slice(), 0, equal);
            let value_part = slice_of(rest.as_slice(), equal + 1, rest.len());
            let name = trim_chars(name_part.as_slice());
            let value = trim_chars(value_part.as_slice());
            proof {
                assert(value_part@ =~= rest@.skip(equal + 1));
            }
            if name.len() == 0 {
                Ok(None)
            } else if value.len() == 0 {
                Ok(Some((typ, name, None)))
            } else {
                match expression_of(value.as_slice()) {
                    Ok(e) => Ok(Some((typ, name, Some(e)))),
                    Err(e) => Err(e),
                }
            }
        },
        None => {
            let name = trim_chars(rest.as_slice());
            if name.len() == 0 {
                return Ok(None);
            }
            match first_index(name.as_slice(), '(') {
                Some(_) => Ok(None),
                None => Ok(Some((typ, name, None))),
            }
        },
    }
}

/// A declaration statement where the text is a declaration, else an expression statement.
fn parse_statement_part(text: &[char]) -> (statement: Result<RawAbstractSyntaxNode, AstError>)
    requires
        text@.len() + 8 < usize::MAX,
    ensures
        match (statement, statement_part(text@)) {
            (Ok(n), Ok(v)) => node_view(n) == v,
            (Err(a), Err(b)) => a == b,
            _ => false,
        },
{
    match parse_declaration(text) {
        Ok(Some((typ, name, expression))) => match type_of_text(typ.as_slice()) {
            Ok(t) => Ok(
                RawAbstractSyntaxNode::Declaration {
                    typ: t,
                    name: crate::translator::expression::text_of(name.as_slice()),
                    expression,
                },
            ),
            Err(e) => Err(e),
        },
        _ => match expression_of(text) {
            Ok(expression) => Ok(RawAbstractSyntaxNode::Expression { expression }),
            Err(e) => Err(e),
        },
    }
}

/// The statement that a line stands for.
fn parse_line(value: &[char]) -> (statement: Result<RawAbstractSyntaxNode, AstError>)
    requires
        value@.len() + 8 < usize::MAX,
    ensures
        match (statement, line_node(value@)) {
            (Ok(n), Ok(v)) => node_view(n) == v,
            (Err(a), Err(b)) => a == b,
            _ => false,
        },
{
    match parse_statement_keyword(value) {
        Err(e) => Err(e),
        Ok(Some(node)) => Ok(node),
        Ok(None) => parse_statement_part(value),
    }
}

/// An expression, or none for an empty text.
fn parse_optional_expression(text: &[char]) -> (parsed: Result<Option<Expression<()>>, AstError>)
    requires
        text@.len() + 8 < usize::MAX,
    ensures
        match (parsed, optional_expression(text@)) {
            (Ok(a), Ok(b)) => optional_shape(a) == b,
            (Err(a), Err(b)) => a == b,
            _ => false,
        },
{
    if text.len() == 0 {
        return Ok(None);
    }
    match expression_of(text) {
        Ok(e) => Ok(Some(e)),
        Err(e) => Err(e),
    }
}

impl RawAbstractSyntaxTree {
    /// A tree of one statement without a body.
    pub fn new(node: RawAbstractSyntaxNode) -> (tree: Self)
        ensures
            tree.node == node,
            tree.children@.len() == 0,
    {
        RawAbstractSyntaxTree { node, children: Vec::new() }
    }

    /// A tree of a statement and its body.
    pub fn with_children(node: RawAbstractSyntaxNode, children: Vec<RawAbstractSyntaxTree>) -> (tree:
        Self)
        ensures
            tree.node == node,
            tree.children@ == children@,
    {
        RawAbstractSyntaxTree { node, children }
    }
}

/// The `for` statement with head `condition` and the given body.
fn build_for_loop(condition: &[char], body_children: Vec<RawAbstractSyntaxTree>) -> (tree: Result<
    RawAbstractSyntaxTree,
    AstError,
>)
    requires
        condition@.len() + 8 < usize::MAX,
    ensures
        match (tree, for_node(condition@)) {
            (Ok(t), Ok(node)) => tree_view(t) == TreeView {
                node,
                children: trees_view(body_children@),
            },
            (Err(a), Err(b)) => a == b,
            _ => false,
        },
{
    let parts = split_chars(condition, ';');
    proof {
        lemma_split_pieces_shorter(condition@, ';');
    }
    if parts.len() != 3 {
        return Err(AstError::InvalidForLoop);
    }
    proof {
        assert(parts@[0]@ == split_on(condition@, ';')[0]);
        assert(parts@[1]@ == split_on(condition@, ';')[1]);
        assert(parts@[2]@ == split_on(condition@, ';')[2]);
    }
    let first = trim_chars(parts[0].as_slice());
    let second = trim_chars(parts[1].as_slice());
    let third = trim_chars(parts[2].as_slice());
    let initializer = if first.len() == 0 {
        None
    } else {
        match parse_statement_part(first.as_slice()) {
            Ok(node) => Some(Box::new(node)),
            Err(e) => {
                return Err(e);
            },
        }
    };
    let condition_expression = match parse_optional_expression(second.as_slice()) {
        Ok(e) => e,
        Err(e) => {
            return Err(e);
        },
    };
    let increment = match parse_optional_expression(third.as_slice()) {
        Ok(e) => e,
        Err(e) => {
            return Err(e);
        },
    };
    Ok(
        RawAbstractSyntaxTree::with_children(
            RawAbstractSyntaxNode::For { initializer, condition: condition_expression, increment },
            body_children,
        ),
    )
}

/// Whether every text of a syntax node that holds an expression is short enough to be parsed.
pub open spec fn node_fits(node: SyntaxNode) -> bool {
    match node {
        SyntaxNode::If { condition } => condition@.len() + 8 < usize::MAX,
        SyntaxNode::ElseIf { condition } => condition@.len() + 8 < usize::MAX,
        SyntaxNode::While { condition } => condition@.len() + 8 < usize::MAX,
        SyntaxNode::For { condition } => condition@.len() + 8 < usize::MAX,
        SyntaxNode::Line { value } => value@.len() + 8 < usize::MAX,
        _ => true,
    }
}

/// Whether every node of a syntax tree fits.
pub open spec fn tree_fits(tree: SyntaxTree) -> bool
    decreases tree,
{
    node_fits(tree.node) && trees_fit(tree.children@)
}

/// Whether every tree of a sequence fits.
pub open spec fn trees_fit(trees: Seq<SyntaxTree>) -> bool
    decreases trees,
{
    trees.len() == 0 || (trees_fit(trees.drop_last()) && tree_fits(trees.last()))
}

/// Each tree of a fitting sequence fits.
pub proof fn lemma_trees_fit_each(trees: Seq<SyntaxTree>, i: int)
    requires
        trees_fit(trees),
        0 <= i < trees.len(),
    ensures
        tree_fits(trees[i]),
    decreases trees.len(),
{
    if i < trees.len() - 1 {
        lemma_trees_fit_each(trees.drop_last(), i);
    }
}

/// Once a prefix of the children is refused, the whole sequence is refused with that error.
pub proof fn lemma_asts_error_persists(trees: Seq<SyntaxTree>, n: int)
    requires
        0 <= n <= trees.len(),
        asts_of(trees.take(n)) is Err,
    ensures
        asts_of(trees) == asts_of(trees.take(n)),
    decreases trees.len(),
{
    if n < trees.len() {
        assert(trees.take(n) =~= trees.drop_last().take(n));
        lemma_asts_error_persists(trees.drop_last(), n);
    } else {
        assert(trees.take(n) =~= trees);
    }
}

/// The view of trees with one more tree pushed.
pub proof fn lemma_trees_view_push(trees: Seq<RawAbstractSyntaxTree>, tree: RawAbstractSyntaxTree)
    ensures
        trees_view(trees.push(tree)) == trees_view(trees).push(tree_view(tree)),
{
    assert(trees.push(tree).drop_last() =~= trees);
}

/// The parameter `int port` of the built-in functions.
fn port_variable() -> (variable: Variable)
    ensures
        variable_view(variable) == (TypeView::Int, seq!['p', 'o', 'r', 't']),
{
    proof {
        assert(['p', 'o', 'r', 't']@ =~= seq!['p', 'o', 'r', 't']);
    }
    Variable { name: crate::translator::expression::text_of(&['p', 'o', 'r', 't']), typ: Type::Int }
}

/// The parameter `value` of type `typ` of the built-in output functions.
fn value_variable(typ: Type) -> (variable: Variable)
    ensures
        variable_view(variable) == (type_view(typ), seq!['v', 'a', 'l', 'u', 'e']),
{
    proof {
        assert(['v', 'a', 'l', 'u', 'e']@ =~= seq!['v', 'a', 'l', 'u', 'e']);
    }
    Variable { name: crate::translator::expression::text_of(&['v', 'a', 'l', 'u', 'e']), typ }
}

/// A function whose body is one `return` statement.
fn returning_function(
    result_type: Type,
    name: String,
    arguments: Vec<Variable>,
    value: Option<Expression<()>>,
) -> (tree: RawAbstractSyntaxTree)
    ensures
        tree_view(tree) == (TreeView {
            node: NodeView::Callable(
                type_view(result_type),
                name@,
                arguments@.map_values(|v: Variable| variable_view(v)),
            ),
            children: seq![TreeView { node: NodeView::Return(optional_shape(value)), children: Seq::empty() }],
        }),
{
    let body = RawAbstractSyntaxTree::new(RawAbstractSyntaxNode::Return { value });
    let mut children: Vec<RawAbstractSyntaxTree> = Vec::new();
    children.push(body);
    proof {
        lemma_trees_view_push(Seq::empty(), body);
        assert(children@ =~= Seq::<RawAbstractSyntaxTree>::empty().push(body));
        assert(trees_view(Seq::<RawAbstractSyntaxTree>::empty()) =~= Seq::<TreeView>::empty());
        assert(body.children@ =~= Seq::<RawAbstractSyntaxTree>::empty());
    }
    RawAbstractSyntaxTree::with_children(
        RawAbstractSyntaxNode::Callable { result_type, name, arguments },
        children,
    )
}

/// Appends the four built-in input and output functions.
fn push_builtin_functions(trees: &mut Vec<RawAbstractSyntaxTree>)
    ensures
        trees_view(final(trees)@) == trees_view(old(trees)@) + builtin_functions(),
{
    let ghost start = trees_view(trees@);
    proof {
        assert(['i', 'i', 'n']@ =~= seq!['i', 'i', 'n']);
        assert(['c', 'i', 'n']@ =~= seq!['c', 'i', 'n']);
        assert(['i', 'o', 'u', 't']@ =~= seq!['i', 'o', 'u', 't']);
        assert(['c', 'o', 'u', 't']@ =~= seq!['c', 'o', 'u', 't']);
        assert(['0']@ =~= seq!['0']);
        assert(['\'', '0', '\'']@ =~= seq!['\'', '0', '\'']);
    }
    let mut arguments: Vec<Variable> = Vec::new();
    arguments.push(port_variable());
    proof {
        assert(arguments@.map_values(|v: Variable| variable_view(v)) =~= seq![
            (TypeView::Int, seq!['p', 'o', 'r', 't']),
        ]);
    }
    let zero = Expression::Literal { typ: (), value: crate::translator::expression::text_of(&['0']) };
    let t = returning_function(
        Type::Int,
        crate::translator::expression::text_of(&['i', 'i', 'n']),
        arguments,
        Some(zero),
    );
    proof {
        lemma_trees_view_push(trees@, t);
    }
    trees.push(t);

    let mut arguments: Vec<Variable> = Vec::new();
    arguments.push(port_variable());
    proof {
        assert(arguments@.map_values(|v: Variable| variable_view(v)) =~= seq![
            (TypeView::Int, seq!['p', 'o', 'r', 't']),
        ]);
    }
    let zero = Expression::Literal {
        typ: (),
        value: crate::translator::expression::text_of(&['\'', '0', '\'']),
    };
    let t = returning_function(
        Type::Char,
        crate::translator::expression::text_of(&['c', 'i', 'n']),
        arguments,
        Some(zero),
    );
    proof {
        lemma_trees_view_push(trees@, t);
    }
    trees.push(t);

    let mut arguments: Vec<Variable> = Vec::new();
    arguments.push(port_variable());
    arguments.push(value_variable(Type::Int));
    proof {
        assert(arguments@.map_values(|v: Variable| variable_view(v)) =~= seq![
            (TypeView::Int, seq!['p', 'o', 'r', 't']),
            (TypeView::Int, seq!['v', 'a', 'l', 'u', 'e']),
        ]);
    }
    let t = returning_function(
        Type::Void,
        crate::translator::expression::text_of(&['i', 'o', 'u', 't']),
        arguments,
        None,
    );
    proof {
        lemma_trees_view_push(trees@, t);
    }
    trees.push(t);

    let mut arguments: Vec<Variable> = Vec::new();
    arguments.push(port_variable());
    arguments.push(value_variable(Type::Char));
    proof {
        assert(arguments@.map_values(|v: Variable| variable_view(v)) =~= seq![
            (TypeView::Int, seq!['p', 'o', 'r', 't']),
            (TypeView::Char, seq!['v', 'a', 'l', 'u', 'e']),
        ]);
    }
    let t = returning_function(
        Type::Void,
        crate::translator::expression::text_of(&['c', 'o', 'u', 't']),
        arguments,
        None,
    );
    proof {
        lemma_trees_view_push(trees@, t);
    }
    trees.push(t);
    proof {
        assert(trees_view(trees@) =~= start + builtin_functions());
    }
}

/// The statement tree of a syntax node with the statement trees of its children.
fn build_node(node: &SyntaxNode, children: Vec<RawAbstractSyntaxTree>) -> (ast: Result<
    RawAbstractSyntaxTree,
    AstError,
>)
    requires
        node_fits(*node),
    ensures
        match (ast, node_ast(*node, trees_view(children@))) {
            (Ok(a), Ok(v)) => tree_view(a) == v,
            (Err(a), Err(b)) => a == b,
            _ => false,
        },
{
    proof {
        reveal(node_ast);
    }
    match node {
        SyntaxNode::If { condition } => {
            let chars = crate::io::chars_of(condition.as_str());
            match expression_of(chars.as_slice()) {
                Ok(e) => Ok(
                    RawAbstractSyntaxTree::with_children(
                        RawAbstractSyntaxNode::If { condition: e },
                        children,
                    ),
                ),
                Err(e) => Err(e),
            }
        },
        SyntaxNode::ElseIf { condition } => {
            let chars = crate::io::chars_of(condition.as_str());
            match expression_of(chars.as_slice()) {
                Ok(e) => Ok(
                    RawAbstractSyntaxTree::with_children(
                        RawAbstractSyntaxNode::ElseIf { condition: e },
                        children,
                    ),
                ),
                Err(e) => Err(e),
            }
        },
        SyntaxNode::Else => Ok(
            RawAbstractSyntaxTree::with_children(RawAbstractSyntaxNode::Else, children),
        ),
        SyntaxNode::While { condition } => {
            let chars = crate::io::chars_of(condition.as_str());
            match expression_of(chars.as_slice()) {
                Ok(e) => Ok(
                    RawAbstractSyntaxTree::with_children(
                        RawAbstractSyntaxNode::While { condition: e },
                        children,
                    ),
                ),
                Err(e) => Err(e),
            }
        },
        SyntaxNode::For { condition } => {
            let chars = crate::io::chars_of(condition.as_str());
            build_for_loop(chars.as_slice(), children)
        },
        SyntaxNode::Line { value } => {
            let chars = crate::io::chars_of(value.as_str());
            match parse_line(chars.as_slice()) {
                Ok(node) => Ok(RawAbstractSyntaxTree::new(node)),
                Err(e) => Err(e),
            }
        },
        SyntaxNode::Function { result_type, name, arguments } => {
            let argument_chars = crate::io::chars_of(arguments.as_str());
            let parameters = match parse_arguments(argument_chars.as_slice()) {
                Ok(parameters) => parameters,
                Err(e) => {
                    return Err(e);
                },
            };
            let type_chars = crate::io::chars_of(result_type.as_str());
            match type_of_text(type_chars.as_slice()) {
                Ok(typ) => Ok(
                    RawAbstractSyntaxTree::with_children(
                        RawAbstractSyntaxNode::Callable {
                            result_type: typ,
                            name: name.clone(),
                            arguments: parameters,
                        },
                        children,
                    ),
                ),
                Err(e) => Err(e),
            }
        },
        SyntaxNode::Class { name } => Ok(
            RawAbstractSyntaxTree::with_children(
                RawAbstractSyntaxNode::Class { name: name.clone() },
                children,
            ),
        ),
        SyntaxNode::Scope => Ok(
            RawAbstractSyntaxTree::with_children(RawAbstractSyntaxNode::Scope, children),
        ),
        SyntaxNode::File => {
            let mut all = children;
            push_builtin_functions(&mut all);
            Ok(RawAbstractSyntaxTree::with_children(RawAbstractSyntaxNode::File, all))
        },
    }
}

/// The statement tree of a syntax tree, built from a borrowed tree.
fn build_tree(tree: &SyntaxTree) -> (ast: Result<RawAbstractSyntaxTree, AstError>)
    requires
        tree_fits(*tree),
    ensures
        match (ast, ast_of(*tree)) {
            (Ok(a), Ok(v)) => tree_view(a) == v,
            (Err(a), Err(b)) => a == b,
            _ => false,
        },
    decreases tree,
{
    let mut children: Vec<RawAbstractSyntaxTree> = Vec::new();
    let mut k: usize = 0;
    proof {
        assert(tree.children@.take(0) =~= Seq::<SyntaxTree>::empty());
        assert(trees_view(children@) =~= Seq::<TreeView>::empty());
    }
    while k < tree.children.len()
        invariant
            k <= tree.children@.len(),
            trees_fit(tree.children@),
            asts_of(tree.children@.take(k as int)) == Ok::<Seq<TreeView>, AstError>(
                trees_view(children@),
            ),
        decreases tree.children@.len() - k,
    {
        proof {
            assert(tree.children@.take(k + 1).drop_last() =~= tree.children@.take(k as int));
            assert(tree.children@.take(k + 1).last() == tree.children@[k as int]);
            lemma_trees_fit_each(tree.children@, k as int);
        }
        match build_tree(&tree.children[k]) {
            Ok(child) => {
                proof {
                    lemma_trees_view_push(children@, child);
                }
                children.push(child);
            },
            Err(e) => {
                proof {
                    lemma_asts_error_persists(tree.children@, k + 1);
                }
                return Err(e);
            },
        }
        k = k + 1;
    }
    proof {
        assert(tree.children@.take(k as int) =~= tree.children@);
    }
    build_node(&tree.node, children)
}

/// The statement tree of a syntax tree: each node's texts parsed into statements and
/// expressions, the children first and in order; a file gets the built-in input and output
/// functions after its own children. The first error found is returned.
pub fn build_ast(tree: SyntaxTree) -> (ast: Result<RawAbstractSyntaxTree, AstError>)
    requires
        tree_fits(tree),
    ensures
        match (ast, ast_of(tree)) {
            (Ok(a), Ok(v)) => tree_view(a) == v,
            (Err(a), Err(b)) => a == b,
            _ => false,
        },
{
    build_tree(&tree)
}

} // verus!
