use crate::translator::common::Type;
use vstd::prelude::*;

verus! {

/// The binary operators of the source language, assignments included.
#[derive(Clone, Copy, Debug, PartialEq, Eq, Structural)]
pub enum ExpressionBinaryOperator {
    Assign,
    AssignAdd,
    AssignSub,
    AssignMul,
    AssignDiv,
    AssignAnd,
    AssignOr,
    AssignXor,
    Or,
    And,
    BitwiseOr,
    BitwiseXor,
    BitwiseAnd,
    Equal,
    NotEqual,
    Less,
    LessEqual,
    Greater,
    GreaterEqual,
    Add,
    Sub,
    Multiply,
    Divide,
    Remainder,
    LeftShift,
    RightShift,
}

/// The operators that compute a number from two numbers.
pub open spec fn arithmetic(operator: ExpressionBinaryOperator) -> bool {
    matches!(operator, ExpressionBinaryOperator::Add | ExpressionBinaryOperator::Sub
        | ExpressionBinaryOperator::Multiply | ExpressionBinaryOperator::Divide
        | ExpressionBinaryOperator::Remainder | ExpressionBinaryOperator::LeftShift
        | ExpressionBinaryOperator::RightShift | ExpressionBinaryOperator::BitwiseAnd
        | ExpressionBinaryOperator::BitwiseOr | ExpressionBinaryOperator::BitwiseXor)
}

/// The operators that order two values.
pub open spec fn relational(operator: ExpressionBinaryOperator) -> bool {
    matches!(operator, ExpressionBinaryOperator::Less | ExpressionBinaryOperator::LessEqual
        | ExpressionBinaryOperator::Greater | ExpressionBinaryOperator::GreaterEqual)
}

/// The operators that combine two truth values.
pub open spec fn logical(operator: ExpressionBinaryOperator) -> bool {
    matches!(operator, ExpressionBinaryOperator::And | ExpressionBinaryOperator::Or)
}

/// The assignment operators.
pub open spec fn assigning(operator: ExpressionBinaryOperator) -> bool {
    matches!(operator, ExpressionBinaryOperator::Assign | ExpressionBinaryOperator::AssignAdd
        | ExpressionBinaryOperator::AssignSub | ExpressionBinaryOperator::AssignMul
        | ExpressionBinaryOperator::AssignDiv | ExpressionBinaryOperator::AssignAnd
        | ExpressionBinaryOperator::AssignOr | ExpressionBinaryOperator::AssignXor)
}

/// Whether an operator computes a number from two numbers.
pub fn is_arithmetic_binary_op(operator: &ExpressionBinaryOperator) -> (result: bool)
    ensures
        result == arithmetic(*operator),
{
    match operator {
        ExpressionBinaryOperator::Add
        | ExpressionBinaryOperator::Sub
        | ExpressionBinaryOperator::Multiply
        | ExpressionBinaryOperator::Divide
        | ExpressionBinaryOperator::Remainder
        | ExpressionBinaryOperator::LeftShift
        | ExpressionBinaryOperator::RightShift
        | ExpressionBinaryOperator::BitwiseAnd
        | ExpressionBinaryOperator::BitwiseOr
        | ExpressionBinaryOperator::BitwiseXor => true,
        _ => false,
    }
}

/// Whether an operator combines two truth values.
pub fn is_logical_binary_op(operator: &ExpressionBinaryOperator) -> (result: bool)
    ensures
        result == logical(*operator),
{
    match operator {
        ExpressionBinaryOperator::And | ExpressionBinaryOperator::Or => true,
        _ => false,
    }
}

/// Whether an operator orders two values.
pub fn is_relational_binary_op(operator: &ExpressionBinaryOperator) -> (result: bool)
    ensures
        result == relational(*operator),
{
    match operator {
        ExpressionBinaryOperator::Less
        | ExpressionBinaryOperator::LessEqual
        | ExpressionBinaryOperator::Greater
        | ExpressionBinaryOperator::GreaterEqual => true,
        _ => false,
    }
}

/// Whether an operator compares two values: the relational operators and the two
/// equality tests.
pub fn is_compering_binary_op(operator: &ExpressionBinaryOperator) -> (result: bool)
    ensures
        result == (relational(*operator) || *operator == ExpressionBinaryOperator::Equal
            || *operator == ExpressionBinaryOperator::NotEqual),
{
    match operator {
        ExpressionBinaryOperator::Equal
        | ExpressionBinaryOperator::NotEqual
        | ExpressionBinaryOperator::Less
        | ExpressionBinaryOperator::LessEqual
        | ExpressionBinaryOperator::Greater
        | ExpressionBinaryOperator::GreaterEqual => true,
        _ => false,
    }
}

/// How tightly an operator binds on its left and on its right side; a higher number binds
/// tighter.
pub open spec fn binding(operator: ExpressionBinaryOperator) -> (u8, u8) {
    match operator {
        ExpressionBinaryOperator::Assign
        | ExpressionBinaryOperator::AssignAdd
        | ExpressionBinaryOperator::AssignSub
        | ExpressionBinaryOperator::AssignMul
        | ExpressionBinaryOperator::AssignDiv
        | ExpressionBinaryOperator::AssignAnd
        | ExpressionBinaryOperator::AssignOr
        | ExpressionBinaryOperator::AssignXor => (1, 2),
        ExpressionBinaryOperator::Or => (3, 4),
        ExpressionBinaryOperator::And => (5, 6),
        ExpressionBinaryOperator::BitwiseOr => (7, 8),
        ExpressionBinaryOperator::BitwiseXor => (9, 10),
        ExpressionBinaryOperator::BitwiseAnd => (11, 12),
        ExpressionBinaryOperator::Equal | ExpressionBinaryOperator::NotEqual => (13, 14),
        ExpressionBinaryOperator::Less
        | ExpressionBinaryOperator::LessEqual
        | ExpressionBinaryOperator::Greater
        | ExpressionBinaryOperator::GreaterEqual => (15, 16),
        ExpressionBinaryOperator::LeftShift | ExpressionBinaryOperator::RightShift => (17, 18),
        ExpressionBinaryOperator::Add | ExpressionBinaryOperator::Sub => (19, 20),
        ExpressionBinaryOperator::Multiply
        | ExpressionBinaryOperator::Divide
        | ExpressionBinaryOperator::Remainder => (21, 22),
    }
}

/// Every binary operator binds one step tighter on its right than on its left, so chains
/// of one operator group to the left; all of them bind looser than the prefix operators
/// (23) and the postfix operators (25); the assignments bind loosest of all.
pub proof fn lemma_binding_orders(operator: ExpressionBinaryOperator, other: ExpressionBinaryOperator)
    ensures
        binding(operator).1 == binding(operator).0 + 1,
        1 <= binding(operator).0 && binding(operator).1 < 23,
        assigning(operator) ==> binding(operator).0 <= binding(other).0,
        assigning(operator) && !assigning(other) ==> binding(operator).1 < binding(other).0,
{
}

/// The precedence level of an operator in the source language, loosest first, as in Java:
/// assignments, `||`, `&&`, `|`, `^`, `&`, equality, relational comparisons, shifts, additive
/// and multiplicative operators.
pub open spec fn precedence_level(operator: ExpressionBinaryOperator) -> nat {
    if assigning(operator) {
        0
    } else if operator == ExpressionBinaryOperator::Or {
        1
    } else if operator == ExpressionBinaryOperator::And {
        2
    } else if operator == ExpressionBinaryOperator::BitwiseOr {
        3
    } else if operator == ExpressionBinaryOperator::BitwiseXor {
        4
    } else if operator == ExpressionBinaryOperator::BitwiseAnd {
        5
    } else if operator == ExpressionBinaryOperator::Equal || operator
        == ExpressionBinaryOperator::NotEqual {
        6
    } else if relational(operator) {
        7
    } else if operator == ExpressionBinaryOperator::LeftShift || operator
        == ExpressionBinaryOperator::RightShift {
        8
    } else if operator == ExpressionBinaryOperator::Add || operator == ExpressionBinaryOperator::Sub {
        9
    } else {
        10
    }
}

/// The binding powers follow the precedence levels: an operator of a higher level binds its
/// operands before one of a lower level on either side of it (so `a < b + c` is
/// `a < (b + c)` and `a * b - c` is `(a * b) - c`), and operators of one level bind alike.
pub proof fn lemma_binding_follows_precedence(
    operator: ExpressionBinaryOperator,
    other: ExpressionBinaryOperator,
)
    ensures
        precedence_level(operator) < precedence_level(other) ==> binding(operator).1 < binding(
            other,
        ).0,
        precedence_level(operator) > precedence_level(other) ==> binding(other).1 < binding(
            operator,
        ).0,
        precedence_level(operator) == precedence_level(other) ==> binding(operator) == binding(
            other,
        ),
{
}

/// Whether a character is alphabetic in the Unicode sense, as `char::is_alphabetic` decides.
pub uninterp spec fn alphabetic(c: char) -> bool;

/// Whether a character is numeric in the Unicode sense, as `char::is_numeric` decides.
pub uninterp spec fn numeric(c: char) -> bool;

/// `char::is_alphabetic`.
#[verifier::external_body]
fn char_is_alphabetic(c: char) -> (result: bool)
    ensures
        result == alphabetic(c),
{
    c.is_alphabetic()
}

/// `char::is_numeric`.
#[verifier::external_body]
fn char_is_numeric(c: char) -> (result: bool)
    ensures
        result == numeric(c),
{
    c.is_numeric()
}

/// `String::from_iter`: the string made of the given characters.
#[verifier::external_body]
pub(crate) fn text_of(chars: &[char]) -> (text: String)
    ensures
        text@ == chars@,
{
    String::from_iter(chars.iter())
}

/// A lexical token of an expression.
pub enum Token {
    Number(u64),
    String(String),
    Char(String),
    Bool(bool),
    Id(String),
    Operator(String),
    LeftBracket,
    RightBracket,
    LeftSquareBracket,
    RightSquareBracket,
    Comma,
    Dot,
    Colon,
}

/// A token with its text as a sequence of characters.
pub enum TokenView {
    Number(u64),
    Text(Seq<char>),
    Character(Seq<char>),
    Bool(bool),
    Id(Seq<char>),
    Operator(Seq<char>),
    LeftBracket,
    RightBracket,
    LeftSquareBracket,
    RightSquareBracket,
    Comma,
    Dot,
    Colon,
}

impl View for Token {
    type V = TokenView;

    open spec fn view(&self) -> TokenView {
        match self {
            Token::Number(n) => TokenView::Number(*n),
            Token::String(s) => TokenView::Text(s@),
            Token::Char(s) => TokenView::Character(s@),
            Token::Bool(b) => TokenView::Bool(*b),
            Token::Id(s) => TokenView::Id(s@),
            Token::Operator(s) => TokenView::Operator(s@),
            Token::LeftBracket => TokenView::LeftBracket,
            Token::RightBracket => TokenView::RightBracket,
            Token::LeftSquareBracket => TokenView::LeftSquareBracket,
            Token::RightSquareBracket => TokenView::RightSquareBracket,
            Token::Comma => TokenView::Comma,
            Token::Dot => TokenView::Dot,
            Token::Colon => TokenView::Colon,
        }
    }
}

/// Why an expression cannot be read.
#[derive(Clone, Copy, Debug, PartialEq, Eq, Structural)]
pub enum ExpressionError {
    /// A number does not fit in 64 bits.
    NumberTooLarge,
    /// A string literal ends right after a backslash.
    UnfinishedStringEscape,
    /// A character literal ends right after a backslash.
    UnfinishedCharEscape,
}

/// Whether a character may continue an identifier.
pub open spec fn identifier_char(c: char) -> bool {
    alphabetic(c) || numeric(c) || c == '_'
}

/// The end of the run of identifier characters that starts at `pos`.
pub open spec fn identifier_end(chars: Seq<char>, pos: int) -> int
    decreases chars.len() - pos,
{
    if 0 <= pos < chars.len() && identifier_char(chars[pos]) {
        identifier_end(chars, pos + 1)
    } else {
        pos
    }
}

/// The end of the run of decimal digits that starts at `pos`.
pub open spec fn digits_end(chars: Seq<char>, pos: int) -> int
    decreases chars.len() - pos,
{
    if 0 <= pos < chars.len() && crate::io::is_digit(chars[pos]) {
        digits_end(chars, pos + 1)
    } else {
        pos
    }
}

/// The contents of a quoted literal from `pos` on, up to the closing `quote` or the end of
/// the text: a backslash is kept together with the character after it. Gives the contents
/// and the position after the literal, or `None` where the text ends right after a
/// backslash.
pub open spec fn quoted(chars: Seq<char>, pos: int, quote: char) -> (Option<Seq<char>>, int)
    decreases chars.len() - pos,
{
    if pos < 0 || pos >= chars.len() {
        (Some(Seq::empty()), pos)
    } else if chars[pos] == '\\' {
        if pos + 1 < chars.len() {
            let (rest, end) = quoted(chars, pos + 2, quote);
            match rest {
                Some(rest) => (Some(seq!['\\', chars[pos + 1]] + rest), end),
                None => (None, end),
            }
        } else {
            (None, pos + 1)
        }
    } else if chars[pos] == quote {
        (Some(Seq::empty()), pos + 1)
    } else {
        let (rest, end) = quoted(chars, pos + 1, quote);
        match rest {
            Some(rest) => (Some(seq![chars[pos]] + rest), end),
            None => (None, end),
        }
    }
}

/// The two-character operators.
pub open spec fn double_operator(first: char, second: char) -> bool {
    ||| (first == '+' && second == '+')
    ||| (first == '-' && second == '-')
    ||| (first == '&' && second == '&')
    ||| (first == '|' && second == '|')
    ||| (first == '+' && second == '=')
    ||| (first == '-' && second == '=')
    ||| (first == '*' && second == '=')
    ||| (first == '/' && second == '=')
    ||| (first == '=' && second == '=')
    ||| (first == '!' && second == '=')
    ||| (first == '<' && second == '=')
    ||| (first == '>' && second == '=')
    ||| (first == '<' && second == '<')
    ||| (first == '>' && second == '>')
    ||| (first == '&' && second == '=')
    ||| (first == '|' && second == '=')
    ||| (first == '^' && second == '=')
}

/// `rest` with `first` in front, or the error of `rest`.
pub open spec fn prepend(first: Seq<TokenView>, rest: Result<Seq<TokenView>, ExpressionError>) -> Result<
    Seq<TokenView>,
    ExpressionError,
> {
    match rest {
        Ok(tokens) => Ok(first + tokens),
        Err(e) => Err(e),
    }
}

/// The tokens of `chars` from `pos` on: white space separates tokens; an identifier is a
/// run of letters, digits and underscores starting with a letter or underscore (`true` and
/// `false` are truth values); a number is a run of digits; string and character literals are
/// quoted; brackets, comma, dot and colon stand alone; any other character is an operator,
/// joined with the next one where the two form a two-character operator.
pub open spec fn tokens_from(chars: Seq<char>, pos: int) -> Result<Seq<TokenView>, ExpressionError>
    decreases chars.len() - pos,
{
    if pos < 0 || pos >= chars.len() {
        Ok(Seq::empty())
    } else {
        let c = chars[pos];
        if crate::io::is_space(c) {
            tokens_from(chars, pos + 1)
        } else if alphabetic(c) || c == '_' {
            let end = identifier_end(chars, pos + 1);
            let word = chars.subrange(pos, end);
            let token = if word == seq!['t', 'r', 'u', 'e'] {
                TokenView::Bool(true)
            } else if word == seq!['f', 'a', 'l', 's', 'e'] {
                TokenView::Bool(false)
            } else {
                TokenView::Id(word)
            };
            if pos < end <= chars.len() {
                prepend(seq![token], tokens_from(chars, end))
            } else {
                Ok(Seq::empty())
            }
        } else if crate::io::is_digit(c) {
            let end = digits_end(chars, pos + 1);
            let value = crate::io::decimal(chars.subrange(pos, end));
            if value > u64::MAX {
                Err(ExpressionError::NumberTooLarge)
            } else if pos < end <= chars.len() {
                prepend(seq![TokenView::Number(value as u64)], tokens_from(chars, end))
            } else {
                Ok(Seq::empty())
            }
        } else if c == '"' || c == '\'' {
            let (contents, end) = quoted(chars, pos + 1, c);
            match contents {
                None => Err(
                    if c == '"' {
                        ExpressionError::UnfinishedStringEscape
                    } else {
                        ExpressionError::UnfinishedCharEscape
                    },
                ),
                Some(text) => if pos < end <= chars.len() {
                    prepend(
                        seq![
                            if c == '"' {
                                TokenView::Text(text)
                            } else {
                                TokenView::Character(text)
                            },
                        ],
                        tokens_from(chars, end),
                    )
                } else {
                    Ok(Seq::empty())
                },
            }
        } else if c == '(' {
            prepend(seq![TokenView::LeftBracket], tokens_from(chars, pos + 1))
        } else if c == ')' {
            prepend(seq![TokenView::RightBracket], tokens_from(chars, pos + 1))
        } else if c == '[' {
            prepend(seq![TokenView::LeftSquareBracket], tokens_from(chars, pos + 1))
        } else if c == ']' {
            prepend(seq![TokenView::RightSquareBracket], tokens_from(chars, pos + 1))
        } else if c == ',' {
            prepend(seq![TokenView::Comma], tokens_from(chars, pos + 1))
        } else if c == '.' {
            prepend(seq![TokenView::Dot], tokens_from(chars, pos + 1))
        } else if c == ':' {
            prepend(seq![TokenView::Colon], tokens_from(chars, pos + 1))
        } else if pos + 1 < chars.len() && double_operator(c, chars[pos + 1]) {
            prepend(seq![TokenView::Operator(seq![c, chars[pos + 1]])], tokens_from(chars, pos + 2))
        } else {
            prepend(seq![TokenView::Operator(seq![c])], tokens_from(chars, pos + 1))
        }
    }
}

/// The views of a sequence of tokens.
pub open spec fn views(tokens: Seq<Token>) -> Seq<TokenView> {
    tokens.map_values(|t: Token| t@)
}

/// A run of identifier characters ends inside the text.
pub proof fn lemma_identifier_end(chars: Seq<char>, pos: int)
    requires
        0 <= pos <= chars.len(),
    ensures
        pos <= identifier_end(chars, pos) <= chars.len(),
    decreases chars.len() - pos,
{
    if pos < chars.len() && identifier_char(chars[pos]) {
        lemma_identifier_end(chars, pos + 1);
    }
}

/// A run of digits ends inside the text.
pub proof fn lemma_digits_end(chars: Seq<char>, pos: int)
    requires
        0 <= pos <= chars.len(),
    ensures
        pos <= digits_end(chars, pos) <= chars.len(),
        forall|k: int| pos <= k < digits_end(chars, pos) ==> crate::io::is_digit(#[trigger] chars[k]),
    decreases chars.len() - pos,
{
    if pos < chars.len() && crate::io::is_digit(chars[pos]) {
        lemma_digits_end(chars, pos + 1);
    }
}

/// A quoted literal ends inside the text.
pub proof fn lemma_quoted_end(chars: Seq<char>, pos: int, quote: char)
    requires
        0 <= pos <= chars.len(),
    ensures
        pos <= quoted(chars, pos, quote).1 <= chars.len(),
    decreases chars.len() - pos,
{
    if pos < chars.len() {
        if chars[pos] == '\\' {
            if pos + 1 < chars.len() {
                lemma_quoted_end(chars, pos + 2, quote);
            }
        } else if chars[pos] != quote {
            lemma_quoted_end(chars, pos + 1, quote);
        }
    }
}

/// `acc` in front of the contents of a literal, or no contents where the literal fails.
pub open spec fn after(acc: Seq<char>, rest: (Option<Seq<char>>, int)) -> (Option<Seq<char>>, int) {
    match rest.0 {
        Some(text) => (Some(acc + text), rest.1),
        None => (None, rest.1),
    }
}

fn scan_identifier(chars: &[char], pos: usize) -> (end: usize)
    requires
        pos <= chars@.len(),
    ensures
        end == identifier_end(chars@, pos as int),
{
    let mut end = pos;
    while end < chars.len() && (char_is_alphabetic(chars[end]) || char_is_numeric(chars[end])
        || chars[end] == '_')
        invariant
            pos <= end <= chars@.len(),
            identifier_end(chars@, pos as int) == identifier_end(chars@, end as int),
        decreases chars@.len() - end,
    {
        end = end + 1;
    }
    end
}

fn scan_digits(chars: &[char], pos: usize) -> (end: usize)
    requires
        pos <= chars@.len(),
    ensures
        end == digits_end(chars@, pos as int),
{
    let mut end = pos;
    while end < chars.len() && chars[end] >= '0' && chars[end] <= '9'
        invariant
            pos <= end <= chars@.len(),
            digits_end(chars@, pos as int) == digits_end(chars@, end as int),
        decreases chars@.len() - end,
    {
        end = end + 1;
    }
    end
}

/// Reads a quoted literal from `pos` on.
fn scan_quoted(chars: &[char], pos: usize, quote: char) -> (scanned: (Option<Vec<char>>, usize))
    requires
        pos <= chars@.len(),
    ensures
        (match scanned.0 {
            Some(text) => Some(text@),
            None => None,
        }, scanned.1 as int) == quoted(chars@, pos as int, quote),
{
    let mut text: Vec<char> = Vec::new();
    let mut i = pos;
    while i < chars.len()
        invariant
            pos <= i <= chars@.len(),
            quoted(chars@, pos as int, quote) == after(text@, quoted(chars@, i as int, quote)),
        decreases chars@.len() - i,
    {
        let c = chars[i];
        if c == '\\' {
            if i + 1 < chars.len() {
                let ghost before = text@;
                text.push('\\');
                text.push(chars[i + 1]);
                proof {
                    let rest = quoted(chars@, i + 2, quote);
                    if rest.0 is Some {
                        assert(before + (seq!['\\', chars@[i + 1]] + rest.0->0) =~= text@
                            + rest.0->0);
                    }
                }
                i = i + 2;
            } else {
                return (None, i + 1);
            }
        } else if c == quote {
            proof {
                assert(text@ + Seq::<char>::empty() =~= text@);
            }
            return (Some(text), i + 1);
        } else {
            let ghost before = text@;
            text.push(c);
            proof {
                let rest = quoted(chars@, i + 1, quote);
                if rest.0 is Some {
                    assert(before + (seq![c] + rest.0->0) =~= text@ + rest.0->0);
                }
            }
            i = i + 1;
        }
    }
    proof {
        assert(text@ + Seq::<char>::empty() =~= text@);
    }
    (Some(text), i)
}

fn is_double(first: char, second: char) -> (double: bool)
    ensures
        double == double_operator(first, second),
{
    (first == '+' && second == '+') || (first == '-' && second == '-') || (first == '&' && second
        == '&') || (first == '|' && second == '|') || (first == '+' && second == '=') || (first
        == '-' && second == '=') || (first == '*' && second == '=') || (first == '/' && second
        == '=') || (first == '=' && second == '=') || (first == '!' && second == '=') || (first
        == '<' && second == '=') || (first == '>' && second == '=') || (first == '<' && second
        == '<') || (first == '>' && second == '>') || (first == '&' && second == '=') || (first
        == '|' && second == '=') || (first == '^' && second == '=')
}

/// Putting two runs of tokens in front one after the other is putting both in front at once.
pub proof fn lemma_prepend_twice(
    first: Seq<TokenView>,
    second: Seq<TokenView>,
    rest: Result<Seq<TokenView>, ExpressionError>,
)
    ensures
        prepend(first, prepend(second, rest)) == prepend(first + second, rest),
{
    match rest {
        Ok(tokens) => {
            assert(first + (second + tokens) =~= (first + second) + tokens);
        },
        Err(_) => {},
    }
}

/// Splits an expression's text into tokens.
pub fn tokenize(chars: &[char]) -> (tokens: Result<Vec<Token>, ExpressionError>)
    ensures
        match (tokens, tokens_from(chars@, 0)) {
            (Ok(found), Ok(expected)) => views(found@) == expected,
            (Err(found), Err(expected)) => found == expected,
            _ => false,
        },
        tokens matches Ok(found) ==> found@.len() <= chars@.len(),
{
    let mut tokens: Vec<Token> = Vec::new();
    let mut pos: usize = 0;
    while pos < chars.len()
        invariant
            pos <= chars@.len(),
            tokens@.len() <= pos,
            tokens_from(chars@, 0) == prepend(views(tokens@), tokens_from(chars@, pos as int)),
        decreases chars@.len() - pos,
    {
        let ghost before = views(tokens@);
        let c = chars[pos];
        if crate::io::is_white_space(c) {
            pos = pos + 1;
        } else if char_is_alphabetic(c) || c == '_' {
            let end = scan_identifier(chars, pos + 1);
            proof {
                lemma_identifier_end(chars@, pos + 1);
            }
            let word = &chars[pos..end];
            let true_word = ['t', 'r', 'u', 'e'];
            let false_word = ['f', 'a', 'l', 's', 'e'];
            proof {
                assert(true_word@ =~= seq!['t', 'r', 'u', 'e']);
                assert(false_word@ =~= seq!['f', 'a', 'l', 's', 'e']);
            }
            let token = if crate::io::same_text(chars, pos, end, &true_word) {
                Token::Bool(true)
            } else if crate::io::same_text(chars, pos, end, &false_word) {
                Token::Bool(false)
            } else {
                Token::Id(text_of(word))
            };
            tokens.push(token);
            proof {
                assert(word@ =~= chars@.subrange(pos as int, end as int));
                assert(views(tokens@) =~= before + seq![token@]);
                assert(tokens_from(chars@, pos as int) == prepend(
                    seq![token@],
                    tokens_from(chars@, end as int),
                ));
                lemma_prepend_twice(before, seq![token@], tokens_from(chars@, end as int));
            }
            pos = end;
        } else if c >= '0' && c <= '9' {
            let end = scan_digits(chars, pos + 1);
            proof {
                lemma_digits_end(chars@, pos + 1);
                let digits = chars@.subrange(pos as int, end as int);
                assert forall|k: int| 0 <= k < digits.len() implies crate::io::is_digit(
                    #[trigger] digits[k],
                ) by {
                    assert(digits[k] == chars@[pos + k]);
                }
            }
            let value = match crate::io::digits_value(chars, pos, end, u64::MAX) {
                Some(value) => value,
                None => {
                    return Err(ExpressionError::NumberTooLarge);
                },
            };
            tokens.push(Token::Number(value));
            proof {
                assert(views(tokens@) =~= before + seq![TokenView::Number(value)]);
                assert(tokens_from(chars@, pos as int) == prepend(
                    seq![TokenView::Number(value)],
                    tokens_from(chars@, end as int),
                ));
                lemma_prepend_twice(
                    before,
                    seq![TokenView::Number(value)],
                    tokens_from(chars@, end as int),
                );
            }
            pos = end;
        } else if c == '"' || c == '\'' {
            let (contents, end) = scan_quoted(chars, pos + 1, c);
            proof {
                lemma_quoted_end(chars@, pos + 1, c);
            }
            let text = match contents {
                Some(text) => text,
                None => {
                    return Err(
                        if c == '"' {
                            ExpressionError::UnfinishedStringEscape
                        } else {
                            ExpressionError::UnfinishedCharEscape
                        },
                    );
                },
            };
            let token = if c == '"' {
                Token::String(text_of(text.as_slice()))
            } else {
                Token::Char(text_of(text.as_slice()))
            };
            tokens.push(token);
            proof {
                assert(views(tokens@) =~= before + seq![token@]);
                assert(tokens_from(chars@, pos as int) == prepend(
                    seq![token@],
                    tokens_from(chars@, end as int),
                ));
                lemma_prepend_twice(before, seq![token@], tokens_from(chars@, end as int));
            }
            pos = end;
        } else {
            let (token, length) = if c == '(' {
                (Token::LeftBracket, 1)
            } else if c == ')' {
                (Token::RightBracket, 1)
            } else if c == '[' {
                (Token::LeftSquareBracket, 1)
            } else if c == ']' {
                (Token::RightSquareBracket, 1)
            } else if c == ',' {
                (Token::Comma, 1)
            } else if c == '.' {
                (Token::Dot, 1)
            } else if c == ':' {
                (Token::Colon, 1)
            } else if pos + 1 < chars.len() && is_double(c, chars[pos + 1]) {
                let pair = [c, chars[pos + 1]];
                proof {
                    assert(pair@ =~= seq![c, chars@[pos + 1]]);
                }
                (Token::Operator(text_of(&pair)), 2)
            } else {
                let single = [c];
                proof {
                    assert(single@ =~= seq![c]);
                }
                (Token::Operator(text_of(&single)), 1)
            };
            tokens.push(token);
            proof {
                assert(views(tokens@) =~= before + seq![token@]);
                assert(tokens_from(chars@, pos as int) == prepend(
                    seq![token@],
                    tokens_from(chars@, pos + length),
                ));
                lemma_prepend_twice(before, seq![token@], tokens_from(chars@, pos + length));
            }
            pos = pos + length;
        }
    }
    proof {
        assert(views(tokens@) + Seq::<TokenView>::empty() =~= views(tokens@));
    }
    Ok(tokens)
}

/// An expression of the source language; `typ` is filled in by the type checker.
pub enum Expression<T> {
    Literal { typ: T, value: String },
    Variable { typ: T, name: String },
    BinaryOperator {
        typ: T,
        left: Box<Expression<T>>,
        operator: ExpressionBinaryOperator,
        right: Box<Expression<T>>,
    },
    FunctionCall { typ: T, name: String, arguments: Vec<Expression<T>> },
    MethodCall { typ: T, object: Box<Expression<T>>, name: String, arguments: Vec<Expression<T>> },
    Assign { typ: T, name: String, value: Box<Expression<T>> },
    AssignField { typ: T, object: Box<Expression<T>>, name: String, value: Box<Expression<T>> },
    AssignIndex {
        typ: T,
        expression: Box<Expression<T>>,
        index: Box<Expression<T>>,
        value: Box<Expression<T>>,
    },
    Increment { typ: T, expression: Box<Expression<T>>, postfix: bool },
    Decrement { typ: T, expression: Box<Expression<T>>, postfix: bool },
    Negate { typ: T, expression: Box<Expression<T>> },
    Not { typ: T, expression: Box<Expression<T>> },
    BitwiseNot { typ: T, expression: Box<Expression<T>> },
    New { typ: T, class_name: String },
    NewArray { typ: T, element_type: Type, size: u64 },
    Field { typ: T, object: Box<Expression<T>>, name: String },
    Index { typ: T, expression: Box<Expression<T>>, index: Box<Expression<T>> },
    AssignSlice {
        typ: T,
        expression: Box<Expression<T>>,
        start: Box<Expression<T>>,
        size: u64,
        value: Box<Expression<T>>,
    },
    Slice { typ: T, expression: Box<Expression<T>>, start: Box<Expression<T>>, size: u64 },
    This { typ: T },
}

impl<T> Expression<T> {
    /// The type annotation of an expression.
    pub open spec fn annotation(&self) -> T {
        match self {
            Expression::Literal { typ, .. } => *typ,
            Expression::Variable { typ, .. } => *typ,
            Expression::BinaryOperator { typ, .. } => *typ,
            Expression::FunctionCall { typ, .. } => *typ,
            Expression::MethodCall { typ, .. } => *typ,
            Expression::Assign { typ, .. } => *typ,
            Expression::AssignField { typ, .. } => *typ,
            Expression::AssignIndex { typ, .. } => *typ,
            Expression::Increment { typ, .. } => *typ,
            Expression::Decrement { typ, .. } => *typ,
            Expression::Negate { typ, .. } => *typ,
            Expression::Not { typ, .. } => *typ,
            Expression::BitwiseNot { typ, .. } => *typ,
            Expression::New { typ, .. } => *typ,
            Expression::NewArray { typ, .. } => *typ,
            Expression::Field { typ, .. } => *typ,
            Expression::Index { typ, .. } => *typ,
            Expression::AssignSlice { typ, .. } => *typ,
            Expression::Slice { typ, .. } => *typ,
            Expression::This { typ } => *typ,
        }
    }
}

impl<T: Clone> Expression<T> {
    /// A copy of the type annotation.
    pub fn get_type(&self) -> (typ: T)
        ensures
            cloned::<T>(self.annotation(), typ),
    {
        match self {
            Expression::Literal { typ, .. } => typ.clone(),
            Expression::Variable { typ, .. } => typ.clone(),
            Expression::BinaryOperator { typ, .. } => typ.clone(),
            Expression::FunctionCall { typ, .. } => typ.clone(),
            Expression::MethodCall { typ, .. } => typ.clone(),
            Expression::Assign { typ, .. } => typ.clone(),
            Expression::AssignField { typ, .. } => typ.clone(),
            Expression::AssignIndex { typ, .. } => typ.clone(),
            Expression::Increment { typ, .. } => typ.clone(),
            Expression::Decrement { typ, .. } => typ.clone(),
            Expression::Negate { typ, .. } => typ.clone(),
            Expression::Not { typ, .. } => typ.clone(),
            Expression::BitwiseNot { typ, .. } => typ.clone(),
            Expression::New { typ, .. } => typ.clone(),
            Expression::NewArray { typ, .. } => typ.clone(),
            Expression::Field { typ, .. } => typ.clone(),
            Expression::Index { typ, .. } => typ.clone(),
            Expression::AssignSlice { typ, .. } => typ.clone(),
            Expression::Slice { typ, .. } => typ.clone(),
            Expression::This { typ } => typ.clone(),
        }
    }
}

/// A type with its names as sequences of characters.
pub enum TypeView {
    Void,
    Int,
    Bool,
    Char,
    Array(Box<TypeView>, u64),
    Class(Seq<char>),
}

/// The view of a type.
pub open spec fn type_view(typ: Type) -> TypeView
    decreases typ,
{
    match typ {
        Type::Void => TypeView::Void,
        Type::Int => TypeView::Int,
        Type::Bool => TypeView::Bool,
        Type::Char => TypeView::Char,
        Type::Array(element, size) => TypeView::Array(Box::new(type_view(*element)), size),
        Type::Class(name) => TypeView::Class(name@),
    }
}

/// The type named in `new`: a built-in type, or else a class.
pub open spec fn named_type(name: Seq<char>) -> TypeView {
    if name == seq!['v', 'o', 'i', 'd'] {
        TypeView::Void
    } else if name == seq!['i', 'n', 't'] {
        TypeView::Int
    } else if name == seq!['c', 'h', 'a', 'r'] {
        TypeView::Char
    } else if name == seq!['b', 'o', 'o', 'l'] {
        TypeView::Bool
    } else {
        TypeView::Class(name)
    }
}

/// An expression without type annotations, its names as sequences of characters.
pub enum ExpressionView {
    Literal(Seq<char>),
    Variable(Seq<char>),
    Binary(Box<ExpressionView>, ExpressionBinaryOperator, Box<ExpressionView>),
    FunctionCall(Seq<char>, Seq<ExpressionView>),
    MethodCall(Box<ExpressionView>, Seq<char>, Seq<ExpressionView>),
    Assign(Seq<char>, Box<ExpressionView>),
    AssignField(Box<ExpressionView>, Seq<char>, Box<ExpressionView>),
    AssignIndex(Box<ExpressionView>, Box<ExpressionView>, Box<ExpressionView>),
    Increment(Box<ExpressionView>, bool),
    Decrement(Box<ExpressionView>, bool),
    Negate(Box<ExpressionView>),
    Not(Box<ExpressionView>),
    BitwiseNot(Box<ExpressionView>),
    New(Seq<char>),
    NewArray(TypeView, u64),
    Field(Box<ExpressionView>, Seq<char>),
    Index(Box<ExpressionView>, Box<ExpressionView>),
    AssignSlice(Box<ExpressionView>, Box<ExpressionView>, u64, Box<ExpressionView>),
    Slice(Box<ExpressionView>, Box<ExpressionView>, u64),
    This,
}

/// The shape of an expression: the expression without its type annotations.
pub open spec fn shape<T>(expression: Expression<T>) -> ExpressionView
    decreases expression,
{
    match expression {
        Expression::Literal { value, .. } => ExpressionView::Literal(value@),
        Expression::Variable { name, .. } => ExpressionView::Variable(name@),
        Expression::BinaryOperator { left, operator, right, .. } => ExpressionView::Binary(
            Box::new(shape(*left)),
            operator,
            Box::new(shape(*right)),
        ),
        Expression::FunctionCall { name, arguments, .. } => ExpressionView::FunctionCall(
            name@,
            shapes(arguments@),
        ),
        Expression::MethodCall { object, name, arguments, .. } => ExpressionView::MethodCall(
            Box::new(shape(*object)),
            name@,
            shapes(arguments@),
        ),
        Expression::Assign { name, value, .. } => ExpressionView::Assign(
            name@,
            Box::new(shape(*value)),
        ),
        Expression::AssignField { object, name, value, .. } => ExpressionView::AssignField(
            Box::new(shape(*object)),
            name@,
            Box::new(shape(*value)),
        ),
        Expression::AssignIndex { expression, index, value, .. } => ExpressionView::AssignIndex(
            Box::new(shape(*expression)),
            Box::new(shape(*index)),
            Box::new(shape(*value)),
        ),
        Expression::Increment { expression, postfix, .. } => ExpressionView::Increment(
            Box::new(shape(*expression)),
            postfix,
        ),
        Expression::Decrement { expression, postfix, .. } => ExpressionView::Decrement(
            Box::new(shape(*expression)),
            postfix,
        ),
        Expression::Negate { expression, .. } => ExpressionView::Negate(
            Box::new(shape(*expression)),
        ),
        Expression::Not { expression, .. } => ExpressionView::Not(Box::new(shape(*expression))),
        Expression::BitwiseNot { expression, .. } => ExpressionView::BitwiseNot(
            Box::new(shape(*expression)),
        ),
        Expression::New { class_name, .. } => ExpressionView::New(class_name@),
        Expression::NewArray { element_type, size, .. } => ExpressionView::NewArray(
            type_view(element_type),
            size,
        ),
        Expression::Field { object, name, .. } => ExpressionView::Field(
            Box::new(shape(*object)),
            name@,
        ),
        Expression::Index { expression, index, .. } => ExpressionView::Index(
            Box::new(shape(*expression)),
            Box::new(shape(*index)),
        ),
        Expression::AssignSlice { expression, start, size, value, .. } => ExpressionView::AssignSlice(
            Box::new(shape(*expression)),
            Box::new(shape(*start)),
            size,
            Box::new(shape(*value)),
        ),
        Expression::Slice { expression, start, size, .. } => ExpressionView::Slice(
            Box::new(shape(*expression)),
            Box::new(shape(*start)),
            size,
        ),
        Expression::This { .. } => ExpressionView::This,
    }
}

/// The shapes of a sequence of expressions.
pub open spec fn shapes<T>(expressions: Seq<Expression<T>>) -> Seq<ExpressionView>
    decreases expressions,
{
    if expressions.len() == 0 {
        Seq::empty()
    } else {
        shapes(expressions.drop_last()).push(shape(expressions.last()))
    }
}

/// The binary operator that an operator token stands for, if any.
pub open spec fn operator_named(text: Seq<char>) -> Option<ExpressionBinaryOperator> {
    if text == seq!['='] {
        Some(ExpressionBinaryOperator::Assign)
    } else if text == seq!['+', '='] {
        Some(ExpressionBinaryOperator::AssignAdd)
    } else if text == seq!['-', '='] {
        Some(ExpressionBinaryOperator::AssignSub)
    } else if text == seq!['*', '='] {
        Some(ExpressionBinaryOperator::AssignMul)
    } else if text == seq!['/', '='] {
        Some(ExpressionBinaryOperator::AssignDiv)
    } else if text == seq!['|', '|'] {
        Some(ExpressionBinaryOperator::Or)
    } else if text == seq!['&', '&'] {
        Some(ExpressionBinaryOperator::And)
    } else if text == seq!['=', '='] {
        Some(ExpressionBinaryOperator::Equal)
    } else if text == seq!['!', '='] {
        Some(ExpressionBinaryOperator::NotEqual)
    } else if text == seq!['<'] {
        Some(ExpressionBinaryOperator::Less)
    } else if text == seq!['<', '='] {
        Some(ExpressionBinaryOperator::LessEqual)
    } else if text == seq!['>'] {
        Some(ExpressionBinaryOperator::Greater)
    } else if text == seq!['>', '='] {
        Some(ExpressionBinaryOperator::GreaterEqual)
    } else if text == seq!['+'] {
        Some(ExpressionBinaryOperator::Add)
    } else if text == seq!['-'] {
        Some(ExpressionBinaryOperator::Sub)
    } else if text == seq!['*'] {
        Some(ExpressionBinaryOperator::Multiply)
    } else if text == seq!['/'] {
        Some(ExpressionBinaryOperator::Divide)
    } else if text == seq!['%'] {
        Some(ExpressionBinaryOperator::Remainder)
    } else if text == seq!['<', '<'] {
        Some(ExpressionBinaryOperator::LeftShift)
    } else if text == seq!['>', '>'] {
        Some(ExpressionBinaryOperator::RightShift)
    } else if text == seq!['&'] {
        Some(ExpressionBinaryOperator::BitwiseAnd)
    } else if text == seq!['|'] {
        Some(ExpressionBinaryOperator::BitwiseOr)
    } else if text == seq!['^'] {
        Some(ExpressionBinaryOperator::BitwiseXor)
    } else if text == seq!['&', '='] {
        Some(ExpressionBinaryOperator::AssignAnd)
    } else if text == seq!['|', '='] {
        Some(ExpressionBinaryOperator::AssignOr)
    } else if text == seq!['^', '='] {
        Some(ExpressionBinaryOperator::AssignXor)
    } else {
        None
    }
}

/// The decimal digits of a number, most significant first, with no leading zero.
pub open spec fn decimal_text(value: u64) -> Seq<char>
    decreases value,
{
    let digit = ((value % 10) + 48) as char;
    if value < 10 {
        seq![digit]
    } else {
        decimal_text(value / 10).push(digit)
    }
}

/// `u64::to_string`: the number written in decimal digits, as its `Display` writes it.
#[verifier::external_body]
pub(crate) fn number_text(value: u64) -> (text: String)
    ensures
        text@ == decimal_text(value),
{
    value.to_string()
}

/// Why an expression cannot be parsed.
#[derive(Clone, Copy, Debug, PartialEq, Eq, Structural)]
pub enum ParseError {
    /// The text cannot be split into tokens.
    Token(ExpressionError),
    /// The text holds no token.
    Empty,
    /// The text ends where an operand is expected.
    UnexpectedEnd,
    /// Something other than a variable, field, element or slice is assigned to.
    InvalidAssignmentTarget,
    /// `new` is not followed by a type name.
    ExpectedTypeName,
    /// The size of `new T[n` is not followed by `]`.
    ExpectedArraySizeEnd,
    /// The size in `new T[...]` is not a number.
    ArraySizeNotConstant,
    /// `new C(` is not followed right away by `)`.
    ConstructorArguments,
    /// The type name of `new` is followed by neither `(` nor `[`.
    ExpectedNewBracket,
    /// A parenthesised expression is not closed.
    ExpectedRightBracket,
    /// An operator that cannot stand in front of an operand does.
    InvalidPrefixOperator,
    /// A token that cannot start an operand does.
    UnexpectedPrefixToken,
    /// `.` is not followed by a name.
    ExpectedIdentifierAfterDot,
    /// Something other than a name is called.
    InvalidCallTarget,
    /// The size of a slice is not followed by `]`.
    ExpectedSliceEnd,
    /// The size of a slice is not a number.
    SliceSizeNotConstant,
    /// An index is not followed by `]`.
    ExpectedIndexEnd,
    /// A token that cannot follow an operand does.
    InvalidPostfixToken,
    /// An argument is followed by neither `,` nor `)`.
    ExpectedArgumentSeparator,
    /// Tokens are left after a complete expression.
    TrailingTokens,
    /// The text ends where a size must follow `[` in `new T[n]` or `:` in a slice.
    MissingSize,
}

/// The outcome of parsing from a position: an expression and the position after it.
pub type Parsed = Result<(ExpressionView, int), ParseError>;

/// Whether a token stands after an operand: a call, an index, a field or `++`/`--`.
pub open spec fn is_postfix(token: TokenView) -> bool {
    match token {
        TokenView::LeftBracket | TokenView::LeftSquareBracket | TokenView::Dot => true,
        TokenView::Operator(text) => text == seq!['+', '+'] || text == seq!['-', '-'],
        _ => false,
    }
}

/// The binary operator that a token stands for, if any.
pub open spec fn binary_token(token: TokenView) -> Option<ExpressionBinaryOperator> {
    match token {
        TokenView::Operator(text) => operator_named(text),
        _ => None,
    }
}

/// `left operator right`; an assignment only to a variable, a field, an element or a slice.
pub open spec fn combined(
    left: ExpressionView,
    operator: ExpressionBinaryOperator,
    right: ExpressionView,
) -> Result<ExpressionView, ParseError> {
    if operator == ExpressionBinaryOperator::Assign {
        match left {
            ExpressionView::Variable(name) => Ok(ExpressionView::Assign(name, Box::new(right))),
            ExpressionView::Field(object, name) => Ok(
                ExpressionView::AssignField(object, name, Box::new(right)),
            ),
            ExpressionView::Index(expression, index) => Ok(
                ExpressionView::AssignIndex(expression, index, Box::new(right)),
            ),
            ExpressionView::Slice(expression, start, size) => Ok(
                ExpressionView::AssignSlice(expression, start, size, Box::new(right)),
            ),
            _ => Err(ParseError::InvalidAssignmentTarget),
        }
    } else {
        Ok(ExpressionView::Binary(Box::new(left), operator, Box::new(right)))
    }
}

/// The expression that starts at `pos` and binds at least as tightly as `min`: an operand,
/// then postfix and binary operators for as long as they bind tightly enough.
pub open spec fn parse_from(tokens: Seq<TokenView>, pos: int, min: u8) -> Parsed
    decreases tokens.len() - pos, 0int,
{
    if pos < 0 || pos >= tokens.len() {
        Err(ParseError::UnexpectedEnd)
    } else {
        match prefix_from(tokens, pos + 1, tokens[pos]) {
            Err(e) => Err(e),
            Ok((left, next)) => if pos < next <= tokens.len() {
                continue_from(tokens, next, min, left)
            } else {
                Err(ParseError::UnexpectedEnd)
            },
        }
    }
}

/// The expression `left` extended by the postfix and binary operators from `pos` on that
/// bind at least as tightly as `min`.
pub open spec fn continue_from(tokens: Seq<TokenView>, pos: int, min: u8, left: ExpressionView) -> Parsed
    decreases tokens.len() - pos, 0int,
{
    if pos < 0 || pos >= tokens.len() {
        Ok((left, pos))
    } else if is_postfix(tokens[pos]) {
        if 25 < min {
            Ok((left, pos))
        } else {
            match postfix_from(tokens, pos + 1, left, tokens[pos]) {
                Err(e) => Err(e),
                Ok((extended, next)) => if pos < next <= tokens.len() {
                    continue_from(tokens, next, min, extended)
                } else {
                    Err(ParseError::UnexpectedEnd)
                },
            }
        }
    } else {
        match binary_token(tokens[pos]) {
            Some(operator) => if binding(operator).0 < min {
                Ok((left, pos))
            } else {
                match parse_from(tokens, pos + 1, binding(operator).1) {
                    Err(e) => Err(e),
                    Ok((right, next)) => match combined(left, operator, right) {
                        Err(e) => Err(e),
                        Ok(whole) => if pos < next <= tokens.len() {
                            continue_from(tokens, next, min, whole)
                        } else {
                            Err(ParseError::UnexpectedEnd)
                        },
                    },
                }
            },
            None => Ok((left, pos)),
        }
    }
}

/// The operand `operator e` whose `e` starts at `pos` and binds as tightly as 23.
pub open spec fn unary_from(tokens: Seq<TokenView>, pos: int, operator: Seq<char>) -> Parsed
    decreases tokens.len() - pos, 1int,
{
    match parse_from(tokens, pos, 23) {
        Err(e) => Err(e),
        Ok((operand, next)) => {
            let boxed = Box::new(operand);
            if operator == seq!['~'] {
                Ok((ExpressionView::BitwiseNot(boxed), next))
            } else if operator == seq!['-'] {
                Ok((ExpressionView::Negate(boxed), next))
            } else if operator == seq!['!'] {
                Ok((ExpressionView::Not(boxed), next))
            } else if operator == seq!['+', '+'] {
                Ok((ExpressionView::Increment(boxed, false), next))
            } else {
                Ok((ExpressionView::Decrement(boxed, false), next))
            }
        },
    }
}

/// `new T[n]` or `new C()`, from the type name at `pos` on.
pub open spec fn new_from(tokens: Seq<TokenView>, pos: int) -> Parsed {
    if 0 <= pos < tokens.len() && tokens[pos] is Id {
        let name = tokens[pos]->Id_0;
        let q = pos + 1;
        if q < tokens.len() && tokens[q] is LeftSquareBracket {
            if q + 1 >= tokens.len() {
                Err(ParseError::MissingSize)
            } else {
                match tokens[q + 1] {
                    TokenView::Number(size) => if q + 2 < tokens.len() && tokens[q + 2] is RightSquareBracket {
                        Ok((ExpressionView::NewArray(named_type(name), size), q + 3))
                    } else {
                        Err(ParseError::ExpectedArraySizeEnd)
                    },
                    _ => Err(ParseError::ArraySizeNotConstant),
                }
            }
        } else if q < tokens.len() && tokens[q] is LeftBracket {
            if q + 1 < tokens.len() && tokens[q + 1] is RightBracket {
                Ok((ExpressionView::New(name), q + 2))
            } else {
                Err(ParseError::ConstructorArguments)
            }
        } else {
            Err(ParseError::ExpectedNewBracket)
        }
    } else {
        Err(ParseError::ExpectedTypeName)
    }
}

/// The operand that `token` starts, its remaining tokens from `pos` on.
pub open spec fn prefix_from(tokens: Seq<TokenView>, pos: int, token: TokenView) -> Parsed
    decreases tokens.len() - pos, 2int,
{
    match token {
        TokenView::Number(n) => Ok((ExpressionView::Literal(decimal_text(n)), pos)),
        TokenView::Text(text) => Ok((ExpressionView::Literal(seq!['"'] + text + seq!['"']), pos)),
        TokenView::Character(text) => Ok(
            (ExpressionView::Literal(seq!['\''] + text + seq!['\'']), pos),
        ),
        TokenView::Bool(b) => Ok(
            (
                ExpressionView::Literal(
                    if b {
                        seq!['t', 'r', 'u', 'e']
                    } else {
                        seq!['f', 'a', 'l', 's', 'e']
                    },
                ),
                pos,
            ),
        ),
        TokenView::Id(name) => if name == seq!['t', 'h', 'i', 's'] {
            Ok((ExpressionView::This, pos))
        } else if name == seq!['n', 'e', 'w'] {
            new_from(tokens, pos)
        } else {
            Ok((ExpressionView::Variable(name), pos))
        },
        TokenView::LeftBracket => match parse_from(tokens, pos, 0) {
            Err(e) => Err(e),
            Ok((inner, next)) => if 0 <= next < tokens.len() && tokens[next] is RightBracket {
                Ok((inner, next + 1))
            } else {
                Err(ParseError::ExpectedRightBracket)
            },
        },
        TokenView::Operator(operator) => if operator == seq!['-'] && 0 <= pos < tokens.len()
            && tokens[pos] is Number {
            Ok((ExpressionView::Literal(seq!['-'] + decimal_text(tokens[pos]->Number_0)), pos + 1))
        } else if operator == seq!['~'] || operator == seq!['-'] || operator == seq!['!']
            || operator == seq!['+', '+'] || operator == seq!['-', '-'] {
            unary_from(tokens, pos, operator)
        } else {
            Err(ParseError::InvalidPrefixOperator)
        },
        _ => Err(ParseError::UnexpectedPrefixToken),
    }
}

/// The arguments of a call from `pos` on, after `(`: none before `)`, or expressions
/// separated by `,` up to `)`.
pub open spec fn arguments_from(tokens: Seq<TokenView>, pos: int) -> Result<
    (Seq<ExpressionView>, int),
    ParseError,
>
    decreases tokens.len() - pos, 3int,
{
    if 0 <= pos < tokens.len() && tokens[pos] is RightBracket {
        Ok((Seq::empty(), pos + 1))
    } else {
        more_arguments_from(tokens, pos, Seq::empty())
    }
}

/// The arguments `before` followed by those from `pos` on, up to `)`.
pub open spec fn more_arguments_from(
    tokens: Seq<TokenView>,
    pos: int,
    before: Seq<ExpressionView>,
) -> Result<(Seq<ExpressionView>, int), ParseError>
    decreases tokens.len() - pos, 1int,
{
    match parse_from(tokens, pos, 0) {
        Err(e) => Err(e),
        Ok((argument, next)) => {
            let all = before.push(argument);
            if 0 <= next < tokens.len() && tokens[next] is Comma {
                if pos <= next {
                    more_arguments_from(tokens, next + 1, all)
                } else {
                    Err(ParseError::UnexpectedEnd)
                }
            } else if 0 <= next < tokens.len() && tokens[next] is RightBracket {
                Ok((all, next + 1))
            } else {
                Err(ParseError::ExpectedArgumentSeparator)
            }
        },
    }
}

/// `left` extended by the postfix token `token`, its remaining tokens from `pos` on.
pub open spec fn postfix_from(tokens: Seq<TokenView>, pos: int, left: ExpressionView, token: TokenView) -> Parsed
    decreases tokens.len() - pos, 4int,
{
    match token {
        TokenView::Operator(operator) => if operator == seq!['+', '+'] {
            Ok((ExpressionView::Increment(Box::new(left), true), pos))
        } else if operator == seq!['-', '-'] {
            Ok((ExpressionView::Decrement(Box::new(left), true), pos))
        } else {
            Err(ParseError::InvalidPostfixToken)
        },
        TokenView::Dot => if 0 <= pos < tokens.len() && tokens[pos] is Id {
            let name = tokens[pos]->Id_0;
            if pos + 1 < tokens.len() && tokens[pos + 1] is LeftBracket {
                match arguments_from(tokens, pos + 2) {
                    Err(e) => Err(e),
                    Ok((arguments, next)) => Ok(
                        (ExpressionView::MethodCall(Box::new(left), name, arguments), next),
                    ),
                }
            } else {
                Ok((ExpressionView::Field(Box::new(left), name), pos + 1))
            }
        } else {
            Err(ParseError::ExpectedIdentifierAfterDot)
        },
        TokenView::LeftBracket => match arguments_from(tokens, pos) {
            Err(e) => Err(e),
            Ok((arguments, next)) => match left {
                ExpressionView::Variable(name) => Ok(
                    (ExpressionView::FunctionCall(name, arguments), next),
                ),
                _ => Err(ParseError::InvalidCallTarget),
            },
        },
        TokenView::LeftSquareBracket => match parse_from(tokens, pos, 0) {
            Err(e) => Err(e),
            Ok((index, next)) => if 0 <= next < tokens.len() && tokens[next] is Colon {
                if next + 1 >= tokens.len() {
                    Err(ParseError::MissingSize)
                } else {
                    match tokens[next + 1] {
                        TokenView::Number(size) => if next + 2 < tokens.len() && tokens[next
                            + 2] is RightSquareBracket {
                            Ok(
                                (
                                    ExpressionView::Slice(Box::new(left), Box::new(index), size),
                                    next + 3,
                                ),
                            )
                        } else {
                            Err(ParseError::ExpectedSliceEnd)
                        },
                        _ => Err(ParseError::SliceSizeNotConstant),
                    }
                }
            } else if 0 <= next < tokens.len() && tokens[next] is RightSquareBracket {
                Ok((ExpressionView::Index(Box::new(left), Box::new(index)), next + 1))
            } else {
                Err(ParseError::ExpectedIndexEnd)
            },
        },
        _ => Err(ParseError::InvalidPostfixToken),
    }
}

/// What parsing a whole text gives: the expression that spans all of its tokens.
pub open spec fn parsed_text(chars: Seq<char>) -> Result<ExpressionView, ParseError> {
    match tokens_from(chars, 0) {
        Err(e) => Err(ParseError::Token(e)),
        Ok(tokens) => if tokens.len() == 0 {
            Err(ParseError::Empty)
        } else {
            match parse_from(tokens, 0, 0) {
                Err(e) => Err(e),
                Ok((expression, next)) => if next < tokens.len() {
                    Err(ParseError::TrailingTokens)
                } else {
                    Ok(expression)
                },
            }
        },
    }
}

/// Whether a string is exactly the given characters.
fn text_is(text: &String, expected: &[char]) -> (same: bool)
    ensures
        same == (text@ == expected@),
{
    let chars = crate::io::chars_of(text.as_str());
    let same = crate::io::same_text(chars.as_slice(), 0, chars.len(), expected);
    proof {
        assert(chars@.subrange(0, chars@.len() as int) =~= chars@);
    }
    same
}

/// The binary operator that an operator's text stands for, if any.
pub fn link_binary_operator(operator: &String) -> (linked: Option<ExpressionBinaryOperator>)
    ensures
        linked == operator_named(operator@),
{
    if text_is(operator, &['=']) {
        proof {
            assert(['=']@ =~= seq!['=']);
        }
        return Some(ExpressionBinaryOperator::Assign);
    }
    proof {
        assert(['=']@ =~= seq!['=']);
    }
    if text_is(operator, &['+', '=']) {
        proof {
            assert(['+', '=']@ =~= seq!['+', '=']);
        }
        return Some(ExpressionBinaryOperator::AssignAdd);
    }
    proof {
        assert(['+', '=']@ =~= seq!['+', '=']);
    }
    if text_is(operator, &['-', '=']) {
        proof {
            assert(['-', '=']@ =~= seq!['-', '=']);
        }
        return Some(ExpressionBinaryOperator::AssignSub);
    }
    proof {
        assert(['-', '=']@ =~= seq!['-', '=']);
    }
    if text_is(operator, &['*', '=']) {
        proof {
            assert(['*', '=']@ =~= seq!['*', '=']);
        }
        return Some(ExpressionBinaryOperator::AssignMul);
    }
    proof {
        assert(['*', '=']@ =~= seq!['*', '=']);
    }
    if text_is(operator, &['/', '=']) {
        proof {
            assert(['/', '=']@ =~= seq!['/', '=']);
        }
        return Some(ExpressionBinaryOperator::AssignDiv);
    }
    proof {
        assert(['/', '=']@ =~= seq!['/', '=']);
    }
    if text_is(operator, &['|', '|']) {
        proof {
            assert(['|', '|']@ =~= seq!['|', '|']);
        }
        return Some(ExpressionBinaryOperator::Or);
    }
    proof {
        assert(['|', '|']@ =~= seq!['|', '|']);
    }
    if text_is(operator, &['&', '&']) {
        proof {
            assert(['&', '&']@ =~= seq!['&', '&']);
        }
        return Some(ExpressionBinaryOperator::And);
    }
    proof {
        assert(['&', '&']@ =~= seq!['&', '&']);
    }
    if text_is(operator, &['=', '=']) {
        proof {
            assert(['=', '=']@ =~= seq!['=', '=']);
        }
        return Some(ExpressionBinaryOperator::Equal);
    }
    proof {
        assert(['=', '=']@ =~= seq!['=', '=']);
    }
    if text_is(operator, &['!', '=']) {
        proof {
            assert(['!', '=']@ =~= seq!['!', '=']);
        }
        return Some(ExpressionBinaryOperator::NotEqual);
    }
    proof {
        assert(['!', '=']@ =~= seq!['!', '=']);
    }
    if text_is(operator, &['<']) {
        proof {
            assert(['<']@ =~= seq!['<']);
        }
        return Some(ExpressionBinaryOperator::Less);
    }
    proof {
        assert(['<']@ =~= seq!['<']);
    }
    if text_is(operator, &['<', '=']) {
        proof {
            assert(['<', '=']@ =~= seq!['<', '=']);
        }
        return Some(ExpressionBinaryOperator::LessEqual);
    }
    proof {
        assert(['<', '=']@ =~= seq!['<', '=']);
    }
    if text_is(operator, &['>']) {
        proof {
            assert(['>']@ =~= seq!['>']);
        }
        return Some(ExpressionBinaryOperator::Greater);
    }
    proof {
        assert(['>']@ =~= seq!['>']);
    }
    if text_is(operator, &['>', '=']) {
        proof {
            assert(['>', '=']@ =~= seq!['>', '=']);
        }
        return Some(ExpressionBinaryOperator::GreaterEqual);
    }
    proof {
        assert(['>', '=']@ =~= seq!['>', '=']);
    }
    if text_is(operator, &['+']) {
        proof {
            assert(['+']@ =~= seq!['+']);
        }
        return Some(ExpressionBinaryOperator::Add);
    }
    proof {
        assert(['+']@ =~= seq!['+']);
    }
    if text_is(operator, &['-']) {
        proof {
            assert(['-']@ =~= seq!['-']);
        }
        return Some(ExpressionBinaryOperator::Sub);
    }
    proof {
        assert(['-']@ =~= seq!['-']);
    }
    if text_is(operator, &['*']) {
        proof {
            assert(['*']@ =~= seq!['*']);
        }
        return Some(ExpressionBinaryOperator::Multiply);
    }
    proof {
        assert(['*']@ =~= seq!['*']);
    }
    if text_is(operator, &['/']) {
        proof {
            assert(['/']@ =~= seq!['/']);
        }
        return Some(ExpressionBinaryOperator::Divide);
    }
    proof {
        assert(['/']@ =~= seq!['/']);
    }
    if text_is(operator, &['%']) {
        proof {
            assert(['%']@ =~= seq!['%']);
        }
        return Some(ExpressionBinaryOperator::Remainder);
    }
    proof {
        assert(['%']@ =~= seq!['%']);
    }
    if text_is(operator, &['<', '<']) {
        proof {
            assert(['<', '<']@ =~= seq!['<', '<']);
        }
        return Some(ExpressionBinaryOperator::LeftShift);
    }
    proof {
        assert(['<', '<']@ =~= seq!['<', '<']);
    }
    if text_is(operator, &['>', '>']) {
        proof {
            assert(['>', '>']@ =~= seq!['>', '>']);
        }
        return Some(ExpressionBinaryOperator::RightShift);
    }
    proof {
        assert(['>', '>']@ =~= seq!['>', '>']);
    }
    if text_is(operator, &['&']) {
        proof {
            assert(['&']@ =~= seq!['&']);
        }
        return Some(ExpressionBinaryOperator::BitwiseAnd);
    }
    proof {
        assert(['&']@ =~= seq!['&']);
    }
    if text_is(operator, &['|']) {
        proof {
            assert(['|']@ =~= seq!['|']);
        }
        return Some(ExpressionBinaryOperator::BitwiseOr);
    }
    proof {
        assert(['|']@ =~= seq!['|']);
    }
    if text_is(operator, &['^']) {
        proof {
            assert(['^']@ =~= seq!['^']);
        }
        return Some(ExpressionBinaryOperator::BitwiseXor);
    }
    proof {
        assert(['^']@ =~= seq!['^']);
    }
    if text_is(operator, &['&', '=']) {
        proof {
            assert(['&', '=']@ =~= seq!['&', '=']);
        }
        return Some(ExpressionBinaryOperator::AssignAnd);
    }
    proof {
        assert(['&', '=']@ =~= seq!['&', '=']);
    }
    if text_is(operator, &['|', '=']) {
        proof {
            assert(['|', '=']@ =~= seq!['|', '=']);
        }
        return Some(ExpressionBinaryOperator::AssignOr);
    }
    proof {
        assert(['|', '=']@ =~= seq!['|', '=']);
    }
    if text_is(operator, &['^', '=']) {
        proof {
            assert(['^', '=']@ =~= seq!['^', '=']);
        }
        return Some(ExpressionBinaryOperator::AssignXor);
    }
    proof {
        assert(['^', '=']@ =~= seq!['^', '=']);
    }
    None
}

/// How tightly an operator binds on its left and right side.
pub fn binding_order(operator: &ExpressionBinaryOperator) -> (order: (u8, u8))
    ensures
        order == binding(*operator),
{
    match operator {
        ExpressionBinaryOperator::Assign
        | ExpressionBinaryOperator::AssignAdd
        | ExpressionBinaryOperator::AssignSub
        | ExpressionBinaryOperator::AssignMul
        | ExpressionBinaryOperator::AssignDiv
        | ExpressionBinaryOperator::AssignAnd
        | ExpressionBinaryOperator::AssignOr
        | ExpressionBinaryOperator::AssignXor => (1, 2),
        ExpressionBinaryOperator::Or => (3, 4),
        ExpressionBinaryOperator::And => (5, 6),
        ExpressionBinaryOperator::BitwiseOr => (7, 8),
        ExpressionBinaryOperator::BitwiseXor => (9, 10),
        ExpressionBinaryOperator::BitwiseAnd => (11, 12),
        ExpressionBinaryOperator::Equal | ExpressionBinaryOperator::NotEqual => (13, 14),
        ExpressionBinaryOperator::Less
        | ExpressionBinaryOperator::LessEqual
        | ExpressionBinaryOperator::Greater
        | ExpressionBinaryOperator::GreaterEqual => (15, 16),
        ExpressionBinaryOperator::LeftShift | ExpressionBinaryOperator::RightShift => (17, 18),
        ExpressionBinaryOperator::Add | ExpressionBinaryOperator::Sub => (19, 20),
        ExpressionBinaryOperator::Multiply
        | ExpressionBinaryOperator::Divide
        | ExpressionBinaryOperator::Remainder => (21, 22),
    }
}

/// The string of `quote`, the characters of `text`, and `quote` again.
fn quoted_text(quote: char, text: &String) -> (literal: String)
    ensures
        literal@ == seq![quote] + text@ + seq![quote],
{
    let mut chars = crate::io::chars_of(text.as_str());
    let mut all: Vec<char> = Vec::new();
    all.push(quote);
    all.append(&mut chars);
    all.push(quote);
    let literal = text_of(all.as_slice());
    proof {
        assert(all@ =~= seq![quote] + text@ + seq![quote]);
    }
    literal
}

/// The text of a negative number literal: `-` and the digits.
fn negative_text(value: u64) -> (literal: String)
    ensures
        literal@ == seq!['-'] + decimal_text(value),
{
    let digits = number_text(value);
    let mut chars = crate::io::chars_of(digits.as_str());
    let mut all: Vec<char> = Vec::new();
    all.push('-');
    all.append(&mut chars);
    let literal = text_of(all.as_slice());
    proof {
        assert(all@ =~= seq!['-'] + decimal_text(value));
    }
    literal
}

/// The type that a type name in `new` stands for.
pub(crate) fn parse_type_expr(name: &String) -> (typ: Type)
    ensures
        type_view(typ) == named_type(name@),
{
    proof {
        assert(['v', 'o', 'i', 'd']@ =~= seq!['v', 'o', 'i', 'd']);
        assert(['i', 'n', 't']@ =~= seq!['i', 'n', 't']);
        assert(['c', 'h', 'a', 'r']@ =~= seq!['c', 'h', 'a', 'r']);
        assert(['b', 'o', 'o', 'l']@ =~= seq!['b', 'o', 'o', 'l']);
    }
    if text_is(name, &['v', 'o', 'i', 'd']) {
        Type::Void
    } else if text_is(name, &['i', 'n', 't']) {
        Type::Int
    } else if text_is(name, &['c', 'h', 'a', 'r']) {
        Type::Char
    } else if text_is(name, &['b', 'o', 'o', 'l']) {
        Type::Bool
    } else {
        Type::Class(name.clone())
    }
}

/// The outcome of an executable parse, as positions and shapes.
pub open spec fn parsed_view(parsed: Result<(Expression<()>, usize), ParseError>) -> Parsed {
    match parsed {
        Ok((expression, next)) => Ok((shape(expression), next as int)),
        Err(e) => Err(e),
    }
}

/// The outcome of an executable argument parse, as positions and shapes.
pub open spec fn arguments_view(parsed: Result<(Vec<Expression<()>>, usize), ParseError>) -> Result<
    (Seq<ExpressionView>, int),
    ParseError,
> {
    match parsed {
        Ok((arguments, next)) => Ok((shapes(arguments@), next as int)),
        Err(e) => Err(e),
    }
}

/// `left operator right`; an assignment only to a variable, a field, an element or a slice.
fn combine(left: Expression<()>, operator: ExpressionBinaryOperator, right: Expression<()>) -> (whole:
    Result<Expression<()>, ParseError>)
    ensures
        match (whole, combined(shape(left), operator, shape(right))) {
            (Ok(e), Ok(v)) => shape(e) == v,
            (Err(a), Err(b)) => a == b,
            _ => false,
        },
{
    if operator == ExpressionBinaryOperator::Assign {
        match left {
            Expression::Variable { name, .. } => Ok(
                Expression::Assign { typ: (), name, value: Box::new(right) },
            ),
            Expression::Field { object, name, .. } => Ok(
                Expression::AssignField { typ: (), object, name, value: Box::new(right) },
            ),
            Expression::Index { expression, index, .. } => Ok(
                Expression::AssignIndex { typ: (), expression, index, value: Box::new(right) },
            ),
            Expression::Slice { expression, start, size, .. } => Ok(
                Expression::AssignSlice { typ: (), expression, start, size, value: Box::new(right) },
            ),
            _ => Err(ParseError::InvalidAssignmentTarget),
        }
    } else {
        Ok(Expression::BinaryOperator { typ: (), left: Box::new(left), operator, right: Box::new(right) })
    }
}

/// Whether a token stands after an operand, and how tightly it binds there.
fn postfix_order(token: &Token) -> (order: Option<(u8, ())>)
    ensures
        order is Some <==> is_postfix(token@),
        order is Some ==> (order->0).0 == 25,
{
    proof {
        assert(['+', '+']@ =~= seq!['+', '+']);
        assert(['-', '-']@ =~= seq!['-', '-']);
    }
    match token {
        Token::LeftBracket | Token::LeftSquareBracket | Token::Dot => Some((25, ())),
        Token::Operator(operator) => {
            if text_is(operator, &['+', '+']) || text_is(operator, &['-', '-']) {
                Some((25, ()))
            } else {
                None
            }
        },
        _ => None,
    }
}

/// Reads expressions from a sequence of tokens.
struct Parser {
    tokens: Vec<Token>,
}

impl Parser {
    /// The tokens' views.
    spec fn seq(&self) -> Seq<TokenView> {
        views(self.tokens@)
    }

    /// Whether the token at `i` is `)`.
    fn is_right_bracket(&self, i: usize) -> (found: bool)
        ensures
            found == (i < self.seq().len() && self.seq()[i as int] is RightBracket),
    {
        i < self.tokens.len() && match &self.tokens[i] {
            Token::RightBracket => true,
            _ => false,
        }
    }

    /// Whether the token at `i` is `]`.
    fn is_right_square_bracket(&self, i: usize) -> (found: bool)
        ensures
            found == (i < self.seq().len() && self.seq()[i as int] is RightSquareBracket),
    {
        i < self.tokens.len() && match &self.tokens[i] {
            Token::RightSquareBracket => true,
            _ => false,
        }
    }

    /// The number at `i`, if there is one.
    fn number_at(&self, i: usize) -> (number: Option<u64>)
        ensures
            number is Some <==> (i < self.seq().len() && self.seq()[i as int] is Number),
            number is Some ==> number->0 == self.seq()[i as int]->Number_0,
    {
        if i < self.tokens.len() {
            match &self.tokens[i] {
                Token::Number(n) => Some(*n),
                _ => None,
            }
        } else {
            None
        }
    }

    fn parse_expression(&self, pos: usize, min: u8) -> (parsed: Result<(Expression<()>, usize), ParseError>)
        requires
            pos <= self.seq().len(),
            self.seq().len() + 8 < usize::MAX,
        ensures
            parsed_view(parsed) == parse_from(self.seq(), pos as int, min),
            parsed matches Ok((_, next)) ==> pos < next <= self.seq().len(),
        decreases self.seq().len() - pos, 0int,
    {
        if pos >= self.tokens.len() {
            return Err(ParseError::UnexpectedEnd);
        }
        let (left, next) = match self.parse_prefix(pos + 1, pos) {
            Ok(parsed) => parsed,
            Err(e) => {
                return Err(e);
            },
        };
        self.continue_expression(next, min, left)
    }

    fn continue_expression(&self, pos: usize, min: u8, left: Expression<()>) -> (parsed: Result<
        (Expression<()>, usize),
        ParseError,
    >)
        requires
            pos <= self.seq().len(),
            self.seq().len() + 8 < usize::MAX,
        ensures
            parsed_view(parsed) == continue_from(self.seq(), pos as int, min, shape(left)),
            parsed matches Ok((_, next)) ==> pos <= next <= self.seq().len(),
        decreases self.seq().len() - pos, 0int,
    {
        let mut current = pos;
        let mut expression = left;
        loop
            invariant
                pos <= current <= self.seq().len(),
                self.seq().len() + 8 < usize::MAX,
                continue_from(self.seq(), pos as int, min, shape(left)) == continue_from(
                    self.seq(),
                    current as int,
                    min,
                    shape(expression),
                ),
            decreases self.seq().len() - current,
        {
            if current >= self.tokens.len() {
                return Ok((expression, current));
            }
            proof {
                assert(self.seq()[current as int] == self.tokens@[current as int]@);
            }
            if postfix_order(&self.tokens[current]).is_some() {
                if 25 < min {
                    return Ok((expression, current));
                }
                let (extended, next) = match self.parse_postfix(current + 1, expression, current) {
                    Ok(parsed) => parsed,
                    Err(e) => {
                        return Err(e);
                    },
                };
                expression = extended;
                current = next;
            } else {
                let linked = match &self.tokens[current] {
                    Token::Operator(operator) => link_binary_operator(operator),
                    _ => None,
                };
                match linked {
                    Some(operator) => {
                        let (left_order, right_order) = binding_order(&operator);
                        if left_order < min {
                            return Ok((expression, current));
                        }
                        let (right, next) = match self.parse_expression(current + 1, right_order) {
                            Ok(parsed) => parsed,
                            Err(e) => {
                                return Err(e);
                            },
                        };
                        expression = match combine(expression, operator, right) {
                            Ok(whole) => whole,
                            Err(e) => {
                                return Err(e);
                            },
                        };
                        current = next;
                    },
                    None => {
                        return Ok((expression, current));
                    },
                }
            }
        }
    }

    fn parse_unary(&self, pos: usize, operator: &String) -> (parsed: Result<(Expression<()>, usize), ParseError>)
        requires
            pos <= self.seq().len(),
            self.seq().len() + 8 < usize::MAX,
        ensures
            parsed_view(parsed) == unary_from(self.seq(), pos as int, operator@),
            parsed matches Ok((_, next)) ==> pos < next <= self.seq().len(),
        decreases self.seq().len() - pos, 1int,
    {
        let (operand, next) = match self.parse_expression(pos, 23) {
            Ok(parsed) => parsed,
            Err(e) => {
                return Err(e);
            },
        };
        proof {
            assert(['~']@ =~= seq!['~']);
            assert(['-']@ =~= seq!['-']);
            assert(['!']@ =~= seq!['!']);
            assert(['+', '+']@ =~= seq!['+', '+']);
        }
        let expression = Box::new(operand);
        let result = if text_is(operator, &['~']) {
            Expression::BitwiseNot { typ: (), expression }
        } else if text_is(operator, &['-']) {
            Expression::Negate { typ: (), expression }
        } else if text_is(operator, &['!']) {
            Expression::Not { typ: (), expression }
        } else if text_is(operator, &['+', '+']) {
            Expression::Increment { typ: (), expression, postfix: false }
        } else {
            Expression::Decrement { typ: (), expression, postfix: false }
        };
        Ok((result, next))
    }

    fn parse_new(&self, pos: usize) -> (parsed: Result<(Expression<()>, usize), ParseError>)
        requires
            pos <= self.seq().len(),
            self.seq().len() + 8 < usize::MAX,
        ensures
            parsed_view(parsed) == new_from(self.seq(), pos as int),
            parsed matches Ok((_, next)) ==> pos < next <= self.seq().len(),
    {
        if pos >= self.tokens.len() {
            return Err(ParseError::ExpectedTypeName);
        }
        proof {
            assert(self.seq()[pos as int] == self.tokens@[pos as int]@);
        }
        let name = match &self.tokens[pos] {
            Token::Id(name) => name,
            _ => {
                return Err(ParseError::ExpectedTypeName);
            },
        };
        let q = pos + 1;
        let square = q < self.tokens.len() && match &self.tokens[q] {
            Token::LeftSquareBracket => true,
            _ => false,
        };
        let round = q < self.tokens.len() && match &self.tokens[q] {
            Token::LeftBracket => true,
            _ => false,
        };
        proof {
            if q < self.seq().len() {
                assert(self.seq()[q as int] == self.tokens@[q as int]@);
            }
        }
        if square {
            if q + 1 >= self.tokens.len() {
                return Err(ParseError::MissingSize);
            }
            match self.number_at(q + 1) {
                Some(size) => {
                    if self.is_right_square_bracket(q + 2) {
                        Ok((Expression::NewArray { typ: (), element_type: parse_type_expr(name), size }, q + 3))
                    } else {
                        Err(ParseError::ExpectedArraySizeEnd)
                    }
                },
                None => Err(ParseError::ArraySizeNotConstant),
            }
        } else if round {
            if self.is_right_bracket(q + 1) {
                Ok((Expression::New { typ: (), class_name: name.clone() }, q + 2))
            } else {
                Err(ParseError::ConstructorArguments)
            }
        } else {
            Err(ParseError::ExpectedNewBracket)
        }
    }

    fn parse_prefix(&self, pos: usize, at: usize) -> (parsed: Result<(Expression<()>, usize), ParseError>)
        requires
            at < self.seq().len(),
            self.seq().len() + 8 < usize::MAX,
            pos == at + 1,
        ensures
            parsed_view(parsed) == prefix_from(self.seq(), pos as int, self.seq()[at as int]),
            parsed matches Ok((_, next)) ==> pos <= next <= self.seq().len(),
        decreases self.seq().len() - pos, 2int,
    {
        proof {
            assert(self.seq()[at as int] == self.tokens@[at as int]@);
            assert(['t', 'h', 'i', 's']@ =~= seq!['t', 'h', 'i', 's']);
            assert(['n', 'e', 'w']@ =~= seq!['n', 'e', 'w']);
            assert(['t', 'r', 'u', 'e']@ =~= seq!['t', 'r', 'u', 'e']);
            assert(['f', 'a', 'l', 's', 'e']@ =~= seq!['f', 'a', 'l', 's', 'e']);
            assert(['-']@ =~= seq!['-']);
            assert(['~']@ =~= seq!['~']);
            assert(['!']@ =~= seq!['!']);
            assert(['+', '+']@ =~= seq!['+', '+']);
            assert(['-', '-']@ =~= seq!['-', '-']);
        }
        match &self.tokens[at] {
            Token::Number(n) => Ok((Expression::Literal { typ: (), value: number_text(*n) }, pos)),
            Token::String(text) => Ok((Expression::Literal { typ: (), value: quoted_text('"', text) }, pos)),
            Token::Char(text) => Ok((Expression::Literal { typ: (), value: quoted_text('\'', text) }, pos)),
            Token::Bool(b) => {
                let value = if *b {
                    text_of(&['t', 'r', 'u', 'e'])
                } else {
                    text_of(&['f', 'a', 'l', 's', 'e'])
                };
                Ok((Expression::Literal { typ: (), value }, pos))
            },
            Token::Id(name) => {
                if text_is(name, &['t', 'h', 'i', 's']) {
                    Ok((Expression::This { typ: () }, pos))
                } else if text_is(name, &['n', 'e', 'w']) {
                    self.parse_new(pos)
                } else {
                    Ok((Expression::Variable { typ: (), name: name.clone() }, pos))
                }
            },
            Token::LeftBracket => {
                let (inner, next) = match self.parse_expression(pos, 0) {
                    Ok(parsed) => parsed,
                    Err(e) => {
                        return Err(e);
                    },
                };
                if self.is_right_bracket(next) {
                    Ok((inner, next + 1))
                } else {
                    Err(ParseError::ExpectedRightBracket)
                }
            },
            Token::Operator(operator) => {
                let minus = text_is(operator, &['-']);
                let negative_number = if minus {
                    self.number_at(pos)
                } else {
                    None
                };
                match negative_number {
                    Some(n) => Ok((Expression::Literal { typ: (), value: negative_text(n) }, pos + 1)),
                    None => {
                        if minus || text_is(operator, &['~']) || text_is(operator, &['!']) || text_is(
                            operator,
                            &['+', '+'],
                        ) || text_is(operator, &['-', '-']) {
                            self.parse_unary(pos, operator)
                        } else {
                            Err(ParseError::InvalidPrefixOperator)
                        }
                    },
                }
            },
            _ => Err(ParseError::UnexpectedPrefixToken),
        }
    }

    fn parse_arguments(&self, pos: usize) -> (parsed: Result<(Vec<Expression<()>>, usize), ParseError>)
        requires
            pos <= self.seq().len(),
            self.seq().len() + 8 < usize::MAX,
        ensures
            arguments_view(parsed) == arguments_from(self.seq(), pos as int),
            parsed matches Ok((_, next)) ==> pos < next <= self.seq().len(),
        decreases self.seq().len() - pos, 3int,
    {
        if self.is_right_bracket(pos) {
            proof {
                assert(shapes(Seq::<Expression<()>>::empty()) =~= Seq::<ExpressionView>::empty());
            }
            return Ok((Vec::new(), pos + 1));
        }
        self.parse_more_arguments(pos)
    }

    fn parse_more_arguments(&self, pos: usize) -> (parsed: Result<(Vec<Expression<()>>, usize), ParseError>)
        requires
            pos <= self.seq().len(),
            self.seq().len() + 8 < usize::MAX,
        ensures
            arguments_view(parsed) == more_arguments_from(self.seq(), pos as int, Seq::empty()),
            parsed matches Ok((_, next)) ==> pos < next <= self.seq().len(),
        decreases self.seq().len() - pos, 1int,
    {
        let mut arguments: Vec<Expression<()>> = Vec::new();
        let mut current = pos;
        proof {
            assert(shapes(arguments@) =~= Seq::<ExpressionView>::empty());
        }
        loop
            invariant
                pos <= current <= self.seq().len(),
                self.seq().len() + 8 < usize::MAX,
                more_arguments_from(self.seq(), pos as int, Seq::empty()) == more_arguments_from(
                    self.seq(),
                    current as int,
                    shapes(arguments@),
                ),
            decreases self.seq().len() - current,
        {
            let (argument, next) = match self.parse_expression(current, 0) {
                Ok(parsed) => parsed,
                Err(e) => {
                    return Err(e);
                },
            };
            let ghost before = arguments@;
            arguments.push(argument);
            proof {
                assert(arguments@.drop_last() =~= before);
                assert(shapes(arguments@) == shapes(before).push(shape(argument)));
            }
            let comma = next < self.tokens.len() && match &self.tokens[next] {
                Token::Comma => true,
                _ => false,
            };
            proof {
                if next < self.seq().len() {
                    assert(self.seq()[next as int] == self.tokens@[next as int]@);
                }
            }
            if comma {
                current = next + 1;
            } else if self.is_right_bracket(next) {
                return Ok((arguments, next + 1));
            } else {
                return Err(ParseError::ExpectedArgumentSeparator);
            }
        }
    }

    fn parse_postfix(&self, pos: usize, left: Expression<()>, at: usize) -> (parsed: Result<
        (Expression<()>, usize),
        ParseError,
    >)
        requires
            at < self.seq().len(),
            self.seq().len() + 8 < usize::MAX,
            pos == at + 1,
        ensures
            parsed_view(parsed) == postfix_from(self.seq(), pos as int, shape(left), self.seq()[at as int]),
            parsed matches Ok((_, next)) ==> pos <= next <= self.seq().len(),
        decreases self.seq().len() - pos, 4int,
    {
        proof {
            assert(self.seq()[at as int] == self.tokens@[at as int]@);
            assert(['+', '+']@ =~= seq!['+', '+']);
            assert(['-', '-']@ =~= seq!['-', '-']);
        }
        match &self.tokens[at] {
            Token::Operator(operator) => {
                if text_is(operator, &['+', '+']) {
                    Ok((Expression::Increment { typ: (), expression: Box::new(left), postfix: true }, pos))
                } else if text_is(operator, &['-', '-']) {
                    Ok((Expression::Decrement { typ: (), expression: Box::new(left), postfix: true }, pos))
                } else {
                    Err(ParseError::InvalidPostfixToken)
                }
            },
            Token::Dot => {
                if pos >= self.tokens.len() {
                    return Err(ParseError::ExpectedIdentifierAfterDot);
                }
                proof {
                    assert(self.seq()[pos as int] == self.tokens@[pos as int]@);
                    if pos + 1 < self.seq().len() {
                        assert(self.seq()[pos + 1] == self.tokens@[pos + 1]@);
                    }
                }
                let name = match &self.tokens[pos] {
                    Token::Id(name) => name.clone(),
                    _ => {
                        return Err(ParseError::ExpectedIdentifierAfterDot);
                    },
                };
                let call = pos + 1 < self.tokens.len() && match &self.tokens[pos + 1] {
                    Token::LeftBracket => true,
                    _ => false,
                };
                if call {
                    let (arguments, next) = match self.parse_arguments(pos + 2) {
                        Ok(parsed) => parsed,
                        Err(e) => {
                            return Err(e);
                        },
                    };
                    Ok((Expression::MethodCall { typ: (), object: Box::new(left), name, arguments }, next))
                } else {
                    Ok((Expression::Field { typ: (), object: Box::new(left), name }, pos + 1))
                }
            },
            Token::LeftBracket => {
                let (arguments, next) = match self.parse_arguments(pos) {
                    Ok(parsed) => parsed,
                    Err(e) => {
                        return Err(e);
                    },
                };
                match left {
                    Expression::Variable { name, .. } => Ok(
                        (Expression::FunctionCall { typ: (), name, arguments }, next),
                    ),
                    _ => Err(ParseError::InvalidCallTarget),
                }
            },
            Token::LeftSquareBracket => {
                let (index, next) = match self.parse_expression(pos, 0) {
                    Ok(parsed) => parsed,
                    Err(e) => {
                        return Err(e);
                    },
                };
                let colon = next < self.tokens.len() && match &self.tokens[next] {
                    Token::Colon => true,
                    _ => false,
                };
                proof {
                    if next < self.seq().len() {
                        assert(self.seq()[next as int] == self.tokens@[next as int]@);
                    }
                }
                if colon {
                    if next + 1 >= self.tokens.len() {
                        return Err(ParseError::MissingSize);
                    }
                    match self.number_at(next + 1) {
                        Some(size) => {
                            if self.is_right_square_bracket(next + 2) {
                                Ok(
                                    (
                                        Expression::Slice {
                                            typ: (),
                                            expression: Box::new(left),
                                            start: Box::new(index),
                                            size,
                                        },
                                        next + 3,
                                    ),
                                )
                            } else {
                                Err(ParseError::ExpectedSliceEnd)
                            }
                        },
                        None => Err(ParseError::SliceSizeNotConstant),
                    }
                } else if self.is_right_square_bracket(next) {
                    Ok(
                        (
                            Expression::Index { typ: (), expression: Box::new(left), index: Box::new(index) },
                            next + 1,
                        ),
                    )
                } else {
                    Err(ParseError::ExpectedIndexEnd)
                }
            },
            _ => Err(ParseError::InvalidPostfixToken),
        }
    }
}

/// Parses the text of an expression: the expression that spans all of its tokens.
pub fn parse_expression(code: &str) -> (parsed: Result<Expression<()>, ParseError>)
    requires
        code@.len() + 8 < usize::MAX,
    ensures
        match (parsed, parsed_text(code@)) {
            (Ok(e), Ok(v)) => shape(e) == v,
            (Err(a), Err(b)) => a == b,
            _ => false,
        },
{
    let chars = crate::io::chars_of(code);
    parse_expression_chars(chars.as_slice())
}

/// Parses an expression given as its characters.
pub(crate) fn parse_expression_chars(chars: &[char]) -> (parsed: Result<Expression<()>, ParseError>)
    requires
        chars@.len() + 8 < usize::MAX,
    ensures
        match (parsed, parsed_text(chars@)) {
            (Ok(e), Ok(v)) => shape(e) == v,
            (Err(a), Err(b)) => a == b,
            _ => false,
        },
{
    let tokens = match tokenize(chars) {
        Ok(tokens) => tokens,
        Err(e) => {
            return Err(ParseError::Token(e));
        },
    };
    if tokens.len() == 0 {
        return Err(ParseError::Empty);
    }
    let parser = Parser { tokens };
    assert(parser.seq().len() == parser.tokens@.len());
    let (expression, next) = match parser.parse_expression(0, 0) {
        Ok(parsed) => parsed,
        Err(e) => {
            return Err(e);
        },
    };
    if next < parser.tokens.len() {
        return Err(ParseError::TrailingTokens);
    }
    Ok(expression)
}

} // verus!
