use crate::io::{is_space, trimmed};
use crate::translator::ast::{char_views, slice_of, strip_semicolons, trim_chars, without_semicolons};
use vstd::prelude::*;

verus! {

/// A node of the syntax tree: a statement head with its text still unparsed.
pub enum SyntaxNode {
    If { condition: String },
    ElseIf { condition: String },
    Else,
    While { condition: String },
    For { condition: String },
    Function { result_type: String, name: String, arguments: String },
    Class { name: String },
    Line { value: String },
    Scope,
    File,
}

/// A syntax tree: a node and the trees of its body, in order.
pub struct SyntaxTree {
    pub node: SyntaxNode,
    pub children: Vec<SyntaxTree>,
}

impl SyntaxTree {
    /// A tree of one node without children.
    pub fn new(node: SyntaxNode) -> (tree: Self)
        ensures
            tree.node == node,
            tree.children@.len() == 0,
    {
        SyntaxTree { node, children: Vec::new() }
    }
}

/// Why a program text cannot be split into a syntax tree.
#[derive(Clone, Copy, Debug, PartialEq, Eq, Structural)]
pub enum SyntaxError {
    /// A `)` or `}` closes nothing.
    UnmatchedClosingBracket,
    /// A sentence is neither a statement head, a brace nor a line ending in `;`.
    WrongSyntax,
    /// Some `{` is never closed.
    UnclosedBrackets,
}

/// A syntax node with its texts as sequences of characters.
pub enum SyntaxNodeView {
    If(Seq<char>),
    ElseIf(Seq<char>),
    Else,
    While(Seq<char>),
    For(Seq<char>),
    Function(Seq<char>, Seq<char>, Seq<char>),
    Class(Seq<char>),
    Line(Seq<char>),
    Scope,
    File,
}

/// A syntax tree with its texts as sequences of characters.
pub struct SyntaxView {
    pub node: SyntaxNodeView,
    pub children: Seq<SyntaxView>,
}

/// The view of a syntax node.
pub open spec fn syntax_node_view(node: SyntaxNode) -> SyntaxNodeView {
    match node {
        SyntaxNode::If { condition } => SyntaxNodeView::If(condition@),
        SyntaxNode::ElseIf { condition } => SyntaxNodeView::ElseIf(condition@),
        SyntaxNode::Else => SyntaxNodeView::Else,
        SyntaxNode::While { condition } => SyntaxNodeView::While(condition@),
        SyntaxNode::For { condition } => SyntaxNodeView::For(condition@),
        SyntaxNode::Function { result_type, name, arguments } => SyntaxNodeView::Function(
            result_type@,
            name@,
            arguments@,
        ),
        SyntaxNode::Class { name } => SyntaxNodeView::Class(name@),
        SyntaxNode::Line { value } => SyntaxNodeView::Line(value@),
        SyntaxNode::Scope => SyntaxNodeView::Scope,
        SyntaxNode::File => SyntaxNodeView::File,
    }
}

/// The view of a syntax tree.
pub open spec fn syntax_view(tree: SyntaxTree) -> SyntaxView
    decreases tree,
{
    SyntaxView { node: syntax_node_view(tree.node), children: syntax_views(tree.children@) }
}

/// The views of a sequence of syntax trees.
pub open spec fn syntax_views(trees: Seq<SyntaxTree>) -> Seq<SyntaxView>
    decreases trees,
{
    if trees.len() == 0 {
        Seq::empty()
    } else {
        syntax_views(trees.drop_last()).push(syntax_view(trees.last()))
    }
}

/// What the splitting into sentences has gathered: the sentences so far, the text of the
/// current one, and how many round brackets are open.
pub struct SentenceState {
    pub sentences: Seq<Seq<char>>,
    pub token: Seq<char>,
    pub depth: nat,
}

/// The splitting state after one more character. Round brackets nest; a brace is a sentence
/// of its own and ends the current one; a `;` outside brackets ends the current sentence, and
/// one that would end an empty sentence is dropped.
pub open spec fn sentence_step(state: SentenceState, c: char) -> Result<SentenceState, SyntaxError> {
    if c == '(' {
        Ok(SentenceState { token: state.token.push(c), depth: state.depth + 1, ..state })
    } else if c == ')' {
        if state.depth == 0 {
            Err(SyntaxError::UnmatchedClosingBracket)
        } else {
            Ok(SentenceState { token: state.token.push(c), depth: (state.depth - 1) as nat, ..state })
        }
    } else if c == '{' || c == '}' {
        let before = if trimmed(state.token).len() > 0 {
            state.sentences.push(trimmed(state.token))
        } else {
            state.sentences
        };
        Ok(SentenceState { sentences: before.push(seq![c]), token: Seq::empty(), ..state })
    } else if c == ';' {
        if trimmed(state.token).len() == 0 {
            Ok(SentenceState { token: Seq::empty(), ..state })
        } else if state.depth == 0 {
            Ok(
                SentenceState {
                    sentences: state.sentences.push(trimmed(state.token.push(c))),
                    token: Seq::empty(),
                    ..state
                },
            )
        } else {
            Ok(SentenceState { token: state.token.push(c), ..state })
        }
    } else {
        Ok(SentenceState { token: state.token.push(c), ..state })
    }
}

/// The splitting state after all the characters, or the first error.
pub open spec fn sentence_scan(chars: Seq<char>) -> Result<SentenceState, SyntaxError>
    decreases chars.len(),
{
    if chars.len() == 0 {
        Ok(SentenceState { sentences: Seq::empty(), token: Seq::empty(), depth: 0 })
    } else {
        match sentence_scan(chars.drop_last()) {
            Err(e) => Err(e),
            Ok(state) => sentence_step(state, chars.last()),
        }
    }
}

/// The sentences of a program text, each trimmed: the last one needs no `;`.
pub open spec fn sentences_of(chars: Seq<char>) -> Result<Seq<Seq<char>>, SyntaxError> {
    match sentence_scan(chars) {
        Err(e) => Err(e),
        Ok(state) => Ok(
            if trimmed(state.token).len() > 0 {
                state.sentences.push(trimmed(state.token))
            } else {
                state.sentences
            },
        ),
    }
}

/// Whether a character is a word character, as the regex crate's Unicode `\w` decides.
pub uninterp spec fn word_character(c: char) -> bool;

/// How many characters at the start of `chars` are word characters: the length of the match
/// of the regex crate's `^\w*`. The contract states only that each of them is a word
/// character and that the next one, if any, is not; which characters `\w` accepts is left to
/// the crate's Unicode tables.
#[verifier::external_body]
fn word_prefix_length(chars: &[char]) -> (n: usize)
    ensures
        n <= chars@.len(),
        forall|i: int| 0 <= i < n ==> word_character(#[trigger] chars@[i]),
        n < chars@.len() ==> !word_character(chars@[n as int]),
{
    let text: String = chars.iter().collect();
    match regex::Regex::new(r"^\w*").unwrap().find(&text) {
        Some(found) => text[..found.end()].chars().count(),
        None => 0,
    }
}

/// The end of the run of white space that starts at `from`.
pub open spec fn space_end(s: Seq<char>, from: int) -> int
    decreases s.len() - from,
{
    if 0 <= from < s.len() && is_space(s[from]) {
        space_end(s, from + 1)
    } else {
        from
    }
}

/// The end of the run of word characters that starts at `from`.
pub open spec fn word_end(s: Seq<char>, from: int) -> int
    decreases s.len() - from,
{
    if 0 <= from < s.len() && word_character(s[from]) {
        word_end(s, from + 1)
    } else {
        from
    }
}

/// The end of the line that contains `from`: the index of the next newline, or the length.
pub open spec fn line_end(s: Seq<char>, from: int) -> int
    decreases s.len() - from,
{
    if 0 <= from < s.len() && s[from] != '\n' {
        line_end(s, from + 1)
    } else {
        from
    }
}

/// The index of the last `)` in `s[from..to]`, or -1.
pub open spec fn last_close(s: Seq<char>, from: int, to: int) -> int
    decreases to - from,
{
    if from < to && 0 <= to - 1 < s.len() {
        if s[to - 1] == ')' {
            to - 1
        } else {
            last_close(s, from, to - 1)
        }
    } else {
        -1
    }
}

/// The text between `(` at `open` and the last `)` of the same line, as `\((.+)\)` takes it.
pub open spec fn bracketed(s: Seq<char>, open: int) -> Option<Seq<char>> {
    if 0 <= open < s.len() && s[open] == '(' {
        let close = last_close(s, open + 2, line_end(s, open + 1));
        if close >= 0 {
            Some(s.subrange(open + 1, close))
        } else {
            None
        }
    } else {
        None
    }
}

/// Whether `s` starts with `prefix`.
pub open spec fn starts_with(s: Seq<char>, prefix: Seq<char>) -> bool {
    s.len() >= prefix.len() && s.take(prefix.len() as int) == prefix
}

/// The condition of a head `keyword (condition)`, as `^keyword\s*\((.+)\)` takes it.
pub open spec fn head_condition(s: Seq<char>, keyword: Seq<char>) -> Option<Seq<char>> {
    if starts_with(s, keyword) {
        bracketed(s, space_end(s, keyword.len() as int))
    } else {
        None
    }
}

/// The condition of `else if (condition)`, as `^else\s+if\s*\((.+)\)` takes it.
pub open spec fn else_if_condition(s: Seq<char>) -> Option<Seq<char>> {
    let keyword = seq!['e', 'l', 's', 'e'];
    let after = space_end(s, 4);
    if starts_with(s, keyword) && after > 4 && starts_with(s.skip(after), seq!['i', 'f']) {
        bracketed(s, space_end(s, after + 2))
    } else {
        None
    }
}

/// The index of the first `)` at or after `from`, or -1.
pub open spec fn first_close(s: Seq<char>, from: int) -> int
    decreases s.len() - from,
{
    if 0 <= from < s.len() {
        if s[from] == ')' {
            from
        } else {
            first_close(s, from + 1)
        }
    } else {
        -1
    }
}

/// The result type, name and parameter text of a function head, as
/// `^(\w+)\s+(\w+)\s*\(([^)]*)\)` takes them.
pub open spec fn function_head(s: Seq<char>) -> Option<(Seq<char>, Seq<char>, Seq<char>)> {
    let first = word_end(s, 0);
    let gap = space_end(s, first);
    let second = word_end(s, gap);
    let open = space_end(s, second);
    let close = first_close(s, open + 1);
    if first > 0 && gap > first && second > gap && open < s.len() && s[open] == '(' && close >= 0 {
        Some((s.subrange(0, first), s.subrange(gap, second), s.subrange(open + 1, close)))
    } else {
        None
    }
}

/// The name of a class head, as `^class\s+(\w+)` takes it.
pub open spec fn class_head(s: Seq<char>) -> Option<Seq<char>> {
    let gap = space_end(s, 5);
    let end = word_end(s, gap);
    if starts_with(s, seq!['c', 'l', 'a', 's', 's']) && gap > 5 && end > gap {
        Some(s.subrange(gap, end))
    } else {
        None
    }
}

/// What a sentence is.
pub enum SentenceKind {
    Open,
    Close,
    Head(SyntaxNodeView),
    Line(Seq<char>),
    Wrong,
}

/// The kind of a sentence; the patterns are tried in this order.
pub open spec fn sentence_kind(s: Seq<char>) -> SentenceKind {
    if s == seq!['{'] {
        SentenceKind::Open
    } else if s == seq!['}'] {
        SentenceKind::Close
    } else if head_condition(s, seq!['i', 'f']) is Some {
        SentenceKind::Head(SyntaxNodeView::If(head_condition(s, seq!['i', 'f'])->0))
    } else if else_if_condition(s) is Some {
        SentenceKind::Head(SyntaxNodeView::ElseIf(else_if_condition(s)->0))
    } else if starts_with(s, seq!['e', 'l', 's', 'e']) {
        SentenceKind::Head(SyntaxNodeView::Else)
    } else if head_condition(s, seq!['w', 'h', 'i', 'l', 'e']) is Some {
        SentenceKind::Head(SyntaxNodeView::While(head_condition(s, seq!['w', 'h', 'i', 'l', 'e'])->0))
    } else if head_condition(s, seq!['f', 'o', 'r']) is Some {
        SentenceKind::Head(SyntaxNodeView::For(head_condition(s, seq!['f', 'o', 'r'])->0))
    } else if function_head(s) is Some {
        let f = function_head(s)->0;
        SentenceKind::Head(SyntaxNodeView::Function(f.0, f.1, f.2))
    } else if class_head(s) is Some {
        SentenceKind::Head(SyntaxNodeView::Class(class_head(s)->0))
    } else if s.len() > 0 && s.last() == ';' {
        SentenceKind::Line(trimmed(strip_semicolons(s)))
    } else {
        SentenceKind::Wrong
    }
}

/// What the building of the tree has gathered: the open trees, outermost first, and whether
/// the next `{` opens the body of the last head.
pub struct BuildState {
    pub stack: Seq<SyntaxView>,
    pub expect_body: bool,
}

/// The stack with a tree added to the children of its last tree.
pub open spec fn add_child(stack: Seq<SyntaxView>, child: SyntaxView) -> Seq<SyntaxView> {
    if stack.len() > 0 {
        stack.update(
            stack.len() - 1,
            SyntaxView { node: stack.last().node, children: stack.last().children.push(child) },
        )
    } else {
        stack
    }
}

/// A tree without children.
pub open spec fn syntax_leaf(node: SyntaxNodeView) -> SyntaxView {
    SyntaxView { node, children: Seq::empty() }
}

/// The building state after one more sentence.
pub open spec fn build_step(state: BuildState, sentence: Seq<char>) -> Result<BuildState, SyntaxError> {
    match sentence_kind(sentence) {
        SentenceKind::Open => if state.expect_body {
            Ok(BuildState { expect_body: false, ..state })
        } else {
            Ok(BuildState { stack: state.stack.push(syntax_leaf(SyntaxNodeView::Scope)), ..state })
        },
        SentenceKind::Close => if state.stack.len() < 2 {
            Err(SyntaxError::UnmatchedClosingBracket)
        } else {
            Ok(
                BuildState {
                    stack: add_child(state.stack.drop_last(), state.stack.last()),
                    ..state
                },
            )
        },
        SentenceKind::Head(node) => Ok(
            BuildState { stack: state.stack.push(syntax_leaf(node)), expect_body: true },
        ),
        SentenceKind::Line(value) => Ok(
            BuildState {
                stack: add_child(state.stack, syntax_leaf(SyntaxNodeView::Line(value))),
                ..state
            },
        ),
        SentenceKind::Wrong => Err(SyntaxError::WrongSyntax),
    }
}

/// The building state after all the sentences, or the first error.
pub open spec fn build_scan(sentences: Seq<Seq<char>>) -> Result<BuildState, SyntaxError>
    decreases sentences.len(),
{
    if sentences.len() == 0 {
        Ok(BuildState { stack: seq![syntax_leaf(SyntaxNodeView::File)], expect_body: false })
    } else {
        match build_scan(sentences.drop_last()) {
            Err(e) => Err(e),
            Ok(state) => build_step(state, sentences.last()),
        }
    }
}

/// The syntax tree of a program text: a file whose children are its statements.
pub open spec fn syntax_tree_of(chars: Seq<char>) -> Result<SyntaxView, SyntaxError> {
    match sentences_of(chars) {
        Err(e) => Err(e),
        Ok(sentences) => match build_scan(sentences) {
            Err(e) => Err(e),
            Ok(state) => if state.stack.len() != 1 {
                Err(SyntaxError::UnclosedBrackets)
            } else {
                Ok(state.stack[0])
            },
        },
    }
}

/// Once the splitting of a prefix fails, the splitting of the whole text fails the same way.
pub proof fn lemma_scan_error_persists(chars: Seq<char>, n: int)
    requires
        0 <= n <= chars.len(),
        sentence_scan(chars.take(n)) is Err,
    ensures
        sentence_scan(chars) == sentence_scan(chars.take(n)),
    decreases chars.len(),
{
    if n < chars.len() {
        assert(chars.take(n) =~= chars.drop_last().take(n));
        lemma_scan_error_persists(chars.drop_last(), n);
    } else {
        assert(chars.take(n) =~= chars);
    }
}

/// The sentences of a program text.
fn parse_sentences(chars: &[char]) -> (sentences: Result<Vec<Vec<char>>, SyntaxError>)
    ensures
        match (sentences, sentences_of(chars@)) {
            (Ok(found), Ok(expected)) => char_views(found@) == expected,
            (Err(a), Err(b)) => a == b,
            _ => false,
        },
{
    let mut sentences: Vec<Vec<char>> = Vec::new();
    let mut token: Vec<char> = Vec::new();
    let mut depth: usize = 0;
    let mut i: usize = 0;
    proof {
        assert(chars@.take(0) =~= Seq::<char>::empty());
        assert(char_views(sentences@) =~= Seq::<Seq<char>>::empty());
    }
    while i < chars.len()
        invariant
            i <= chars@.len(),
            depth <= i,
            sentence_scan(chars@.take(i as int)) == Ok::<SentenceState, SyntaxError>(
                SentenceState { sentences: char_views(sentences@), token: token@, depth: depth as nat },
            ),
        decreases chars@.len() - i,
    {
        proof {
            assert(chars@.take(i + 1).drop_last() =~= chars@.take(i as int));
            assert(chars@.take(i + 1).last() == chars@[i as int]);
        }
        let c = chars[i];
        let ghost before = char_views(sentences@);
        if c == '(' {
            token.push(c);
            depth = depth + 1;
        } else if c == ')' {
            if depth == 0 {
                proof {
                    lemma_scan_error_persists(chars@, i + 1);
                }
                return Err(SyntaxError::UnmatchedClosingBracket);
            }
            token.push(c);
            depth = depth - 1;
        } else if c == '{' || c == '}' {
            let t = trim_chars(token.as_slice());
            if t.len() > 0 {
                sentences.push(t);
            }
            let ghost middle = char_views(sentences@);
            let mut brace: Vec<char> = Vec::new();
            brace.push(c);
            sentences.push(brace);
            token = Vec::new();
            proof {
                assert(brace@ =~= seq![c]);
                assert(char_views(sentences@) =~= middle.push(seq![c]));
                if t@.len() > 0 {
                    assert(middle =~= before.push(t@));
                } else {
                    assert(middle =~= before);
                }
            }
        } else if c == ';' {
            let t = trim_chars(token.as_slice());
            if t.len() == 0 {
                token = Vec::new();
            } else if depth == 0 {
                token.push(c);
                let finished = trim_chars(token.as_slice());
                sentences.push(finished);
                token = Vec::new();
                proof {
                    assert(char_views(sentences@) =~= before.push(finished@));
                }
            } else {
                token.push(c);
            }
        } else {
            token.push(c);
        }
        i = i + 1;
    }
    proof {
        assert(chars@.take(i as int) =~= chars@);
    }
    let t = trim_chars(token.as_slice());
    let ghost before = char_views(sentences@);
    if t.len() > 0 {
        sentences.push(t);
        proof {
            assert(char_views(sentences@) =~= before.push(t@));
        }
    }
    Ok(sentences)
}

/// A run of word characters found by the regex crate ends where `word_end` says.
pub proof fn lemma_word_end(s: Seq<char>, from: int, n: int)
    requires
        0 <= from,
        0 <= n,
        from + n <= s.len(),
        forall|i: int| from <= i < from + n ==> word_character(#[trigger] s[i]),
        from + n < s.len() ==> !word_character(s[from + n]),
    ensures
        word_end(s, from) == from + n,
    decreases n,
{
    if n > 0 {
        lemma_word_end(s, from + 1, n - 1);
    }
}

/// The end of the run of word characters that starts at `from`.
fn word_end_at(s: &[char], from: usize) -> (end: usize)
    requires
        from <= s@.len(),
    ensures
        end as int == word_end(s@, from as int),
        from <= end <= s@.len(),
{
    let rest = slice_of(s, from, s.len());
    let n = word_prefix_length(rest.as_slice());
    proof {
        assert forall|i: int| from <= i < from + n implies word_character(#[trigger] s@[i]) by {
            assert(rest@[i - from] == s@[i]);
        }
        if from + n < s@.len() {
            assert(rest@[n as int] == s@[from + n]);
        }
        lemma_word_end(s@, from as int, n as int);
    }
    from + n
}

/// The end of the run of white space that starts at `from`.
fn space_end_at(s: &[char], from: usize) -> (end: usize)
    requires
        from <= s@.len(),
    ensures
        end as int == space_end(s@, from as int),
        from <= end <= s@.len(),
{
    let mut end = from;
    while end < s.len() && crate::io::is_white_space(s[end])
        invariant
            from <= end <= s@.len(),
            space_end(s@, from as int) == space_end(s@, end as int),
        decreases s@.len() - end,
    {
        end = end + 1;
    }
    end
}

/// The end of the line that contains `from`.
fn line_end_at(s: &[char], from: usize) -> (end: usize)
    requires
        from <= s@.len(),
    ensures
        end as int == line_end(s@, from as int),
        from <= end <= s@.len(),
{
    let mut end = from;
    while end < s.len() && s[end] != '\n'
        invariant
            from <= end <= s@.len(),
            line_end(s@, from as int) == line_end(s@, end as int),
        decreases s@.len() - end,
    {
        end = end + 1;
    }
    end
}

/// The text between `(` at `open` and the last `)` of its line.
fn bracketed_at(s: &[char], open: usize) -> (text: Option<Vec<char>>)
    requires
        open <= s@.len(),
    ensures
        match (text, bracketed(s@, open as int)) {
            (Some(t), Some(u)) => t@ == u,
            (None, None) => true,
            _ => false,
        },
{
    if open >= s.len() || s[open] != '(' {
        return None;
    }
    let end = line_end_at(s, open + 1);
    let mut to = end;
    while to - open > 2 && s[to - 1] != ')'
        invariant
            open + 1 <= to <= end <= s@.len(),
            last_close(s@, open + 2, end as int) == last_close(s@, open + 2, to as int),
        decreases to,
    {
        to = to - 1;
    }
    if to - open > 2 {
        Some(slice_of(s, open + 1, to - 1))
    } else {
        None
    }
}

/// Whether the characters start with `prefix`.
fn starts_with_text(s: &[char], prefix: &[char]) -> (starts: bool)
    ensures
        starts == starts_with(s@, prefix@),
{
    if s.len() < prefix.len() {
        return false;
    }
    proof {
        assert(s@.take(prefix@.len() as int) =~= s@.subrange(0, prefix@.len() as int));
    }
    crate::io::same_text(s, 0, prefix.len(), prefix)
}

/// The condition of a head `keyword (condition)`.
fn head_condition_of(s: &[char], keyword: &[char]) -> (condition: Option<Vec<char>>)
    ensures
        match (condition, head_condition(s@, keyword@)) {
            (Some(t), Some(u)) => t@ == u,
            (None, None) => true,
            _ => false,
        },
{
    if !starts_with_text(s, keyword) {
        return None;
    }
    let open = space_end_at(s, keyword.len());
    bracketed_at(s, open)
}

/// The condition of `else if (condition)`.
fn else_if_condition_of(s: &[char]) -> (condition: Option<Vec<char>>)
    ensures
        match (condition, else_if_condition(s@)) {
            (Some(t), Some(u)) => t@ == u,
            (None, None) => true,
            _ => false,
        },
{
    proof {
        assert(['e', 'l', 's', 'e']@ =~= seq!['e', 'l', 's', 'e']);
        assert(['i', 'f']@ =~= seq!['i', 'f']);
    }
    if !starts_with_text(s, &['e', 'l', 's', 'e']) {
        return None;
    }
    let after = space_end_at(s, 4);
    if after == 4 {
        return None;
    }
    let rest = slice_of(s, after, s.len());
    proof {
        assert(rest@ =~= s@.skip(after as int));
    }
    if !starts_with_text(rest.as_slice(), &['i', 'f']) {
        return None;
    }
    let open = space_end_at(s, after + 2);
    bracketed_at(s, open)
}

/// The index of the first `)` at or after `from`.
fn first_close_at(s: &[char], from: usize) -> (close: Option<usize>)
    ensures
        match close {
            Some(i) => i as int == first_close(s@, from as int) && from <= i < s@.len(),
            None => first_close(s@, from as int) == -1,
        },
{
    let mut i = from;
    while i < s.len()
        invariant
            from <= i,
            first_close(s@, from as int) == first_close(s@, i as int),
        decreases s@.len() - i,
    {
        if s[i] == ')' {
            return Some(i);
        }
        i = i + 1;
    }
    None
}

/// The result type, name and parameter text of a function head.
fn function_head_of(s: &[char]) -> (head: Option<(Vec<char>, Vec<char>, Vec<char>)>)
    ensures
        match (head, function_head(s@)) {
            (Some(h), Some(u)) => h.0@ == u.0 && h.1@ == u.1 && h.2@ == u.2,
            (None, None) => true,
            _ => false,
        },
{
    let first = word_end_at(s, 0);
    let gap = space_end_at(s, first);
    let second = word_end_at(s, gap);
    let open = space_end_at(s, second);
    if first == 0 || gap == first || second == gap || open >= s.len() || s[open] != '(' {
        return None;
    }
    match first_close_at(s, open + 1) {
        Some(close) => Some(
            (slice_of(s, 0, first), slice_of(s, gap, second), slice_of(s, open + 1, close)),
        ),
        None => None,
    }
}

/// The name of a class head.
fn class_head_of(s: &[char]) -> (name: Option<Vec<char>>)
    ensures
        match (name, class_head(s@)) {
            (Some(n), Some(u)) => n@ == u,
            (None, None) => true,
            _ => false,
        },
{
    proof {
        assert(['c', 'l', 'a', 's', 's']@ =~= seq!['c', 'l', 'a', 's', 's']);
    }
    if !starts_with_text(s, &['c', 'l', 'a', 's', 's']) {
        return None;
    }
    let gap = space_end_at(s, 5);
    let end = word_end_at(s, gap);
    if gap == 5 || end == gap {
        return None;
    }
    Some(slice_of(s, gap, end))
}

/// A classified sentence.
enum Sentence {
    Open,
    Close,
    Head(SyntaxNode),
    Line(String),
    Wrong,
}

/// The view of a classified sentence.
spec fn sentence_view(sentence: Sentence) -> SentenceKind {
    match sentence {
        Sentence::Open => SentenceKind::Open,
        Sentence::Close => SentenceKind::Close,
        Sentence::Head(node) => SentenceKind::Head(syntax_node_view(node)),
        Sentence::Line(value) => SentenceKind::Line(value@),
        Sentence::Wrong => SentenceKind::Wrong,
    }
}

/// The kind of a sentence.
fn classify(s: &[char]) -> (kind: Sentence)
    ensures
        sentence_view(kind) == sentence_kind(s@),
{
    let n = s.len();
    proof {
        assert(s@.subrange(0, n as int) =~= s@);
        assert(['{']@ =~= seq!['{']);
        assert(['}']@ =~= seq!['}']);
        assert(['i', 'f']@ =~= seq!['i', 'f']);
        assert(['e', 'l', 's', 'e']@ =~= seq!['e', 'l', 's', 'e']);
        assert(['w', 'h', 'i', 'l', 'e']@ =~= seq!['w', 'h', 'i', 'l', 'e']);
        assert(['f', 'o', 'r']@ =~= seq!['f', 'o', 'r']);
    }
    if crate::io::same_text(s, 0, n, &['{']) {
        return Sentence::Open;
    }
    if crate::io::same_text(s, 0, n, &['}']) {
        return Sentence::Close;
    }
    match head_condition_of(s, &['i', 'f']) {
        Some(c) => {
            return Sentence::Head(SyntaxNode::If { condition: crate::translator::expression::text_of(c.as_slice()) });
        },
        None => {},
    }
    match else_if_condition_of(s) {
        Some(c) => {
            return Sentence::Head(SyntaxNode::ElseIf { condition: crate::translator::expression::text_of(c.as_slice()) });
        },
        None => {},
    }
    if starts_with_text(s, &['e', 'l', 's', 'e']) {
        return Sentence::Head(SyntaxNode::Else);
    }
    match head_condition_of(s, &['w', 'h', 'i', 'l', 'e']) {
        Some(c) => {
            return Sentence::Head(SyntaxNode::While { condition: crate::translator::expression::text_of(c.as_slice()) });
        },
        None => {},
    }
    match head_condition_of(s, &['f', 'o', 'r']) {
        Some(c) => {
            return Sentence::Head(SyntaxNode::For { condition: crate::translator::expression::text_of(c.as_slice()) });
        },
        None => {},
    }
    match function_head_of(s) {
        Some((result_type, name, arguments)) => {
            return Sentence::Head(
                SyntaxNode::Function {
                    result_type: crate::translator::expression::text_of(result_type.as_slice()),
                    name: crate::translator::expression::text_of(name.as_slice()),
                    arguments: crate::translator::expression::text_of(arguments.as_slice()),
                },
            );
        },
        None => {},
    }
    match class_head_of(s) {
        Some(name) => {
            return Sentence::Head(SyntaxNode::Class { name: crate::translator::expression::text_of(name.as_slice()) });
        },
        None => {},
    }
    if n > 0 && s[n - 1] == ';' {
        let stripped = without_semicolons(s);
        let value = trim_chars(stripped.as_slice());
        return Sentence::Line(crate::translator::expression::text_of(value.as_slice()));
    }
    Sentence::Wrong
}

/// There are as many views as syntax trees.
pub proof fn lemma_syntax_views_len(trees: Seq<SyntaxTree>)
    ensures
        syntax_views(trees).len() == trees.len(),
    decreases trees.len(),
{
    if trees.len() > 0 {
        lemma_syntax_views_len(trees.drop_last());
    }
}

/// The views of syntax trees with one more pushed.
pub proof fn lemma_syntax_views_push(trees: Seq<SyntaxTree>, tree: SyntaxTree)
    ensures
        syntax_views(trees.push(tree)) == syntax_views(trees).push(syntax_view(tree)),
{
    assert(trees.push(tree).drop_last() =~= trees);
}

/// Adds a tree to the children of the last tree of the stack.
fn add_child_to_last(stack: &mut Vec<SyntaxTree>, child: SyntaxTree)
    ensures
        syntax_views(final(stack)@) == add_child(syntax_views(old(stack)@), syntax_view(child)),
{
    let ghost before = stack@;
    proof {
        lemma_syntax_views_len(before);
    }
    if stack.len() > 0 {
        let mut last = stack.pop().unwrap();
        let ghost old_last = last;
        last.children.push(child);
        proof {
            assert(last.children@.drop_last() =~= old_last.children@);
            assert(syntax_view(last) == SyntaxView {
                node: syntax_view(old_last).node,
                children: syntax_view(old_last).children.push(syntax_view(child)),
            });
        }
        stack.push(last);
        proof {
            assert(stack@.drop_last() =~= before.drop_last());
            assert(before.last() == old_last);
            assert(syntax_views(stack@) =~= syntax_views(before).update(
                syntax_views(before).len() - 1,
                syntax_view(last),
            ));
        }
    }
}

/// Once the building fails on a prefix of the sentences, it fails on all of them the same way.
pub proof fn lemma_build_error_persists(sentences: Seq<Seq<char>>, n: int)
    requires
        0 <= n <= sentences.len(),
        build_scan(sentences.take(n)) is Err,
    ensures
        build_scan(sentences) == build_scan(sentences.take(n)),
    decreases sentences.len(),
{
    if n < sentences.len() {
        assert(sentences.take(n) =~= sentences.drop_last().take(n));
        lemma_build_error_persists(sentences.drop_last(), n);
    } else {
        assert(sentences.take(n) =~= sentences);
    }
}

/// The syntax tree of a program text: the text is split into sentences, and each sentence
/// either opens or closes a body, starts a statement with a body, or is a line of the current
/// body.
pub fn parse_syntax_tree(raw_code: &str) -> (tree: Result<SyntaxTree, SyntaxError>)
    ensures
        match (tree, syntax_tree_of(raw_code@)) {
            (Ok(t), Ok(v)) => syntax_view(t) == v,
            (Err(a), Err(b)) => a == b,
            _ => false,
        },
{
    let chars = crate::io::chars_of(raw_code);
    let sentences = match parse_sentences(chars.as_slice()) {
        Ok(sentences) => sentences,
        Err(e) => {
            return Err(e);
        },
    };
    let ghost texts = char_views(sentences@);
    let mut stack: Vec<SyntaxTree> = Vec::new();
    stack.push(SyntaxTree::new(SyntaxNode::File));
    let mut expect_body = false;
    let mut k: usize = 0;
    proof {
        assert(texts.take(0) =~= Seq::<Seq<char>>::empty());
        let file = stack@[0];
        assert(file.children@ =~= Seq::<SyntaxTree>::empty());
        assert(syntax_views(file.children@) =~= Seq::<SyntaxView>::empty());
        assert(syntax_view(file) == syntax_leaf(SyntaxNodeView::File));
        assert(stack@ =~= Seq::<SyntaxTree>::empty().push(file));
        lemma_syntax_views_push(Seq::<SyntaxTree>::empty(), file);
        assert(syntax_views(Seq::<SyntaxTree>::empty()) =~= Seq::<SyntaxView>::empty());
        assert(syntax_views(stack@) =~= seq![syntax_leaf(SyntaxNodeView::File)]);
    }
    while k < sentences.len()
        invariant
            k <= sentences@.len(),
            texts == char_views(sentences@),
            texts.len() == sentences@.len(),
            sentences_of(raw_code@) == Ok::<Seq<Seq<char>>, SyntaxError>(texts),
            build_scan(texts.take(k as int)) == Ok::<BuildState, SyntaxError>(
                BuildState { stack: syntax_views(stack@), expect_body },
            ),
        decreases sentences@.len() - k,
    {
        proof {
            assert(texts.take(k + 1).drop_last() =~= texts.take(k as int));
            assert(texts.take(k + 1).last() == sentences@[k as int]@);
            lemma_syntax_views_len(stack@);
        }
        let ghost before = stack@;
        match classify(sentences[k].as_slice()) {
            Sentence::Open => {
                if expect_body {
                    expect_body = false;
                } else {
                    let scope = SyntaxTree::new(SyntaxNode::Scope);
                    proof {
                        lemma_syntax_views_push(before, scope);
                        assert(syntax_views(scope.children@) =~= Seq::<SyntaxView>::empty());
                    }
                    stack.push(scope);
                }
            },
            Sentence::Close => {
                if stack.len() < 2 {
                    proof {
                        assert(build_scan(texts.take(k + 1)) == Err::<BuildState, SyntaxError>(
                            SyntaxError::UnmatchedClosingBracket,
                        ));
                        lemma_build_error_persists(texts, k + 1);
                    }
                    return Err(SyntaxError::UnmatchedClosingBracket);
                }
                let current = stack.pop().unwrap();
                proof {
                    assert(stack@ =~= before.drop_last());
                    assert(before =~= stack@.push(current));
                    lemma_syntax_views_push(stack@, current);
                    assert(syntax_views(before).drop_last() =~= syntax_views(stack@));
                    assert(syntax_views(before).last() == syntax_view(current));
                }
                add_child_to_last(&mut stack, current);
            },
            Sentence::Head(node) => {
                let head = SyntaxTree::new(node);
                proof {
                    lemma_syntax_views_push(before, head);
                    assert(syntax_views(head.children@) =~= Seq::<SyntaxView>::empty());
                }
                stack.push(head);
                expect_body = true;
            },
            Sentence::Line(value) => {
                let leaf = SyntaxTree::new(SyntaxNode::Line { value });
                proof {
                    assert(syntax_views(leaf.children@) =~= Seq::<SyntaxView>::empty());
                }
                add_child_to_last(&mut stack, leaf);
            },
            Sentence::Wrong => {
                proof {
                    lemma_build_error_persists(texts, k + 1);
                }
                return Err(SyntaxError::WrongSyntax);
            },
        }
        k = k + 1;
    }
    proof {
        assert(texts.take(k as int) =~= texts);
        lemma_syntax_views_len(stack@);
    }
    if stack.len() != 1 {
        return Err(SyntaxError::UnclosedBrackets);
    }
    let tree = stack.pop().unwrap();
    proof {
        assert(stack@ =~= Seq::<SyntaxTree>::empty());
    }
    Ok(tree)
}

} // verus!
