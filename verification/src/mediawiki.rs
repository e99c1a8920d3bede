//! A lenient parser for wiki markup: free text interleaved with nested
//! template invocations `{{name|positional|key=value}}`.
//!
//! Parsing never fails. A construct that cannot be read degrades to an
//! [`Node::Error`] node, to a template cut short by the end of the input, or
//! to a token that is passed over.

use vstd::prelude::*;
use std::borrow::Cow;
use crate::text::{
    byte_len, chars_of, lemma_byte_len_step, lemma_occurs_within, lemma_trimmed, occurs, occurs_at,
    piece, trim, trimmed, utf8_len,
};

verus! {

broadcast use vstd::std_specs::vec::group_vec_axioms;

/// One node of a parsed document.
#[derive(Debug, PartialEq)]
pub enum Node<'a> {
    /// Literal text.
    Text(Cow<'a, str>),
    /// A template invocation with its arguments in source order.
    Template { name: Cow<'a, str>, arguments: Vec<TemplateArgument<'a>> },
    /// A template invocation without a name.
    Error,
}

/// One argument of a template: positional where `name` is `None`, written
/// as `key=value` otherwise.
#[derive(Debug, PartialEq)]
pub struct TemplateArgument<'a> {
    pub name: Option<Cow<'a, str>>,
    pub value: Vec<Node<'a>>,
}

/// The mathematical value of a [`Node`].
pub enum NodeView {
    Text(Seq<char>),
    Template { name: Seq<char>, arguments: Seq<ArgumentView> },
    Error,
}

/// The mathematical value of a [`TemplateArgument`].
pub struct ArgumentView {
    pub name: Option<Seq<char>>,
    pub value: Seq<NodeView>,
}

impl<'a> View for Node<'a> {
    type V = NodeView;

    open spec fn view(&self) -> NodeView
        decreases self,
    {
        match self {
            Node::Text(text) => NodeView::Text(text@),
            Node::Template { name, arguments } => NodeView::Template {
                name: name@,
                arguments: Seq::new(
                    arguments@.len(),
                    |i: int|
                        if 0 <= i < arguments@.len() {
                            arguments[i].view()
                        } else {
                            arbitrary()
                        },
                ),
            },
            Node::Error => NodeView::Error,
        }
    }
}

impl<'a> DeepView for Node<'a> {
    type V = NodeView;

    open spec fn deep_view(&self) -> NodeView {
        self.view()
    }
}

impl<'a> View for TemplateArgument<'a> {
    type V = ArgumentView;

    open spec fn view(&self) -> ArgumentView
        decreases self,
    {
        ArgumentView {
            name: match self.name {
                Some(name) => Some(name@),
                None => None,
            },
            value: Seq::new(
                self.value@.len(),
                |i: int|
                    if 0 <= i < self.value@.len() {
                        self.value[i].view()
                    } else {
                        arbitrary()
                    },
            ),
        }
    }
}

impl<'a> DeepView for TemplateArgument<'a> {
    type V = ArgumentView;

    open spec fn deep_view(&self) -> ArgumentView {
        self.view()
    }
}

/// The values of the nodes `nodes`.
pub open spec fn views(nodes: Seq<Node>) -> Seq<NodeView> {
    Seq::new(nodes.len(), |i: int| nodes[i]@)
}

/// A template's view holds the views of its arguments.
pub proof fn lemma_template_view(node: Node)
    requires
        node is Template,
    ensures
        node@ == (NodeView::Template {
            name: node->name@,
            arguments: node->arguments.deep_view(),
        }),
{
    assert(node@->arguments =~= node->arguments.deep_view());
}

/// An argument's view holds the views of its value's nodes.
pub proof fn lemma_argument_view(argument: TemplateArgument)
    ensures
        argument@.value == argument.value.deep_view(),
        argument@.name == argument.name.deep_view(),
{
    assert(argument@.value =~= argument.value.deep_view());
}

/// One lexical token of the markup.
#[derive(Debug, PartialEq, Clone, Copy)]
pub enum Token<'a> {
    /// A run of literal text.
    Text(&'a str),
    /// `{{`
    StartTemplate,
    /// `=`
    ArgumentKeyValueSeparator,
    /// `|`
    ArgumentSeparator,
    /// `}}`
    EndTemplate,
}

/// The mathematical value of a [`Token`].
pub enum TokenView {
    Text(Seq<char>),
    StartTemplate,
    ArgumentKeyValueSeparator,
    ArgumentSeparator,
    EndTemplate,
}

impl<'a> View for Token<'a> {
    type V = TokenView;

    open spec fn view(&self) -> TokenView {
        match self {
            Token::Text(text) => TokenView::Text(text@),
            Token::StartTemplate => TokenView::StartTemplate,
            Token::ArgumentKeyValueSeparator => TokenView::ArgumentKeyValueSeparator,
            Token::ArgumentSeparator => TokenView::ArgumentSeparator,
            Token::EndTemplate => TokenView::EndTemplate,
        }
    }
}

impl<'a> DeepView for Token<'a> {
    type V = TokenView;

    open spec fn deep_view(&self) -> TokenView {
        self.view()
    }
}

/// The delimiter that starts at index `i` of `s`, if there is one.
///
/// A brace is a delimiter only together with a second brace of the same
/// kind directly behind it.
pub open spec fn delimiter_at(s: Seq<char>, i: int) -> Option<TokenView> {
    if s[i] == '{' && i + 1 < s.len() && s[i + 1] == '{' {
        Some(TokenView::StartTemplate)
    } else if s[i] == '}' && i + 1 < s.len() && s[i + 1] == '}' {
        Some(TokenView::EndTemplate)
    } else if s[i] == '=' {
        Some(TokenView::ArgumentKeyValueSeparator)
    } else if s[i] == '|' {
        Some(TokenView::ArgumentSeparator)
    } else {
        None
    }
}

/// The number of characters that a delimiter takes up.
pub open spec fn width(delimiter: TokenView) -> int {
    match delimiter {
        TokenView::StartTemplate | TokenView::EndTemplate => 2,
        _ => 1,
    }
}

/// The text token for the characters `start..end` of `s`; no token for an
/// empty run.
pub open spec fn run(s: Seq<char>, start: int, end: int) -> Seq<TokenView> {
    if start < end {
        seq![TokenView::Text(s.subrange(start, end))]
    } else {
        seq![]
    }
}

/// The tokens read from index `i` of `s` on, where the text run that is
/// being collected began at index `start`.
pub open spec fn scan(s: Seq<char>, start: int, i: int) -> Seq<TokenView>
    decreases s.len() - i,
{
    if 0 <= i < s.len() {
        match delimiter_at(s, i) {
            Some(delimiter) => run(s, start, i).push(delimiter) + scan(
                s,
                i + width(delimiter),
                i + width(delimiter),
            ),
            None => scan(s, start, i + 1),
        }
    } else {
        run(s, start, s.len() as int)
    }
}

/// The tokens of the text `s`.
pub open spec fn lex(s: Seq<char>) -> Seq<TokenView> {
    scan(s, 0, 0)
}

/// The number of tokens of `ts` from index `pos` on.
pub open spec fn left(ts: Seq<TokenView>, pos: int) -> nat {
    if 0 <= pos < ts.len() {
        (ts.len() - pos) as nat
    } else {
        0
    }
}

/// The nodes of a block that starts at token `pos`; a block runs to the end
/// of the tokens.
///
/// A text token is a text node, `{{` opens a template, and any other token
/// is passed over.
pub open spec fn block(ts: Seq<TokenView>, pos: int) -> Seq<NodeView>
    decreases left(ts, pos), 0int, 0int,
{
    if 0 <= pos < ts.len() {
        match ts[pos] {
            TokenView::Text(text) => seq![NodeView::Text(text)] + block(ts, pos + 1),
            TokenView::StartTemplate => {
                let (node, used) = template(ts, pos + 1);
                seq![node] + block(ts, pos + 1 + used)
            },
            _ => block(ts, pos + 1),
        }
    } else {
        seq![]
    }
}

/// The template whose `{{` stands just before token `pos`, and the number
/// of tokens it takes up from `pos` on.
///
/// The first token has to be text: trimmed, it is the template's name. Any
/// other first token is taken up and gives [`NodeView::Error`].
pub open spec fn template(ts: Seq<TokenView>, pos: int) -> (NodeView, nat)
    decreases left(ts, pos), 0int, 3int,
{
    if 0 <= pos < ts.len() {
        match ts[pos] {
            TokenView::Text(name) => {
                let (arguments, used) = template_arguments(ts, pos + 1, false);
                (NodeView::Template { name: trimmed(name), arguments }, 1 + used)
            },
            _ => (NodeView::Error, 1),
        }
    } else {
        (NodeView::Error, 0)
    }
}

/// Whether an argument begins with the token at `pos` itself: text or `{{`
/// directly behind a `=` that was passed over.
pub open spec fn opens_argument(ts: Seq<TokenView>, pos: int, after_equals: bool) -> bool {
    after_equals && 0 <= pos < ts.len() && (ts[pos] is Text || ts[pos] is StartTemplate)
}

/// The arguments of a template from token `pos` on, up to and including
/// its `}}`, and the number of tokens they take up. `after_equals` says
/// whether the token in front of `pos` was a `=` that was passed over.
///
/// `}}` closes the template, and so does the end of the tokens. `=` is
/// passed over and starts no argument; where text or `{{` follows it, an
/// argument begins there. Any other token is taken up and an argument
/// follows it.
pub open spec fn template_arguments(ts: Seq<TokenView>, pos: int, after_equals: bool) -> (
    Seq<ArgumentView>,
    nat,
)
    decreases left(ts, pos),
        (if after_equals {
            1int
        } else {
            0int
        }),
        2int,
{
    if 0 <= pos < ts.len() {
        match ts[pos] {
            TokenView::EndTemplate => (seq![], 1),
            TokenView::ArgumentKeyValueSeparator => {
                let (rest, used) = template_arguments(ts, pos + 1, true);
                (rest, 1 + used)
            },
            _ => if opens_argument(ts, pos, after_equals) {
                let (first, used) = template_argument(ts, pos);
                let (rest, more) = template_arguments(ts, pos + used, false);
                (seq![first] + rest, used + more)
            } else {
                let (first, used) = template_argument(ts, pos + 1);
                let (rest, more) = template_arguments(ts, pos + 1 + used, false);
                (seq![first] + rest, 1 + used + more)
            },
        }
    } else {
        (seq![], 0)
    }
}

/// Whether the argument that starts at token `pos` is named: a text token
/// directly followed by `=`.
pub open spec fn is_named(ts: Seq<TokenView>, pos: int) -> bool {
    0 <= pos && pos + 1 < ts.len() && ts[pos] is Text && ts[pos + 1]
        is ArgumentKeyValueSeparator
}

/// The argument that starts at token `pos`, and the number of tokens it
/// takes up. The `|` or `}}` that ends it is not part of it.
pub open spec fn template_argument(ts: Seq<TokenView>, pos: int) -> (ArgumentView, nat)
    decreases left(ts, pos), 0int, 1int,
{
    if is_named(ts, pos) {
        let (value, used) = argument_value(ts, pos + 2);
        (ArgumentView { name: Some(trimmed(ts[pos]->Text_0)), value }, 2 + used)
    } else {
        let (value, used) = argument_value(ts, pos);
        (ArgumentView { name: None, value }, used)
    }
}

/// The nodes of an argument's value from token `pos` on, and the number of
/// tokens they take up.
///
/// The value ends in front of `|` or `}}`, or at the end of the tokens.
/// `=` is passed over.
pub open spec fn argument_value(ts: Seq<TokenView>, pos: int) -> (Seq<NodeView>, nat)
    decreases left(ts, pos), 0int, 0int,
{
    if 0 <= pos < ts.len() {
        match ts[pos] {
            TokenView::Text(text) => {
                let (rest, used) = argument_value(ts, pos + 1);
                (seq![NodeView::Text(text)] + rest, 1 + used)
            },
            TokenView::StartTemplate => {
                let (node, used) = template(ts, pos + 1);
                let (rest, more) = argument_value(ts, pos + 1 + used);
                (seq![node] + rest, 1 + used + more)
            },
            TokenView::ArgumentKeyValueSeparator => {
                let (rest, used) = argument_value(ts, pos + 1);
                (rest, 1 + used)
            },
            _ => (seq![], 0),
        }
    } else {
        (seq![], 0)
    }
}

/// The nodes of the document with the tokens `ts`.
pub open spec fn parsed(ts: Seq<TokenView>) -> Seq<NodeView> {
    block(ts, 0)
}

/// The nodes of the document with the text `s`.
pub open spec fn document(s: Seq<char>) -> Seq<NodeView> {
    parsed(lex(s))
}

/// A value never takes up more tokens than there are.
pub proof fn lemma_value_bound(ts: Seq<TokenView>, pos: int)
    ensures
        argument_value(ts, pos).1 <= left(ts, pos),
    decreases left(ts, pos), 0int, 0int,
{
    if 0 <= pos < ts.len() {
        match ts[pos] {
            TokenView::Text(_) => {
                lemma_value_bound(ts, pos + 1);
            },
            TokenView::StartTemplate => {
                lemma_template_bound(ts, pos + 1);
                lemma_value_bound(ts, pos + 1 + template(ts, pos + 1).1);
            },
            TokenView::ArgumentKeyValueSeparator => {
                lemma_value_bound(ts, pos + 1);
            },
            _ => {},
        }
    }
}

/// An argument never takes up more tokens than there are.
pub proof fn lemma_argument_bound(ts: Seq<TokenView>, pos: int)
    ensures
        template_argument(ts, pos).1 <= left(ts, pos),
    decreases left(ts, pos), 0int, 1int,
{
    if is_named(ts, pos) {
        lemma_value_bound(ts, pos + 2);
    } else {
        lemma_value_bound(ts, pos);
    }
}

/// A template's arguments never take up more tokens than there are.
pub proof fn lemma_arguments_bound(ts: Seq<TokenView>, pos: int, after_equals: bool)
    ensures
        template_arguments(ts, pos, after_equals).1 <= left(ts, pos),
    decreases left(ts, pos),
        (if after_equals {
            1int
        } else {
            0int
        }),
        2int,
{
    if 0 <= pos < ts.len() {
        match ts[pos] {
            TokenView::EndTemplate => {},
            TokenView::ArgumentKeyValueSeparator => {
                lemma_arguments_bound(ts, pos + 1, true);
            },
            _ => {
                if opens_argument(ts, pos, after_equals) {
                    lemma_argument_bound(ts, pos);
                    lemma_arguments_bound(ts, pos + template_argument(ts, pos).1, false);
                } else {
                    lemma_argument_bound(ts, pos + 1);
                    lemma_arguments_bound(ts, pos + 1 + template_argument(ts, pos + 1).1, false);
                }
            },
        }
    }
}

/// A template never takes up more tokens than there are.
pub proof fn lemma_template_bound(ts: Seq<TokenView>, pos: int)
    ensures
        template(ts, pos).1 <= left(ts, pos),
    decreases left(ts, pos), 0int, 3int,
{
    if 0 <= pos < ts.len() {
        match ts[pos] {
            TokenView::Text(_) => {
                lemma_arguments_bound(ts, pos + 1, false);
            },
            _ => {},
        }
    }
}

/// The delimiter that starts at index `i` of `chars`, with its width.
fn delimiter<'a>(chars: &Vec<char>, i: usize) -> (r: Option<(Token<'a>, usize)>)
    requires
        i < chars@.len(),
    ensures
        match r {
            Some((token, w)) => delimiter_at(chars@, i as int) == Some(token@) && w == width(
                token@,
            ) && i + w <= chars@.len(),
            None => delimiter_at(chars@, i as int) is None,
        },
{
    let n: usize = chars.len();
    let c = chars[i];
    if c == '{' && i + 1 < n && chars[i + 1] == '{' {
        Some((Token::StartTemplate, 2))
    } else if c == '}' && i + 1 < n && chars[i + 1] == '}' {
        Some((Token::EndTemplate, 2))
    } else if c == '=' {
        Some((Token::ArgumentKeyValueSeparator, 1))
    } else if c == '|' {
        Some((Token::ArgumentSeparator, 1))
    } else {
        None
    }
}

/// Splits `text` into its tokens.
///
/// A single scan from left to right: text collects until a delimiter is
/// recognised, and a non-empty run of text becomes a token in front of the
/// delimiter that ends it. A brace without a second brace behind it stays
/// part of the text.
pub fn tokenize<'a>(text: &'a str) -> (tokens: Vec<Token<'a>>)
    ensures
        tokens.deep_view() == lex(text@),
{
    let chars = chars_of(text);
    let n: usize = chars.len();
    // No byte offset below exceeds the length of the text in bytes.
    let total: usize = text.as_bytes().len();
    let mut tokens: Vec<Token<'a>> = Vec::new();
    // The run of text that is being collected begins at character `start`,
    // which is byte `start_byte`; the scan stands at character `i`, byte `at`.
    let mut start: usize = 0;
    let mut start_byte: usize = 0;
    let mut i: usize = 0;
    let mut at: usize = 0;
    assert(tokens.deep_view() + scan(text@, 0, 0) == lex(text@));
    assert(text@.take(0) == Seq::<char>::empty());
    while i < n
        invariant
            chars@ == text@,
            n == chars@.len(),
            total == byte_len(text@),
            start <= i <= n,
            start_byte == byte_len(text@.take(start as int)),
            at == byte_len(text@.take(i as int)),
            lex(text@) == tokens.deep_view() + scan(text@, start as int, i as int),
        decreases n - i,
    {
        let ghost done = tokens.deep_view();
        let found = delimiter(&chars, i);
        proof {
            lemma_byte_len_step(text@, i as int);
        }
        match found {
            Some((token, w)) => {
                if start < i {
                    let ghost before = tokens.deep_view();
                    tokens.push(
                        Token::Text(piece(text, start_byte, at, Ghost(start as int), Ghost(i as int))),
                    );
                    assert(tokens.deep_view() == before + run(text@, start as int, i as int));
                }
                assert(tokens.deep_view() == done + run(text@, start as int, i as int));
                tokens.push(token);
                assert(tokens.deep_view() == done + run(text@, start as int, i as int).push(
                    token@,
                ));
                assert((done + run(text@, start as int, i as int).push(token@)) + scan(
                    text@,
                    i + w,
                    i + w,
                ) == done + (run(text@, start as int, i as int).push(token@) + scan(
                    text@,
                    i + w,
                    i + w,
                )));
                at += utf8_len(chars[i]);
                i += 1;
                if w == 2 {
                    proof {
                        lemma_byte_len_step(text@, i as int);
                    }
                    at += utf8_len(chars[i]);
                    i += 1;
                }
                start = i;
                start_byte = at;
            },
            None => {
                at += utf8_len(chars[i]);
                i += 1;
            },
        }
    }
    if start < n {
        let ghost before = tokens.deep_view();
        assert(text@.take(n as int) == text@);
        tokens.push(Token::Text(piece(text, start_byte, at, Ghost(start as int), Ghost(n as int))));
        assert(tokens.deep_view() == before + run(text@, start as int, n as int));
    } else {
        assert(tokens.deep_view() + Seq::<TokenView>::empty() == tokens.deep_view());
    }
    tokens
}

/// The token at index `pos`, if there is one.
fn peek<'a>(tokens: &[Token<'a>], pos: usize) -> (r: Option<Token<'a>>)
    ensures
        left(tokens.deep_view(), pos as int) == 0 <==> r is None,
        r matches Some(token) ==> pos < tokens@.len() <= usize::MAX && token == tokens@[pos as int]
            && token@ == tokens.deep_view()[pos as int],
{
    if pos < tokens.len() {
        Some(tokens[pos])
    } else {
        None
    }
}

/// Parses the tokens of a document into its nodes.
pub fn parse<'a>(tokens: Vec<Token<'a>>) -> (nodes: Vec<Node<'a>>)
    ensures
        nodes.deep_view() == parsed(tokens.deep_view()),
{
    let all = tokens.as_slice();
    assert(all.deep_view() == tokens.deep_view());
    parse_block(all, 0)
}

/// Parses the block that starts at token `pos` and runs to the end of the
/// tokens.
pub fn parse_block<'a>(tokens: &[Token<'a>], pos: usize) -> (nodes: Vec<Node<'a>>)
    ensures
        nodes.deep_view() == block(tokens.deep_view(), pos as int),
{
    let ghost ts = tokens.deep_view();
    let mut nodes: Vec<Node<'a>> = Vec::new();
    let mut at: usize = pos;
    assert(nodes.deep_view() + block(ts, pos as int) == block(ts, pos as int));
    loop
        invariant
            ts == tokens.deep_view(),
            block(ts, pos as int) == nodes.deep_view() + block(ts, at as int),
        ensures
            nodes.deep_view() == block(ts, pos as int),
        decreases left(ts, at as int),
    {
        let ghost done = nodes.deep_view();
        match peek(tokens, at) {
            Some(Token::Text(text)) => {
                nodes.push(Node::Text(Cow::Borrowed(text)));
                assert(nodes.deep_view() == done.push(NodeView::Text(text@)));
                assert(done.push(NodeView::Text(text@)) + block(ts, at + 1) == done + (
                seq![NodeView::Text(text@)] + block(ts, at + 1)));
                at += 1;
            },
            Some(Token::StartTemplate) => {
                proof {
                    lemma_template_bound(ts, at + 1);
                }
                let (node, next) = parse_template(tokens, at + 1);
                nodes.push(node);
                assert(nodes.deep_view() == done.push(node@));
                assert(done.push(node@) + block(ts, next as int) == done + (seq![node@] + block(
                    ts,
                    next as int,
                )));
                at = next;
            },
            Some(_) => {
                at += 1;
            },
            None => {
                assert(done + Seq::<NodeView>::empty() == done);
                break ;
            },
        }
    }
    nodes
}

/// Parses the template whose `{{` stands just before token `pos`. Returns
/// the node and the index of the first token behind it.
///
/// The first token, trimmed, is the name; without a text token there, the
/// node is [`Node::Error`]. Behind the name `}}` or the end of the tokens
/// closes the template, `=` is passed over, and any other token is taken
/// up and an argument follows it. Text or `{{` directly behind a `=` that
/// was passed over is not taken up: the argument begins with it.
pub fn parse_template<'a>(tokens: &[Token<'a>], pos: usize) -> (r: (Node<'a>, usize))
    ensures
        r.0@ == template(tokens.deep_view(), pos as int).0,
        r.1 == pos + template(tokens.deep_view(), pos as int).1,
    decreases left(tokens.deep_view(), pos as int), 0int, 3int,
{
    let ghost ts = tokens.deep_view();
    let name: &'a str = match peek(tokens, pos) {
        Some(Token::Text(name)) => trim(name),
        Some(_) => {
            return (Node::Error, pos + 1);
        },
        None => {
            return (Node::Error, pos);
        },
    };
    let mut arguments: Vec<TemplateArgument<'a>> = Vec::new();
    let mut at: usize = pos + 1;
    // Whether the token in front of `at` was a `=` that was passed over.
    let mut after_equals = false;
    let ghost goal = template_arguments(ts, pos + 1, false);
    assert(arguments.deep_view() + goal.0 == goal.0);
    loop
        invariant_except_break
            goal.0 == arguments.deep_view() + template_arguments(ts, at as int, after_equals).0,
            pos + 1 + goal.1 == at + template_arguments(ts, at as int, after_equals).1,
        invariant
            ts == tokens.deep_view(),
            pos < at,
            pos < ts.len(),
            goal == template_arguments(ts, pos + 1, false),
        ensures
            arguments.deep_view() == goal.0,
            at == pos + 1 + goal.1,
        decreases left(ts, at as int),
            (if after_equals {
                1int
            } else {
                0int
            }),
    {
        let ghost done = arguments.deep_view();
        match peek(tokens, at) {
            Some(Token::EndTemplate) => {
                assert(done + Seq::<ArgumentView>::empty() == done);
                at += 1;
                break ;
            },
            Some(Token::ArgumentKeyValueSeparator) => {
                at += 1;
                after_equals = true;
            },
            Some(token) => {
                let opens = after_equals && match token {
                    Token::Text(_) | Token::StartTemplate => true,
                    _ => false,
                };
                let from: usize = if opens {
                    at
                } else {
                    at + 1
                };
                proof {
                    lemma_argument_bound(ts, from as int);
                }
                let (argument, next) = parse_template_argument(tokens, from);
                arguments.push(argument);
                assert(arguments.deep_view() == done.push(argument@));
                assert(done.push(argument@) + template_arguments(ts, next as int, false).0 == done
                    + (seq![argument@] + template_arguments(ts, next as int, false).0));
                at = next;
                after_equals = false;
            },
            None => {
                assert(done + Seq::<ArgumentView>::empty() == done);
                break ;
            },
        }
    }
    let node = Node::Template { name: Cow::Borrowed(name), arguments };
    proof {
        lemma_template_view(node);
    }
    (node, at)
}

/// Parses the argument that starts at token `pos`. Returns the argument and
/// the index of the `|` or `}}` that ends it.
///
/// A text token is first taken as the argument's name. Where `=` follows
/// it, the argument is named; where not, the text is the first node of the
/// value of a positional argument.
pub fn parse_template_argument<'a>(tokens: &[Token<'a>], pos: usize) -> (r: (
    TemplateArgument<'a>,
    usize,
))
    ensures
        r.0@ == template_argument(tokens.deep_view(), pos as int).0,
        r.1 == pos + template_argument(tokens.deep_view(), pos as int).1,
    decreases left(tokens.deep_view(), pos as int), 0int, 1int,
{
    let ghost ts = tokens.deep_view();
    let mut at: usize = pos;
    let mut name: Option<&'a str> = None;
    if let Some(Token::Text(text)) = peek(tokens, at) {
        name = Some(text);
        at += 1;
    }
    let mut value: Vec<Node<'a>> = Vec::new();
    if let Some(Token::ArgumentKeyValueSeparator) = peek(tokens, at) {
        at += 1;
    } else {
        if let Some(text) = name {
            value.push(Node::Text(Cow::Borrowed(text)));
            assert(value.deep_view() == seq![NodeView::Text(text@)]);
        }
        name = None;
    }
    let ghost named = is_named(ts, pos as int);
    let ghost origin: int = if named {
        pos + 2
    } else {
        pos as int
    };
    assert(value.deep_view() + argument_value(ts, at as int).0 == argument_value(ts, origin).0);
    assert(at + argument_value(ts, at as int).1 == origin + argument_value(ts, origin).1);
    loop
        invariant
            ts == tokens.deep_view(),
            pos <= at,
            pos <= origin,
            argument_value(ts, origin).0 == value.deep_view() + argument_value(ts, at as int).0,
            origin + argument_value(ts, origin).1 == at + argument_value(ts, at as int).1,
        ensures
            value.deep_view() == argument_value(ts, origin).0,
            at == origin + argument_value(ts, origin).1,
        decreases left(ts, at as int),
    {
        let ghost done = value.deep_view();
        match peek(tokens, at) {
            Some(Token::Text(text)) => {
                value.push(Node::Text(Cow::Borrowed(text)));
                assert(value.deep_view() == done.push(NodeView::Text(text@)));
                assert(done.push(NodeView::Text(text@)) + argument_value(ts, at + 1).0 == done + (
                seq![NodeView::Text(text@)] + argument_value(ts, at + 1).0));
                at += 1;
            },
            Some(Token::StartTemplate) => {
                proof {
                    lemma_template_bound(ts, at + 1);
                }
                let (node, next) = parse_template(tokens, at + 1);
                value.push(node);
                assert(value.deep_view() == done.push(node@));
                assert(done.push(node@) + argument_value(ts, next as int).0 == done + (seq![node@] + argument_value(
                    ts,
                    next as int,
                ).0));
                at = next;
            },
            Some(Token::ArgumentSeparator) | Some(Token::EndTemplate) => {
                assert(done + Seq::<NodeView>::empty() == done);
                break ;
            },
            Some(_) => {
                at += 1;
            },
            None => {
                assert(done + Seq::<NodeView>::empty() == done);
                break ;
            },
        }
    }
    let argument = TemplateArgument {
        name: match name {
            Some(name) => Some(Cow::Borrowed(trim(name))),
            None => None,
        },
        value,
    };
    proof {
        lemma_argument_view(argument);
    }
    (argument, at)
}

/// Parses the markup `input` into the nodes of the document.
pub fn parse_mediawiki(input: &str) -> (nodes: Vec<Node<'_>>)
    ensures
        nodes.deep_view() == document(input@),
{
    parse(tokenize(input))
}

/// Whether `c` is one of the four characters that delimiters are made of.
pub open spec fn is_markup(c: char) -> bool {
    c == '{' || c == '}' || c == '|' || c == '='
}

/// Scanning text that holds no markup character yields the pending run and
/// nothing else.
pub proof fn lemma_scan_plain(s: Seq<char>, start: int, i: int)
    requires
        forall|k: int| 0 <= k < s.len() ==> !is_markup(#[trigger] s[k]),
        0 <= i,
    ensures
        scan(s, start, i) == run(s, start, s.len() as int),
    decreases s.len() - i,
{
    if i < s.len() {
        assert(!is_markup(s[i]));
        lemma_scan_plain(s, start, i + 1);
    }
}

/// Text that holds none of `{`, `}`, `|`, `=` parses to itself: to one text
/// node that holds all of it, or to no node where the text is empty.
pub proof fn lemma_plain_text_document(s: Seq<char>)
    requires
        forall|k: int| 0 <= k < s.len() ==> !is_markup(#[trigger] s[k]),
    ensures
        document(s) == if s.len() > 0 {
            seq![NodeView::Text(s)]
        } else {
            Seq::<NodeView>::empty()
        },
{
    lemma_scan_plain(s, 0, 0);
    if s.len() > 0 {
        let ts = seq![TokenView::Text(s)];
        assert(s.subrange(0, s.len() as int) == s);
        assert(lex(s) == ts);
        assert(block(ts, 1) == Seq::<NodeView>::empty());
        assert(block(ts, 0) == seq![NodeView::Text(s)] + block(ts, 1));
    }
}

/// A copy of a string field: a borrowed one borrows the same text, an owned
/// one is copied.
fn copy_text<'a>(text: &Cow<'a, str>) -> (r: Cow<'a, str>)
    ensures
        r@ == text@,
{
    match text {
        Cow::Borrowed(borrowed) => Cow::Borrowed(*borrowed),
        Cow::Owned(owned) => Cow::Owned(owned.clone()),
    }
}

/// A copy of `node` with the same value.
fn copy_node<'a>(node: &Node<'a>) -> (r: Node<'a>)
    ensures
        r@ == node@,
    decreases node,
{
    match node {
        Node::Text(text) => Node::Text(copy_text(text)),
        Node::Template { name, arguments } => {
            let mut copies: Vec<TemplateArgument<'a>> = Vec::new();
            let mut k: usize = 0;
            while k < arguments.len()
                invariant
                    k <= arguments@.len(),
                    *node matches Node::Template { arguments: a, .. } && a == arguments,
                    copies.deep_view() == arguments.deep_view().take(k as int),
                decreases arguments@.len() - k,
            {
                let argument = &arguments[k];
                let copy = TemplateArgument {
                    name: match &argument.name {
                        Some(name) => Some(copy_text(name)),
                        None => None,
                    },
                    value: copy_nodes(&argument.value),
                };
                proof {
                    lemma_argument_view(copy);
                    lemma_argument_view(*argument);
                    assert(copy@ == argument@);
                }
                let ghost before = copies.deep_view();
                copies.push(copy);
                assert(copies.deep_view() == before.push(copy@));
                assert(arguments.deep_view().take(k + 1) == arguments.deep_view().take(
                    k as int,
                ).push(argument@));
                k += 1;
            }
            assert(arguments.deep_view().take(k as int) == arguments.deep_view());
            let copy = Node::Template { name: copy_text(name), arguments: copies };
            proof {
                lemma_template_view(copy);
                lemma_template_view(*node);
            }
            copy
        },
        Node::Error => Node::Error,
    }
}

/// Copies of `nodes` with the same values.
fn copy_nodes<'a>(nodes: &Vec<Node<'a>>) -> (r: Vec<Node<'a>>)
    ensures
        r.deep_view() == nodes.deep_view(),
    decreases nodes,
{
    let mut copies: Vec<Node<'a>> = Vec::new();
    let mut k: usize = 0;
    while k < nodes.len()
        invariant
            k <= nodes@.len(),
            copies.deep_view() == nodes.deep_view().take(k as int),
        decreases nodes@.len() - k,
    {
        let copy = copy_node(&nodes[k]);
        let ghost before = copies.deep_view();
        copies.push(copy);
        assert(copies.deep_view() == before.push(copy@));
        assert(nodes.deep_view().take(k + 1) == nodes.deep_view().take(k as int).push(
            nodes@[k as int]@,
        ));
        k += 1;
    }
    assert(nodes.deep_view().take(k as int) == nodes.deep_view());
    copies
}

impl<'a> Clone for Node<'a> {
    fn clone(&self) -> (r: Self)
        ensures
            r@ == self@,
    {
        copy_node(self)
    }
}

impl<'a> Clone for TemplateArgument<'a> {
    fn clone(&self) -> (r: Self)
        ensures
            r@ == self@,
    {
        let copy = TemplateArgument {
            name: match &self.name {
                Some(name) => Some(copy_text(name)),
                None => None,
            },
            value: copy_nodes(&self.value),
        };
        proof {
            lemma_argument_view(copy);
            lemma_argument_view(*self);
        }
        copy
    }
}

/// Whether `t` could be a run of text between delimiters: it is not empty
/// and no delimiter starts in it, so that it holds no `|`, `=`, `{{` or
/// `}}`.
pub open spec fn is_run(t: Seq<char>) -> bool {
    t.len() > 0 && forall|k: int| 0 <= k < t.len() ==> (#[trigger] delimiter_at(t, k)) is None
}

/// Whether a text token holds a run of text that is a part of `s`.
pub open spec fn token_in(s: Seq<char>, token: TokenView) -> bool {
    token matches TokenView::Text(t) ==> is_run(t) && occurs(s, t)
}

/// Whether the node `node` and every node below it is well formed for the
/// text `s`: a text node holds a run of text of `s`, and a name is a
/// trimmed part of `s`.
pub open spec fn well_formed(node: NodeView, s: Seq<char>) -> bool
    decreases node,
{
    match node {
        NodeView::Text(t) => is_run(t) && occurs(s, t),
        NodeView::Template { name, arguments } => trimmed(name) == name && occurs(s, name)
            && forall|i: int|
            0 <= i < arguments.len() ==> well_formed_argument(#[trigger] arguments[i], s),
        NodeView::Error => true,
    }
}

/// Whether the argument's name, if it has one, is a trimmed part of `s`,
/// and every node of its value is well formed for `s`.
pub open spec fn well_formed_argument(argument: ArgumentView, s: Seq<char>) -> bool
    decreases argument,
{
    &&& argument.name matches Some(name) ==> trimmed(name) == name && occurs(s, name)
    &&& forall|i: int|
        0 <= i < argument.value.len() ==> well_formed(#[trigger] argument.value[i], s)
}

/// Whether every node of `nodes` is well formed for `s`.
pub open spec fn all_well_formed(nodes: Seq<NodeView>, s: Seq<char>) -> bool {
    forall|i: int| 0 <= i < nodes.len() ==> well_formed(#[trigger] nodes[i], s)
}

/// Whether every argument of `arguments` is well formed for `s`.
pub open spec fn all_well_formed_arguments(arguments: Seq<ArgumentView>, s: Seq<char>) -> bool {
    forall|i: int| 0 <= i < arguments.len() ==> well_formed_argument(#[trigger] arguments[i], s)
}

/// Whether every text token of `ts` holds a run of text of `s`.
pub open spec fn tokens_in(s: Seq<char>, ts: Seq<TokenView>) -> bool {
    forall|i: int| 0 <= i < ts.len() ==> token_in(s, #[trigger] ts[i])
}

/// The characters `start..end` of `s`, none of which starts a delimiter,
/// make a run of text.
proof fn lemma_run(s: Seq<char>, start: int, end: int)
    requires
        0 <= start <= end <= s.len(),
        forall|k: int| start <= k < end ==> (#[trigger] delimiter_at(s, k)) is None,
    ensures
        tokens_in(s, run(s, start, end)),
{
    if start < end {
        let t = s.subrange(start, end);
        assert forall|k: int| 0 <= k < t.len() implies (#[trigger] delimiter_at(t, k)) is None by {
            assert(delimiter_at(s, start + k) is None);
        }
        assert(occurs_at(s, t, start));
    }
}

/// Every text token that scanning gives holds a run of text of `s`.
proof fn lemma_scan_tokens(s: Seq<char>, start: int, i: int)
    requires
        0 <= start <= i <= s.len(),
        forall|k: int| start <= k < i ==> (#[trigger] delimiter_at(s, k)) is None,
    ensures
        tokens_in(s, scan(s, start, i)),
    decreases s.len() - i,
{
    if i < s.len() {
        match delimiter_at(s, i) {
            Some(delimiter) => {
                let next = i + width(delimiter);
                lemma_run(s, start, i);
                lemma_scan_tokens(s, next, next);
                let head = run(s, start, i).push(delimiter);
                assert(tokens_in(s, head)) by {
                    assert forall|j: int| 0 <= j < head.len() implies token_in(
                        s,
                        #[trigger] head[j],
                    ) by {
                        if j < run(s, start, i).len() {
                            assert(head[j] == run(s, start, i)[j]);
                        }
                    }
                }
                let rest = scan(s, next, next);
                assert forall|j: int| 0 <= j < (head + rest).len() implies token_in(
                    s,
                    #[trigger] (head + rest)[j],
                ) by {
                    if j < head.len() {
                        assert((head + rest)[j] == head[j]);
                    } else {
                        assert((head + rest)[j] == rest[j - head.len()]);
                    }
                }
            },
            None => {
                lemma_scan_tokens(s, start, i + 1);
            },
        }
    } else {
        lemma_run(s, start, s.len() as int);
    }
}

/// Every text token of a text holds a run of that text: it is not empty,
/// holds no `|`, `=`, `{{` or `}}`, and is a part of the text.
pub proof fn lemma_lex_tokens(s: Seq<char>)
    ensures
        tokens_in(s, lex(s)),
{
    lemma_scan_tokens(s, 0, 0);
}

/// A well-formed node in front of well-formed nodes gives well-formed
/// nodes.
proof fn lemma_well_formed_cons(first: NodeView, rest: Seq<NodeView>, s: Seq<char>)
    requires
        well_formed(first, s),
        all_well_formed(rest, s),
    ensures
        all_well_formed(seq![first] + rest, s),
{
    let all = seq![first] + rest;
    assert forall|i: int| 0 <= i < all.len() implies well_formed(#[trigger] all[i], s) by {
        if i > 0 {
            assert(all[i] == rest[i - 1]);
        }
    }
}

/// A well-formed argument in front of well-formed arguments gives
/// well-formed arguments.
proof fn lemma_well_formed_arguments_cons(
    first: ArgumentView,
    rest: Seq<ArgumentView>,
    s: Seq<char>,
)
    requires
        well_formed_argument(first, s),
        all_well_formed_arguments(rest, s),
    ensures
        all_well_formed_arguments(seq![first] + rest, s),
{
    let all = seq![first] + rest;
    assert forall|i: int| 0 <= i < all.len() implies well_formed_argument(
        #[trigger] all[i],
        s,
    ) by {
        if i > 0 {
            assert(all[i] == rest[i - 1]);
        }
    }
}

/// The trimmed text of a text token of `s` is a trimmed part of `s`.
proof fn lemma_name(s: Seq<char>, t: Seq<char>)
    requires
        occurs(s, t),
    ensures
        trimmed(trimmed(t)) == trimmed(t),
        occurs(s, trimmed(t)),
{
    lemma_trimmed(t);
    lemma_occurs_within(s, t, trimmed(t));
}

/// The nodes of a value are well formed.
proof fn lemma_value_well_formed(ts: Seq<TokenView>, s: Seq<char>, pos: int)
    requires
        tokens_in(s, ts),
    ensures
        all_well_formed(argument_value(ts, pos).0, s),
    decreases left(ts, pos), 0int, 0int,
{
    if 0 <= pos < ts.len() {
        assert(token_in(s, ts[pos]));
        match ts[pos] {
            TokenView::Text(text) => {
                lemma_value_well_formed(ts, s, pos + 1);
                lemma_well_formed_cons(NodeView::Text(text), argument_value(ts, pos + 1).0, s);
            },
            TokenView::StartTemplate => {
                let (node, used) = template(ts, pos + 1);
                lemma_template_well_formed(ts, s, pos + 1);
                lemma_value_well_formed(ts, s, pos + 1 + used);
                lemma_well_formed_cons(node, argument_value(ts, pos + 1 + used).0, s);
            },
            TokenView::ArgumentKeyValueSeparator => {
                lemma_value_well_formed(ts, s, pos + 1);
            },
            _ => {},
        }
    }
}

/// An argument is well formed.
proof fn lemma_argument_well_formed(ts: Seq<TokenView>, s: Seq<char>, pos: int)
    requires
        tokens_in(s, ts),
    ensures
        well_formed_argument(template_argument(ts, pos).0, s),
    decreases left(ts, pos), 0int, 1int,
{
    if is_named(ts, pos) {
        assert(token_in(s, ts[pos]));
        lemma_name(s, ts[pos]->Text_0);
        lemma_value_well_formed(ts, s, pos + 2);
    } else {
        lemma_value_well_formed(ts, s, pos);
    }
}

/// The arguments of a template are well formed.
proof fn lemma_arguments_well_formed(ts: Seq<TokenView>, s: Seq<char>, pos: int, after_equals: bool)
    requires
        tokens_in(s, ts),
    ensures
        all_well_formed_arguments(template_arguments(ts, pos, after_equals).0, s),
    decreases left(ts, pos),
        (if after_equals {
            1int
        } else {
            0int
        }),
        2int,
{
    if 0 <= pos < ts.len() {
        match ts[pos] {
            TokenView::EndTemplate => {},
            TokenView::ArgumentKeyValueSeparator => {
                lemma_arguments_well_formed(ts, s, pos + 1, true);
            },
            _ => {
                let from = if opens_argument(ts, pos, after_equals) {
                    pos
                } else {
                    pos + 1
                };
                let (first, used) = template_argument(ts, from);
                lemma_argument_well_formed(ts, s, from);
                lemma_arguments_well_formed(ts, s, from + used, false);
                lemma_well_formed_arguments_cons(
                    first,
                    template_arguments(ts, from + used, false).0,
                    s,
                );
            },
        }
    }
}

/// A template is well formed.
proof fn lemma_template_well_formed(ts: Seq<TokenView>, s: Seq<char>, pos: int)
    requires
        tokens_in(s, ts),
    ensures
        well_formed(template(ts, pos).0, s),
    decreases left(ts, pos), 0int, 3int,
{
    if 0 <= pos < ts.len() {
        assert(token_in(s, ts[pos]));
        match ts[pos] {
            TokenView::Text(name) => {
                lemma_name(s, name);
                lemma_arguments_well_formed(ts, s, pos + 1, false);
            },
            _ => {},
        }
    }
}

/// The nodes of a block are well formed.
proof fn lemma_block_well_formed(ts: Seq<TokenView>, s: Seq<char>, pos: int)
    requires
        tokens_in(s, ts),
    ensures
        all_well_formed(block(ts, pos), s),
    decreases left(ts, pos), 0int, 0int,
{
    if 0 <= pos < ts.len() {
        assert(token_in(s, ts[pos]));
        match ts[pos] {
            TokenView::Text(text) => {
                lemma_block_well_formed(ts, s, pos + 1);
                lemma_well_formed_cons(NodeView::Text(text), block(ts, pos + 1), s);
            },
            TokenView::StartTemplate => {
                let (node, used) = template(ts, pos + 1);
                lemma_template_well_formed(ts, s, pos + 1);
                lemma_block_well_formed(ts, s, pos + 1 + used);
                lemma_well_formed_cons(node, block(ts, pos + 1 + used), s);
            },
            _ => {
                lemma_block_well_formed(ts, s, pos + 1);
            },
        }
    }
}

/// Whatever the text, its document is well formed, at every depth: the
/// text of a text node is a part of the text that is not empty and holds
/// no `|`, `=`, `{{` or `}}`, and the name of a template or of an argument
/// is a part of the text that trimming leaves as it is.
pub proof fn lemma_document_well_formed(s: Seq<char>)
    ensures
        all_well_formed(document(s), s),
{
    lemma_lex_tokens(s);
    lemma_block_well_formed(lex(s), s, 0);
}

} // verus!
