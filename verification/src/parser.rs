//! Building the syntax tree of a command line from its tokens: commands
//! joined by pipes, with their outputs redirected to files.
use vstd::prelude::*;
use crate::command::{Command, CommandSpec};
use crate::lexer::{Token, TokenSpec, token_views};

verus! {

/// A node of the syntax tree, in the abstract.
pub enum NodeSpec {
    Leaf(CommandSpec),
    Pipe { left: Box<NodeSpec>, right: Box<NodeSpec> },
    RedirectStdout { source: Box<NodeSpec>, target: Seq<char> },
    RedirectStderr { source: Box<NodeSpec>, target: Seq<char> },
}

/// A node of the syntax tree of a command line.
#[derive(Debug, PartialEq)]
pub enum Node {
    Leaf(Command),
    Pipe { left: Box<Node>, right: Box<Node> },
    RedirectStdout { source: Box<Node>, target: String },
    RedirectStderr { source: Box<Node>, target: String },
}

/// The abstract tree of `n`.
pub open spec fn node_view(n: Node) -> NodeSpec
    decreases n,
{
    match n {
        Node::Leaf(c) => NodeSpec::Leaf(c@),
        Node::Pipe { left, right } => NodeSpec::Pipe {
            left: Box::new(node_view(*left)),
            right: Box::new(node_view(*right)),
        },
        Node::RedirectStdout { source, target } => NodeSpec::RedirectStdout {
            source: Box::new(node_view(*source)),
            target: target@,
        },
        Node::RedirectStderr { source, target } => NodeSpec::RedirectStderr {
            source: Box::new(node_view(*source)),
            target: target@,
        },
    }
}

impl View for Node {
    type V = NodeSpec;

    open spec fn view(&self) -> NodeSpec {
        node_view(*self)
    }
}

/// The command of the token at `pos`, if that token is a command.
pub open spec fn command_at(t: Seq<TokenSpec>, pos: int) -> Option<CommandSpec> {
    if 0 <= pos < t.len() {
        match t[pos] {
            TokenSpec::Node(c) => Some(c),
            _ => None,
        }
    } else {
        None
    }
}

/// The position after taking the token at `pos`, if there is one.
pub open spec fn next_pos(t: Seq<TokenSpec>, pos: int) -> int {
    if 0 <= pos < t.len() {
        pos + 1
    } else {
        pos
    }
}

/// The tree that the operators from `pos` on build around `head`. A pipe
/// must be followed by a command; a redirection takes the next token, which
/// becomes its target if it is a path and is passed over otherwise; any
/// other token ends the tree.
pub open spec fn parse_ops(t: Seq<TokenSpec>, pos: int, head: NodeSpec) -> Result<NodeSpec, ()>
    decreases t.len() - pos,
{
    if pos < 0 || pos >= t.len() {
        Ok(head)
    } else {
        match t[pos] {
            TokenSpec::Pipe => match command_at(t, pos + 1) {
                Some(c) => parse_ops(
                    t,
                    pos + 2,
                    NodeSpec::Pipe { left: Box::new(head), right: Box::new(NodeSpec::Leaf(c)) },
                ),
                None => Err(()),
            },
            TokenSpec::RedirectStdout => if pos + 1 < t.len() && t[pos + 1] is Path {
                parse_ops(
                    t,
                    pos + 2,
                    NodeSpec::RedirectStdout { source: Box::new(head), target: t[pos + 1]->Path_0 },
                )
            } else {
                parse_ops(t, next_pos(t, pos + 1), head)
            },
            TokenSpec::RedirectStderr => if pos + 1 < t.len() && t[pos + 1] is Path {
                parse_ops(
                    t,
                    pos + 2,
                    NodeSpec::RedirectStderr { source: Box::new(head), target: t[pos + 1]->Path_0 },
                )
            } else {
                parse_ops(t, next_pos(t, pos + 1), head)
            },
            _ => Ok(head),
        }
    }
}

/// Reading operators stops at `pos`: the tokens end there, or the token
/// there is neither a pipe nor a redirection (a command, a path or `>>`).
pub open spec fn stopped(t: Seq<TokenSpec>, pos: int) -> bool {
    pos >= t.len() || !(t[pos] is Pipe || t[pos] is RedirectStdout || t[pos] is RedirectStderr)
}

/// The tree of the tokens from `pos` on: a command, then operators.
pub open spec fn parse_from(t: Seq<TokenSpec>, pos: int) -> Result<NodeSpec, ()> {
    match command_at(t, pos) {
        Some(c) => parse_ops(t, pos + 1, NodeSpec::Leaf(c)),
        None => Err(()),
    }
}

/// The syntax tree of the tokens `t`; `Err` where the tokens do not start
/// with a command or a pipe is not followed by one.
pub open spec fn syntax_tree(t: Seq<TokenSpec>) -> Result<NodeSpec, ()> {
    parse_from(t, 0)
}

/// `r` is the outcome `expected` describes: the same tree, or the error
/// for input that ended too early.
pub open spec fn outcome(r: Result<Node, String>, expected: Result<NodeSpec, ()>) -> bool {
    match r {
        Ok(n) => expected == Ok::<NodeSpec, ()>(n@),
        Err(e) => expected is Err && e@ == "Unexpected end of input"@,
    }
}

impl Token {
    /// A copy of this token.
    pub fn copy(&self) -> (r: Token)
        ensures
            r@ == self@,
    {
        match self {
            Token::Node(c) => Token::Node(c.copy()),
            Token::Path(p) => Token::Path(p.clone()),
            Token::Pipe => Token::Pipe,
            Token::RedirectStdout => Token::RedirectStdout,
            Token::RedirectStderr => Token::RedirectStderr,
            Token::AppendStdout => Token::AppendStdout,
        }
    }
}

/// Reads tokens in order.
#[derive(Debug, PartialEq)]
pub struct Parser {
    tokens: Vec<Token>,
    position: usize,
}

impl Parser {
    /// The tokens, in the abstract.
    pub closed spec fn toks(&self) -> Seq<TokenSpec> {
        token_views(self.tokens@)
    }

    /// The position of the next token.
    pub closed spec fn pos(&self) -> nat {
        self.position as nat
    }

    /// A parser at the first of `tokens`.
    pub fn new(tokens: Vec<Token>) -> (p: Parser)
        ensures
            p.toks() == token_views(tokens@),
            p.pos() == 0,
    {
        Parser { tokens, position: 0 }
    }

    /// Passes over the current token.
    pub fn move_next(&mut self)
        requires
            old(self).pos() < usize::MAX,
        ensures
            final(self).toks() == old(self).toks(),
            final(self).pos() == old(self).pos() + 1,
    {
        self.position = self.position + 1;
    }

    /// The current token, if any is left.
    pub fn get_current(&self) -> (r: Option<&Token>)
        ensures
            r is Some <==> 0 <= self.pos() < self.toks().len(),
            r matches Some(t) ==> t@ == self.toks()[self.pos() as int],
    {
        if self.position < self.tokens.len() {
            Some(&self.tokens[self.position])
        } else {
            None
        }
    }

    /// Takes the current token, if any is left.
    pub fn consume(&mut self) -> (r: Option<Token>)
        ensures
            final(self).toks() == old(self).toks(),
            final(self).pos() == next_pos(old(self).toks(), old(self).pos() as int),
            r is Some <==> 0 <= old(self).pos() < old(self).toks().len(),
            r matches Some(t) ==> t@ == old(self).toks()[old(self).pos() as int],
    {
        if self.position < self.tokens.len() {
            let t = self.tokens[self.position].copy();
            self.position = self.position + 1;
            Some(t)
        } else {
            None
        }
    }
}

/// The syntax tree of `tokens`: the first command, with the pipes and
/// redirections that follow it applied in order from left to right.
pub fn build_ast(tokens: Vec<Token>) -> (r: Result<Node, String>)
    ensures
        outcome(r, syntax_tree(token_views(tokens@))),
{
    let mut parser = Parser::new(tokens);
    parse_operator(&mut parser)
}

/// The command at the parser's position, as a leaf.
pub fn parse_command(parser: &mut Parser) -> (r: Result<Node, String>)
    ensures
        final(parser).toks() == old(parser).toks(),
        final(parser).pos() == next_pos(old(parser).toks(), old(parser).pos() as int),
        match command_at(old(parser).toks(), old(parser).pos() as int) {
            Some(c) => r matches Ok(n) && n@ == NodeSpec::Leaf(c),
            None => r matches Err(e) && e@ == "Unexpected end of input"@,
        },
{
    if let Some(Token::Node(command)) = parser.consume() {
        return Ok(Node::Leaf(command));
    }
    Err("Unexpected end of input".to_string())
}

/// The tree of the tokens from the parser's position on.
pub fn parse_operator(parser: &mut Parser) -> (r: Result<Node, String>)
    requires
        old(parser).pos() <= old(parser).toks().len(),
    ensures
        outcome(r, parse_from(old(parser).toks(), old(parser).pos() as int)),
        final(parser).toks() == old(parser).toks(),
        final(parser).pos() <= final(parser).toks().len(),
        r is Ok ==> stopped(final(parser).toks(), final(parser).pos() as int),
{
    let ghost t = parser.toks();
    let ghost goal = parse_from(t, parser.pos() as int);
    let n = parser.tokens.len();
    assert(t.len() == n);
    let mut head = match parse_command(parser) {
        Ok(n) => n,
        Err(e) => {
            return Err(e);
        },
    };
    loop
        invariant
            parser.toks() == t,
            t == old(parser).toks(),
            0 <= parser.pos() <= t.len(),
            t.len() <= usize::MAX,
            goal == parse_ops(t, parser.pos() as int, head@),
            goal == parse_from(old(parser).toks(), old(parser).pos() as int),
        ensures
            goal == Ok::<NodeSpec, ()>(head@),
            stopped(t, parser.pos() as int),
        decreases t.len() - parser.pos(),
    {
        let ghost pos: int = parser.pos() as int;
        match parser.get_current() {
            Some(Token::Pipe) => {
                assert(t[pos] == TokenSpec::Pipe);
                parser.move_next();
                let right = match parse_command(parser) {
                    Ok(n) => n,
                    Err(e) => {
                        assert(command_at(t, pos + 1) is None);
                        assert(goal is Err);
                        return Err(e);
                    },
                };
                head = Node::Pipe { left: Box::new(head), right: Box::new(right) };
            },
            Some(Token::RedirectStdout) => {
                parser.move_next();
                if let Some(Token::Path(path)) = parser.consume() {
                    head = Node::RedirectStdout { source: Box::new(head), target: path };
                }
            },
            Some(Token::RedirectStderr) => {
                parser.move_next();
                if let Some(Token::Path(path)) = parser.consume() {
                    head = Node::RedirectStderr { source: Box::new(head), target: path };
                }
            },
            _ => {
                assert(pos >= t.len() || !(t[pos] is Pipe || t[pos] is RedirectStdout
                    || t[pos] is RedirectStderr));
                assert(goal == Ok::<NodeSpec, ()>(head@));
                break ;
            },
        }
    }
    Ok(head)
}

} // verus!
