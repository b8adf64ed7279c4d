//! The parser of Marin source files: it reads the tokens that lexing the
//! source gave, each with its span (`None` where the lexer met a sequence of
//! characters that makes no token), and builds the syntax tree. It never
//! stops on an error: it reports it and goes on.

use vstd::prelude::*;
use vstd::utf8::is_char_boundary;
use vstd::string::StringSliceAdditionalSpecFns;
use crate::com::token::Token;
use crate::com::ast::{self, BinOp, UnOp, Expr, Lexeme};
use crate::com::ast::bin_op::spec_precedence;
use crate::com::ast::span::{
    lies_within, expr_span, exprs_span, label_span, branch_span, else_span, cases_span, queries_span, fields_span,
    value_fields_span, class_items_span, opt_expr_span, or_default, lemma_exprs_span_covers, lemma_mix2_within, lemma_mix3_within,
    lemma_mix4_within, lemma_mix5_within,
};
use crate::com::loc::{Loc, Span};
use crate::com::reporting::{Header, Label, Report};

verus! {

/// Whether `lexed` is what lexing the text whose bytes are `bytes` can give:
/// each span lies within the text, on character boundaries, and each
/// starts no earlier than the one before it ends; the end of the text is
/// not among the tokens.
pub open spec fn lexed_ok(bytes: Seq<u8>, lexed: Seq<(Option<Token>, Span)>) -> bool {
    &&& forall|i: int| 0 <= i < lexed.len() ==> {
        let s = (#[trigger] lexed[i]).1;
        &&& s.start <= s.end <= bytes.len()
        &&& is_char_boundary(bytes, s.start as int)
        &&& is_char_boundary(bytes, s.end as int)
    }
    &&& forall|i: int, j: int| 0 <= i < j < lexed.len() ==> (#[trigger] lexed[i]).1.end <= (#[trigger] lexed[j]).1.start
    &&& forall|i: int| 0 <= i < lexed.len() ==> (#[trigger] lexed[i]).0 != Some(Token::Eof)
}

/// Whether `t` is an operator that may stand before an expression.
pub open spec fn is_unary_token(t: Token) -> bool {
    t == Token::Add || t == Token::Sub || t == Token::BitNeg || t == Token::Not
}

/// The binary operator that `t` stands for, if any.
pub open spec fn binary_op_of(t: Token) -> Option<BinOp> {
    match t {
        Token::Add => Some(BinOp::Add),
        Token::Sub => Some(BinOp::Sub),
        Token::Div => Some(BinOp::Div),
        Token::Mul => Some(BinOp::Mul),
        Token::Mod => Some(BinOp::Mod),
        Token::Eq => Some(BinOp::Eq),
        Token::Ne => Some(BinOp::Ne),
        Token::LeftChev => Some(BinOp::Lt),
        Token::Le => Some(BinOp::Le),
        Token::RightChev => Some(BinOp::Gt),
        Token::Ge => Some(BinOp::Ge),
        Token::BitAnd => Some(BinOp::BitAnd),
        Token::BitOr => Some(BinOp::BitOr),
        Token::BitXor => Some(BinOp::BitXor),
        Token::And => Some(BinOp::And),
        Token::Or => Some(BinOp::Or),
        Token::Xor => Some(BinOp::Xor),
        _ => None,
    }
}

/// The unary operator that `t` stands for, if any.
pub open spec fn unary_op_of(t: Token) -> Option<UnOp> {
    match t {
        Token::Add => Some(UnOp::Pos),
        Token::Sub => Some(UnOp::Neg),
        Token::BitNeg => Some(UnOp::BitNeg),
        Token::Not => Some(UnOp::Not),
        _ => None,
    }
}

/// Each operator token names its own binary operator: `<` is less-than,
/// `>` greater-than, `-` subtraction, `and` logical conjunction, and so on;
/// no other token stands between two operands.
pub proof fn lemma_binary_operator_tokens(t: Token)
    ensures
        t == Token::Add ==> binary_op_of(t) == Some(BinOp::Add),
        t == Token::Sub ==> binary_op_of(t) == Some(BinOp::Sub),
        t == Token::Div ==> binary_op_of(t) == Some(BinOp::Div),
        t == Token::Mul ==> binary_op_of(t) == Some(BinOp::Mul),
        t == Token::Mod ==> binary_op_of(t) == Some(BinOp::Mod),
        t == Token::Eq ==> binary_op_of(t) == Some(BinOp::Eq),
        t == Token::Ne ==> binary_op_of(t) == Some(BinOp::Ne),
        t == Token::LeftChev ==> binary_op_of(t) == Some(BinOp::Lt),
        t == Token::Le ==> binary_op_of(t) == Some(BinOp::Le),
        t == Token::RightChev ==> binary_op_of(t) == Some(BinOp::Gt),
        t == Token::Ge ==> binary_op_of(t) == Some(BinOp::Ge),
        t == Token::BitAnd ==> binary_op_of(t) == Some(BinOp::BitAnd),
        t == Token::BitOr ==> binary_op_of(t) == Some(BinOp::BitOr),
        t == Token::BitXor ==> binary_op_of(t) == Some(BinOp::BitXor),
        t == Token::And ==> binary_op_of(t) == Some(BinOp::And),
        t == Token::Or ==> binary_op_of(t) == Some(BinOp::Or),
        t == Token::Xor ==> binary_op_of(t) == Some(BinOp::Xor),
        t != Token::Add && t != Token::Sub && t != Token::Div && t != Token::Mul && t != Token::Mod && t != Token::Eq && t != Token::Ne && t != Token::LeftChev && t != Token::Le && t != Token::RightChev && t != Token::Ge && t != Token::BitAnd && t != Token::BitOr && t != Token::BitXor && t != Token::And && t != Token::Or && t != Token::Xor ==> binary_op_of(t) is None,
{
}

/// Each operator token names its own unary operator: `not` is logical
/// negation, `~` bitwise negation, `-` arithmetic negation and `+` the
/// identity; no other token stands before an operand.
pub proof fn lemma_unary_operator_tokens(t: Token)
    ensures
        t == Token::Not ==> unary_op_of(t) == Some(UnOp::Not),
        t == Token::BitNeg ==> unary_op_of(t) == Some(UnOp::BitNeg),
        t == Token::Sub ==> unary_op_of(t) == Some(UnOp::Neg),
        t == Token::Add ==> unary_op_of(t) == Some(UnOp::Pos),
        t != Token::Not && t != Token::BitNeg && t != Token::Sub && t != Token::Add ==> unary_op_of(t) is None,
{
}

/// Whether `t` starts a conditional: its first branch's keyword.
pub open spec fn starts_branch(t: Token) -> bool {
    t == Token::If || t == Token::While || t == Token::Loop || t == Token::Match
}

/// Whether an expression can start with `t`.
pub open spec fn starts_expression(t: Token) -> bool {
    ||| is_unary_token(t)
    ||| starts_branch(t)
    ||| t == Token::Int || t == Token::Float || t == Token::String || t == Token::Builtin
    ||| t == Token::True || t == Token::False || t == Token::Underscores || t == Token::Ident
    ||| t == Token::LeftParen || t == Token::LeftBracket || t == Token::LeftBrace
    ||| t == Token::Do || t == Token::Break || t == Token::Skip || t == Token::Fun
    ||| t == Token::Let || t == Token::Pub || t == Token::Alias || t == Token::Import
    ||| t == Token::Super || t == Token::Record || t == Token::Union || t == Token::Class
    ||| t == Token::Have
}

/// Whether the operations on the outer spine of `e` are grouped as
/// precedence climbing from level `prec` groups them: each operator binds at
/// least as tightly as `prec`; its right operand holds only operators that
/// bind at least as tightly as it does, so that operators of one level group
/// to the right; and an operation that stands as its left operand binds
/// strictly tighter, unless that operation's right operand is missing.
pub open spec fn grouped_at(e: Expr, prec: nat) -> bool
    decreases e,
{
    match e {
        Expr::Binary(b) => {
            &&& spec_precedence(b.op) >= prec
            &&& grouped_at(*b.left, prec)
            &&& grouped_at(*b.right, spec_precedence(b.op))
            &&& match *b.left {
                Expr::Binary(l) => spec_precedence(l.op) > spec_precedence(b.op) || *l.right is Missing,
                _ => true,
            }
        },
        _ => true,
    }
}

/// Whether the token `t` is no binary operator that binds at least as
/// tightly as `prec`.
pub open spec fn stops_at(t: Token, prec: nat) -> bool {
    binary_op_of(t) matches Some(o) ==> spec_precedence(o) < prec
}

/// The first token of `lexed` that is a token, not a sequence that makes
/// none; the end of file where there is no such token.
pub open spec fn first_token(lexed: Seq<(Option<Token>, Span)>) -> Token
    decreases lexed.len(),
{
    if lexed.len() == 0 {
        Token::Eof
    } else {
        match lexed[0].0 {
            Some(t) => t,
            None => first_token(lexed.drop_first()),
        }
    }
}

/// The expression at the bottom of the calls, indexings and accesses that
/// `e` applies: `e` itself where it is none of these.
pub open spec fn postfix_base(e: Expr) -> Expr
    decreases e,
{
    match e {
        Expr::Call(c) => postfix_base(*c.callee),
        Expr::Index(i) => postfix_base(*i.indexed),
        Expr::Access(a) => postfix_base(*a.accessed),
        _ => e,
    }
}

/// Whether the calls, indexings and accesses that `e` applies were read
/// left to right: each one's opening token comes after the expression it
/// applies to.
pub open spec fn postfix_ordered(e: Expr) -> bool
    decreases e,
{
    match e {
        Expr::Call(c) => expr_span(*c.callee).end <= c.left_paren.start && postfix_ordered(*c.callee),
        Expr::Index(i) => expr_span(*i.indexed).end <= i.left_bracket.start && postfix_ordered(*i.indexed),
        Expr::Access(a) => expr_span(*a.accessed).end <= a.dot.start && postfix_ordered(*a.accessed),
        _ => true,
    }
}

/// Whether the calls, indexings and accesses that `e` applies hold what
/// lies between their delimiters: each argument or index lies between the
/// opening and the closing bracket, and each accessor after its dot.
pub open spec fn postfix_inner(e: Expr) -> bool
    decreases e,
{
    match e {
        Expr::Call(c) => (forall|k: int| 0 <= k < c.args@.len() ==>
            lies_within(expr_span(#[trigger] c.args@[k]), c.left_paren.end, c.right_paren.start))
            && postfix_inner(*c.callee),
        Expr::Index(i) => (forall|k: int| 0 <= k < i.indices@.len() ==>
            lies_within(expr_span(#[trigger] i.indices@[k]), i.left_bracket.end, i.right_bracket.start))
            && postfix_inner(*i.indexed),
        Expr::Access(a) => a.dot.end <= expr_span(*a.accessor).start && postfix_inner(*a.accessed),
        _ => true,
    }
}

/// Whether `e` is the kind of expression that a primary expression starting
/// with the token `t` begins with.
pub open spec fn begins_as(e: Expr, t: Token) -> bool {
    match t {
        Token::Int => e is Int,
        Token::Float => e is Float,
        Token::String => e is String,
        Token::Builtin => e is Builtin,
        Token::True => e is True,
        Token::False => e is False,
        Token::Underscores => e is Underscores,
        Token::Ident => e is Var,
        Token::LeftParen => e is Tuple,
        Token::LeftBracket => e is Array || e is ArrayType,
        Token::LeftBrace => e is RecordValue,
        Token::Do => e is Block,
        Token::If | Token::While | Token::Loop | Token::Match => e is Conditional,
        Token::Break => e is Break,
        Token::Skip => e is Skip,
        Token::Fun => e is Fun,
        Token::Let => e is Let,
        Token::Pub => e is Pub,
        Token::Alias => e is Alias,
        Token::Import => e is Import || e is ImportFrom,
        Token::Super => e is Super,
        Token::Record => e is Record,
        Token::Union => e is Union,
        Token::Class => e is Class,
        Token::Have => e is Have,
        _ => false,
    }
}

/// Whether every entry of `lexed` is a token, none a sequence that makes
/// no token.
pub open spec fn no_gaps(lexed: Seq<(Option<Token>, Span)>) -> bool {
    forall|i: int| 0 <= i < lexed.len() ==> (#[trigger] lexed[i]).0 is Some
}

/// The token at index `i` of `lexed`: the end of file past the last one.
pub open spec fn tok_at(lexed: Seq<(Option<Token>, Span)>, i: int) -> Token {
    if 0 <= i < lexed.len() {
        match lexed[i].0 {
            Some(t) => t,
            None => Token::Eof,
        }
    } else {
        Token::Eof
    }
}

/// Whether `t` makes an expression on its own: a literal, a name or `super`.
pub open spec fn is_atom(t: Token) -> bool {
    ||| t == Token::Int || t == Token::Float || t == Token::String || t == Token::Builtin
    ||| t == Token::True || t == Token::False || t == Token::Underscores || t == Token::Ident
    ||| t == Token::Super
}

/// Whether `e` is the expression that the single token at index `i` of
/// `lexed` makes, with that token's span.
pub open spec fn atom_is(e: Expr, lexed: Seq<(Option<Token>, Span)>, i: int) -> bool {
    0 <= i < lexed.len() && {
        let lx = Lexeme { span: lexed[i].1 };
        match tok_at(lexed, i) {
            Token::Int => e == Expr::Int(lx),
            Token::Float => e == Expr::Float(lx),
            Token::String => e == Expr::String(lx),
            Token::Builtin => e == Expr::Builtin(lx),
            Token::True => e == Expr::True(lx),
            Token::False => e == Expr::False(lx),
            Token::Underscores => e == Expr::Underscores(lx),
            Token::Ident => e == Expr::Var(lx),
            Token::Super => e == Expr::Super(lx),
            _ => false,
        }
    }
}

/// Where a list of single-token items, separated by commas and possibly
/// ending in one, that starts at index `i` is closed by `close`: the index
/// of that token. `None` where the tokens there are not such a list.
pub open spec fn list_end(lexed: Seq<(Option<Token>, Span)>, i: int, close: Token) -> Option<int>
    decreases lexed.len() - i,
{
    if i < 0 || i >= lexed.len() {
        None
    } else if tok_at(lexed, i) == close {
        Some(i)
    } else if is_atom(tok_at(lexed, i)) {
        if tok_at(lexed, i + 1) == close {
            Some(i + 1)
        } else if tok_at(lexed, i + 1) == Token::Comma {
            list_end(lexed, i + 2, close)
        } else {
            None
        }
    } else {
        None
    }
}

/// Where a chain of calls and indexings with such lists, and of accesses
/// to a name or `super`, that starts at index `i` ends: the index of the
/// first token that continues none. `None` where a new line or another
/// kind of argument comes first.
pub open spec fn chain_end(lexed: Seq<(Option<Token>, Span)>, i: int) -> Option<int>
    decreases lexed.len() - i,
{
    if i < 0 || i > lexed.len() {
        None
    } else if i == lexed.len() {
        Some(i)
    } else {
        let t = tok_at(lexed, i);
        if t == Token::LeftParen || t == Token::LeftBracket {
            let close = if t == Token::LeftParen { Token::RightParen } else { Token::RightBracket };
            match list_end(lexed, i + 1, close) {
                Some(m) => if i < m < lexed.len() { chain_end(lexed, m + 1) } else { None },
                None => None,
            }
        } else if t == Token::Dot {
            let a = tok_at(lexed, i + 1);
            if a == Token::Ident || a == Token::Super { chain_end(lexed, i + 2) } else { None }
        } else if t == Token::Newline {
            None
        } else {
            Some(i)
        }
    }
}

/// Where a primary expression made of one token and such a chain, starting
/// at index `i`, ends.
pub open spec fn prim_end(lexed: Seq<(Option<Token>, Span)>, i: int) -> Option<int> {
    if 0 <= i < lexed.len() && is_atom(tok_at(lexed, i)) { chain_end(lexed, i + 1) } else { None }
}

/// Where the items `items`, each a single token followed by a comma, end
/// when they start at index `i`.
pub open spec fn comma_prefix(items: Seq<Expr>, lexed: Seq<(Option<Token>, Span)>, i: int) -> Option<int>
    decreases items.len(),
{
    if items.len() == 0 {
        Some(i)
    } else {
        match comma_prefix(items.drop_last(), lexed, i) {
            Some(k) => if atom_is(items.last(), lexed, k) && tok_at(lexed, k + 1) == Token::Comma {
                Some(k + 2)
            } else {
                None
            },
            None => None,
        }
    }
}

/// Whether `items` are the single-token items of the list that starts at
/// index `i` and is closed by `close`: the index of that token if so.
pub open spec fn items_tree(items: Seq<Expr>, lexed: Seq<(Option<Token>, Span)>, i: int, close: Token) -> Option<int> {
    if items.len() == 0 {
        if 0 <= i < lexed.len() && tok_at(lexed, i) == close { Some(i) } else { None }
    } else {
        match comma_prefix(items.drop_last(), lexed, i) {
            Some(k) => if atom_is(items.last(), lexed, k) {
                if tok_at(lexed, k + 1) == close {
                    Some(k + 1)
                } else if tok_at(lexed, k + 1) == Token::Comma && tok_at(lexed, k + 2) == close {
                    Some(k + 2)
                } else {
                    None
                }
            } else {
                None
            },
            None => None,
        }
    }
}

/// Whether `e` is the primary expression that the tokens from index `i`
/// make, read as a single token followed by calls, indexings and accesses
/// whose delimiters and items are the tokens met: the index after its last
/// token if so.
pub open spec fn prim_tree(e: Expr, lexed: Seq<(Option<Token>, Span)>, i: int) -> Option<int>
    decreases e,
{
    match e {
        Expr::Call(c) => match prim_tree(*c.callee, lexed, i) {
            Some(k) => if tok_at(lexed, k) == Token::LeftParen && c.left_paren == lexed[k].1 {
                match items_tree(c.args@, lexed, k + 1, Token::RightParen) {
                    Some(m) => if c.right_paren == lexed[m].1 { Some(m + 1) } else { None },
                    None => None,
                }
            } else {
                None
            },
            None => None,
        },
        Expr::Index(x) => match prim_tree(*x.indexed, lexed, i) {
            Some(k) => if tok_at(lexed, k) == Token::LeftBracket && x.left_bracket == lexed[k].1 {
                match items_tree(x.indices@, lexed, k + 1, Token::RightBracket) {
                    Some(m) => if x.right_bracket == lexed[m].1 { Some(m + 1) } else { None },
                    None => None,
                }
            } else {
                None
            },
            None => None,
        },
        Expr::Access(a) => match prim_tree(*a.accessed, lexed, i) {
            Some(k) => if tok_at(lexed, k) == Token::Dot && a.dot == lexed[k].1
                && (tok_at(lexed, k + 1) == Token::Ident || tok_at(lexed, k + 1) == Token::Super)
                && atom_is(*a.accessor, lexed, k + 1) {
                Some(k + 2)
            } else {
                None
            },
            None => None,
        },
        _ => if atom_is(e, lexed, i) { Some(i + 1) } else { None },
    }
}

/// A tree read from index `i` ends past `i`, and one that ends right after
/// `i` is the single token there.
proof fn lemma_prim_tree_grows(e: Expr, lexed: Seq<(Option<Token>, Span)>, i: int)
    ensures
        prim_tree(e, lexed, i) matches Some(j) ==> j > i,
        prim_tree(e, lexed, i) == Some(i + 1) ==> atom_is(e, lexed, i),
    decreases e,
{
    match e {
        Expr::Call(c) => {
            lemma_prim_tree_grows(*c.callee, lexed, i);
            if let Some(k) = prim_tree(*c.callee, lexed, i) {
                lemma_comma_prefix_grows(c.args@.drop_last(), lexed, k + 1);
            }
        },
        Expr::Index(x) => {
            lemma_prim_tree_grows(*x.indexed, lexed, i);
            if let Some(k) = prim_tree(*x.indexed, lexed, i) {
                lemma_comma_prefix_grows(x.indices@.drop_last(), lexed, k + 1);
            }
        },
        Expr::Access(a) => lemma_prim_tree_grows(*a.accessed, lexed, i),
        _ => {},
    }
}

/// A list closes on its closing token, at or after where it starts.
proof fn lemma_list_end(lexed: Seq<(Option<Token>, Span)>, i: int, close: Token)
    ensures
        close != Token::Eof ==> (list_end(lexed, i, close) matches Some(m) ==>
            i <= m < lexed.len() && tok_at(lexed, m) == close),
    decreases lexed.len() - i,
{
    if 0 <= i < lexed.len() && tok_at(lexed, i) != close && is_atom(tok_at(lexed, i))
        && tok_at(lexed, i + 1) != close && tok_at(lexed, i + 1) == Token::Comma {
        lemma_list_end(lexed, i + 2, close);
    }
}

/// One step of a list: its closing token, or an item followed by the
/// closing token or a comma.
proof fn lemma_list_step(lexed: Seq<(Option<Token>, Span)>, k: int, close: Token)
    requires
        list_end(lexed, k, close) is Some,
        close == Token::RightParen || close == Token::RightBracket,
    ensures
        0 <= k < lexed.len(),
        tok_at(lexed, k) != Token::Newline,
        tok_at(lexed, k) == close ==> list_end(lexed, k, close) == Some(k),
        tok_at(lexed, k) != close ==> {
            &&& is_atom(tok_at(lexed, k))
            &&& prim_end(lexed, k) == Some(k + 1)
            &&& binary_op_of(tok_at(lexed, k + 1)) is None
            &&& (tok_at(lexed, k + 1) == close && list_end(lexed, k, close) == Some(k + 1))
                || (tok_at(lexed, k + 1) == Token::Comma && list_end(lexed, k, close) == list_end(lexed, k + 2, close))
        },
{
}

/// One step of a chain: a call, an indexing or an access, or its end.
proof fn lemma_chain_step(lexed: Seq<(Option<Token>, Span)>, p: int)
    requires
        chain_end(lexed, p) is Some,
    ensures
        0 <= p <= lexed.len(),
        tok_at(lexed, p) != Token::Newline,
        tok_at(lexed, p) == Token::LeftParen ==> (list_end(lexed, p + 1, Token::RightParen) matches Some(m)
            && p < m < lexed.len() && tok_at(lexed, m) == Token::RightParen && chain_end(lexed, m + 1) == chain_end(lexed, p)),
        tok_at(lexed, p) == Token::LeftBracket ==> (list_end(lexed, p + 1, Token::RightBracket) matches Some(m)
            && p < m < lexed.len() && tok_at(lexed, m) == Token::RightBracket && chain_end(lexed, m + 1) == chain_end(lexed, p)),
        tok_at(lexed, p) == Token::Dot ==> (tok_at(lexed, p + 1) == Token::Ident || tok_at(lexed, p + 1) == Token::Super)
            && chain_end(lexed, p + 2) == chain_end(lexed, p),
        tok_at(lexed, p) != Token::LeftParen && tok_at(lexed, p) != Token::LeftBracket && tok_at(lexed, p) != Token::Dot
            ==> chain_end(lexed, p) == Some(p),
{
    lemma_list_end(lexed, p + 1, Token::RightParen);
    lemma_list_end(lexed, p + 1, Token::RightBracket);
}

/// Items that each end with a comma, followed by the closing token, make
/// the whole list.
proof fn lemma_items_close(items: Seq<Expr>, lexed: Seq<(Option<Token>, Span)>, i: int, n: int, close: Token)
    requires
        comma_prefix(items, lexed, i) == Some(n),
        0 <= n < lexed.len(),
        tok_at(lexed, n) == close,
        close == Token::RightParen || close == Token::RightBracket,
    ensures
        items_tree(items, lexed, i, close) == Some(n),
{
}

/// Items that each end with a comma, then one more followed by the closing
/// token, make the whole list.
proof fn lemma_items_last(items: Seq<Expr>, x: Expr, lexed: Seq<(Option<Token>, Span)>, i: int, k: int, close: Token)
    requires
        comma_prefix(items, lexed, i) == Some(k),
        atom_is(x, lexed, k),
        tok_at(lexed, k + 1) == close,
    ensures
        items_tree(items.push(x), lexed, i, close) == Some(k + 1),
{
    assert(items.push(x).drop_last() =~= items);
}

/// One more item followed by a comma.
proof fn lemma_comma_push(items: Seq<Expr>, x: Expr, lexed: Seq<(Option<Token>, Span)>, i: int, k: int)
    requires
        comma_prefix(items, lexed, i) == Some(k),
        atom_is(x, lexed, k),
        tok_at(lexed, k + 1) == Token::Comma,
    ensures
        comma_prefix(items.push(x), lexed, i) == Some(k + 2),
{
    assert(items.push(x).drop_last() =~= items);
}

/// The items that a comma prefix reads end no earlier than they start.
proof fn lemma_comma_prefix_grows(items: Seq<Expr>, lexed: Seq<(Option<Token>, Span)>, i: int)
    ensures
        comma_prefix(items, lexed, i) matches Some(k) ==> k >= i,
    decreases items.len(),
{
    if items.len() > 0 {
        lemma_comma_prefix_grows(items.drop_last(), lexed, i);
    }
}

/// A parser over the tokens of one source file, which appends the errors it
/// meets to `reports`.
pub struct Parser<'src> {
    source: &'src str,
    file: usize,
    lexed: Vec<(Option<Token>, Span)>,
    next: usize,
    prev: Token,
    bounds: (usize, usize),
    uid: usize,
    reports: Vec<Report>,
}

impl<'src> Parser<'src> {
    /// The tokens as the lexer gave them.
    pub closed spec fn tokens(&self) -> Seq<(Option<Token>, Span)> {
        self.lexed@
    }

    /// How many tokens were read.
    pub closed spec fn position(&self) -> nat {
        self.next as nat
    }

    /// The last token read.
    pub closed spec fn last(&self) -> Token {
        self.prev
    }

    /// The token to be read next is the one at the position reached.
    proof fn lemma_current_is_tok(&self)
        ensures
            self.current() == tok_at(self.lexed@, self.next as int),
            self.next < self.lexed@.len() ==> self.current_span() == self.lexed@[self.next as int].1,
    {
    }

    /// The reports so far.
    pub closed spec fn reported(&self) -> Seq<Report> {
        self.reports@
    }

    /// The token to be read next: the end of file once every token was read.
    pub closed spec fn current(&self) -> Token {
        if self.next < self.lexed@.len() {
            match self.lexed@[self.next as int].0 {
                Some(t) => t,
                None => Token::Eof,
            }
        } else {
            Token::Eof
        }
    }

    /// The span of the token to be read next: an empty one at the end of
    /// the source once every token was read.
    pub closed spec fn current_span(&self) -> Span {
        if self.next < self.lexed@.len() {
            self.lexed@[self.next as int].1
        } else {
            Span { start: self.source.spec_bytes().len() as usize, end: self.source.spec_bytes().len() as usize }
        }
    }

    /// The position in the source where the next token starts.
    pub closed spec fn here(&self) -> usize {
        self.bounds.1
    }

    /// How many more tokens were read than identifiers handed out.
    pub closed spec fn slack(&self) -> int {
        self.next - self.uid
    }

    /// The number of tokens left to read.
    pub closed spec fn left(&self) -> nat {
        (self.lexed@.len() - self.next) as nat
    }

    /// What holds of the reading state whether or not the next token was
    /// looked at yet.
    closed spec fn sound(&self) -> bool {
        &&& self.next <= self.lexed@.len()
        &&& lexed_ok(self.source.spec_bytes(), self.lexed@)
        &&& self.uid <= self.next
        &&& self.source.spec_bytes().len() <= usize::MAX
        &&& self.bounds.1 <= self.current_span().start
    }

    /// The invariant of a parser between two steps: the next token to read is
    /// a token, and the position before it is known.
    pub closed spec fn wf(&self) -> bool {
        &&& self.sound()
        &&& self.next < self.lexed@.len() ==> self.lexed@[self.next as int].0 is Some
        &&& self.bounds.1 == self.current_span().start
    }

    /// Whether `after` is this parser some steps later: the same input, no
    /// token given back, and the reports made before kept.
    pub closed spec fn steps_to(&self, after: &Self) -> bool {
        &&& after.wf()
        &&& after.source@ == self.source@
        &&& after.file == self.file
        &&& after.lexed@ == self.lexed@
        &&& self.next <= after.next
        &&& self.bounds.1 <= after.bounds.1
        &&& self.uid <= after.uid
        &&& after.slack() >= self.slack()
        &&& self.reports@.len() <= after.reports@.len()
        &&& forall|i: int| 0 <= i < self.reports@.len() ==> #[trigger] after.reports@[i] == self.reports@[i]
    }

    /// Whether `s` spans what was read from this parser on to `after`: it
    /// starts where the token next here starts, and ends no later than where
    /// the token next in `after` starts.
    pub open spec fn spans_read(&self, after: &Self, s: Span) -> bool {
        s.start == self.here() && s.end <= after.here()
    }

    /// Whether `after` is this parser unchanged.
    pub closed spec fn same_as(&self, after: &Self) -> bool {
        &&& after.source@ == self.source@
        &&& after.file == self.file
        &&& after.lexed@ == self.lexed@
        &&& after.next == self.next
        &&& after.prev == self.prev
        &&& after.bounds == self.bounds
        &&& after.uid == self.uid
        &&& after.reports@ == self.reports@
    }

    /// A parser at the start of the tokens `lexed` of `source`, file
    /// `file`, which adds the errors it meets to `reports`. Where the tokens
    /// start with sequences that make no token, one error is reported for
    /// them.
    pub fn new(source: &'src str, lexed: Vec<(Option<Token>, Span)>, file: usize, reports: Vec<Report>) -> (p: Self)
        requires
            lexed_ok(source.spec_bytes(), lexed@),
        ensures
            p.wf(),
            p.tokens() == lexed@,
            p.current() == first_token(lexed@),
            no_gaps(lexed@) ==> p.position() == 0,
            p.last() == Token::Eof,
            p.reported().len() >= reports@.len(),
            forall|i: int| 0 <= i < reports@.len() ==> #[trigger] p.reported()[i] == reports@[i],
    {
        // The length of the source is a machine word, as every position in it.
        let source_len = source.as_bytes().len();
        proof {
            assert(source.spec_bytes().len() == source_len);
        }
        let mut p = Parser { source, file, lexed, next: 0, prev: Token::Eof, bounds: (0, 0), uid: 0, reports };
        proof {
            assert(p.lexed@.subrange(0, p.lexed@.len() as int) =~= p.lexed@);
        }
        p.peek();
        p
    }

    /// The reports: those given to the parser, then those it made.
    pub fn into_reports(self) -> (reports: Vec<Report>)
        ensures
            reports@ == self.reported(),
    {
        self.reports
    }

    fn next_uid(&mut self) -> (u: usize)
        requires
            old(self).wf(),
            old(self).uid < old(self).position(),
        ensures
            final(self).wf(),
            final(self).source@ == old(self).source@,
            final(self).file == old(self).file,
            final(self).lexed@ == old(self).lexed@,
            final(self).position() == old(self).position(),
            final(self).prev == old(self).prev,
            final(self).bounds == old(self).bounds,
            final(self).reported() == old(self).reported(),
            final(self).uid == old(self).uid + 1,
            u == final(self).uid,
    {
        self.uid = self.uid + 1;
        self.uid
    }

    fn pos_from(&self) -> (p: usize)
        ensures
            p == self.bounds.1,
    {
        self.bounds.1
    }

    fn pos_to(&self) -> (p: usize)
        ensures
            p == self.bounds.0,
    {
        self.bounds.0
    }

    fn span_here(&self) -> (s: Span)
        ensures
            s.start == self.bounds.1 && s.end == self.bounds.1,
    {
        Span::at(self.pos_from())
    }

    fn loc_here(&self) -> (l: Loc)
        ensures
            l.span.start == self.bounds.1 && l.span.end == self.bounds.1 && l.file == self.file,
    {
        self.span_here().wrap(self.file)
    }

    fn loc_from_here(&self) -> (l: Loc)
        ensures
            l.span.start == self.bounds.0 && l.span.end == self.bounds.0 && l.file == self.file,
    {
        Span::at(self.pos_to()).wrap(self.file)
    }

    /// The next token. Where the tokens to read start with sequences that
    /// make no token, they are read over and one error is reported for them.
    fn peek(&mut self) -> (t: Token)
        requires
            old(self).sound(),
        ensures
            old(self).steps_to(&*final(self)),
            final(self).current() == first_token(old(self).lexed@.subrange(old(self).next as int, old(self).lexed@.len() as int)),
            t == final(self).current(),
            final(self).prev == old(self).prev,
            final(self).bounds.0 == old(self).bounds.0,
            final(self).uid == old(self).uid,
            old(self).wf() ==> old(self).same_as(&*final(self)),
            no_gaps(old(self).lexed@) ==> final(self).next == old(self).next,
    {
        let len = self.lexed.len();
        if self.next >= len {
            self.bounds.1 = self.source.len();
            return Token::Eof;
        }
        let first = self.lexed[self.next];
        self.bounds.1 = first.1.start;
        proof {
            let sub = self.lexed@.subrange(self.next as int, len as int);
            assert(sub[0] == self.lexed@[self.next as int]);
        }
        if let Some(t) = first.0 {
            return t;
        }
        let ghost before = self.reports@;
        let start = first.1.start;
        let mut end = start;
        while self.next < len && self.lexed[self.next].0.is_none()
            invariant
                self.sound(),
                len == self.lexed@.len(),
                old(self).position() <= self.next,
                start == old(self).lexed@[old(self).position() as int].1.start,
                start <= end <= self.source.spec_bytes().len(),
                is_char_boundary(self.source.spec_bytes(), end as int),
                self.next < len ==> end <= self.lexed@[self.next as int].1.start,
                self.source@ == old(self).source@,
                self.lexed@ == old(self).lexed@,
                self.reports@ == old(self).reported(),
                self.uid == old(self).uid,
                self.prev == old(self).prev,
                self.bounds.0 == old(self).bounds.0,
                self.bounds.1 == start,
                self.file == old(self).file,
                first_token(self.lexed@.subrange(old(self).next as int, len as int))
                    == first_token(self.lexed@.subrange(self.next as int, len as int)),
            decreases len - self.next,
        {
            proof {
                let sub = self.lexed@.subrange(self.next as int, len as int);
                assert(sub[0] == self.lexed@[self.next as int]);
                assert(sub.drop_first() =~= self.lexed@.subrange(self.next + 1, len as int));
            }
            end = self.lexed[self.next].1.end;
            self.next = self.next + 1;
            proof {
                let prev_span = self.lexed@[self.next - 1].1;
                assert(prev_span.start <= prev_span.end <= self.source.spec_bytes().len());
                if self.next < len {
                    assert(self.lexed@[self.next - 1].1.end <= self.lexed@[self.next as int].1.start);
                }
                assert(self.bounds.1 <= self.current_span().start);
            }
        }
        let span = Span::new(start, end);
        let text = span.lexeme(self.source).to_owned();
        self.reports.push(
            Report::error(Header::InvalidCharacterSequence(text)).with_primary_label(Label::Empty, Loc::new(span, self.file)),
        );
        let t = if self.next < len {
            let tok = self.lexed[self.next];
            self.bounds.1 = tok.1.start;
            match tok.0 {
                Some(t) => t,
                None => Token::Eof,
            }
        } else {
            self.bounds.1 = self.source.len();
            Token::Eof
        };
        t
    }

    /// Reads the next token and gives its span; at the end of the tokens it
    /// reads nothing and gives an empty span at the end of the source.
    fn consume_token(&mut self) -> (s: Span)
        requires
            old(self).wf(),
        ensures
            old(self).steps_to(&*final(self)),
            s == old(self).current_span(),
            old(self).spans_read(&*final(self), s),
            final(self).prev == old(self).current(),
            final(self).uid == old(self).uid,
            old(self).position() < old(self).lexed@.len() ==> final(self).position() > old(self).position(),
            old(self).position() == old(self).lexed@.len() ==> old(self).same_as(&*final(self)) || final(self).position() == old(self).position(),
            no_gaps(old(self).lexed@) && old(self).next < old(self).lexed@.len() ==> final(self).next == old(self).next + 1,
    {
        let len = self.source.len();
        let (tok, tok_span, start) = if self.next < self.lexed.len() {
            let item = self.lexed[self.next];
            self.next = self.next + 1;
            proof {
                let taken = self.lexed@[self.next - 1].1;
                assert(taken.start <= taken.end <= self.source.spec_bytes().len());
                if self.next < self.lexed@.len() {
                    assert(self.lexed@[self.next - 1].1.end <= self.lexed@[self.next as int].1.start);
                }
                assert(self.bounds.1 <= self.current_span().start);
            }
            let t = match item.0 {
                Some(t) => t,
                None => Token::Eof,
            };
            (t, item.1, item.1.end)
        } else {
            (Token::Eof, Span::new(len, len), len)
        };
        self.prev = tok;
        self.bounds.0 = start;
        self.peek();
        proof {
            let i = old(self).next as int;
            if i < self.lexed@.len() {
                assert(self.lexed@[i].1.start <= self.lexed@[i].1.end <= self.source.spec_bytes().len());
                if (self.next as int) < self.lexed@.len() {
                    assert(self.lexed@[i].1.end <= self.lexed@[self.next as int].1.start);
                }
            }
        }
        tok_span
    }

    /// Reads the next token if it is `expected`, and gives its span.
    fn try_expect_token(&mut self, expected: Token) -> (r: Option<Span>)
        requires
            old(self).wf(),
        ensures
            old(self).steps_to(&*final(self)),
            final(self).uid == old(self).uid,
            (r is Some) == (old(self).current() == expected),
            r is None ==> old(self).same_as(&*final(self)),
            r matches Some(s) ==> s == old(self).current_span() && final(self).prev == expected,
            r matches Some(s) ==> old(self).spans_read(&*final(self), s),
            r is Some && expected != Token::Eof ==> final(self).position() > old(self).position(),
            r is Some && expected != Token::Eof && no_gaps(old(self).lexed@) ==> final(self).next == old(self).next + 1,
    {
        if self.peek() == expected {
            Some(self.consume_token())
        } else {
            None
        }
    }

    /// Reads the next token if it is `expected`, and gives its span; where it
    /// is not, reports the token that was expected and gives an empty span
    /// before the next token.
    fn expect_token(&mut self, expected: Token) -> (s: Span)
        requires
            old(self).wf(),
        ensures
            old(self).steps_to(&*final(self)),
            final(self).uid == old(self).uid,
            old(self).current() == expected ==> s == old(self).current_span(),
            old(self).spans_read(&*final(self), s),
            old(self).current() != expected ==> {
                &&& s == Span { start: old(self).here(), end: old(self).here() }
                &&& final(self).position() == old(self).position()
                &&& final(self).reported().len() == old(self).reported().len() + 1
                &&& final(self).reported().last().header == Header::ExpectedToken(expected, old(self).current())
            },
            old(self).current() == expected && expected != Token::Eof && no_gaps(old(self).lexed@) ==>
                final(self).next == old(self).next + 1 && final(self).prev == expected,
    {
        let p = self.peek();
        if p == expected {
            self.consume_token()
        } else {
            let loc = self.loc_from_here();
            self.reports.push(Report::error(Header::ExpectedToken(expected, p)).with_primary_label(Label::Empty, loc));
            self.span_here()
        }
    }

    /// Whether the last token read was a new line, reading one more if it
    /// was not and one follows.
    fn skip_newlines(&mut self) -> (b: bool)
        requires
            old(self).wf(),
        ensures
            old(self).steps_to(&*final(self)),
            final(self).uid == old(self).uid,
            b == (old(self).prev == Token::Newline || old(self).current() == Token::Newline),
            old(self).prev == Token::Newline || old(self).current() != Token::Newline ==> old(self).same_as(&*final(self)),
    {
        self.prev == Token::Newline || self.try_expect_token(Token::Newline).is_some()
    }

    /// Parses the expressions of a whole file, then expects its end.
    pub fn parse_file(&mut self) -> (f: ast::File)
        requires
            old(self).wf(),
        ensures
            old(self).steps_to(&*final(self)),
            final(self).reported().len() >= old(self).reported().len(),
            forall|i: int| 0 <= i < old(self).reported().len() ==> #[trigger] final(self).reported()[i] == old(self).reported()[i],
            final(self).position() == final(self).tokens().len() || (final(self).reported().len() > old(self).reported().len()
                && final(self).reported().last().header == Header::ExpectedToken(Token::Eof, final(self).current())),
            forall|i: int| 0 <= i < f.0@.len() ==> lies_within(expr_span(#[trigger] f.0@[i]), old(self).here(), final(self).here()),
            forall|i: int| 0 <= i < f.0@.len() ==> grouped_at(#[trigger] f.0@[i], 0),
            starts_expression(old(self).current()) ==> f.0@.len() > 0,
            !starts_expression(old(self).current()) && old(self).current() != Token::Newline ==> f.0@.len() == 0,
    {
        let exprs = self.parse_newline_separated_items();
        let ghost before_end = *self;
        self.expect_token(Token::Eof);
        proof {
            if before_end.current() == Token::Eof {
                assert(self.current() == Token::Eof);
            }
            if self.next < self.lexed@.len() {
                assert(self.lexed@[self.next as int].0 != Some(Token::Eof));
            }
        }
        proof {
            assert forall|i: int| 0 <= i < exprs@.len() implies
                lies_within(expr_span(#[trigger] exprs@[i]), old(self).here(), self.here()) by {
                lemma_exprs_span_covers(exprs@, i);
            }
        }
        ast::File(exprs)
    }

    /// Parses an expression; where none starts here, reports it and gives a
    /// missing expression.
    pub fn expect_expression(&mut self) -> (e: Expr)
        requires
            old(self).wf(),
        ensures
            old(self).spans_read(&*final(self), expr_span(e)),
            old(self).steps_to(&*final(self)),
            starts_expression(old(self).current()) ==> final(self).position() > old(self).position(),
            !(starts_expression(old(self).current())) ==> {
                &&& final(self).position() == old(self).position()
                &&& e == (Expr::Missing(Lexeme { span: Span { start: old(self).here(), end: old(self).here() } }))
                &&& final(self).reported().len() == old(self).reported().len() + 1
                &&& final(self).reported().last().header == Header::ExpectedExpression()
            },
            grouped_at(e, 0),
            starts_expression(old(self).current()) ==> binary_op_of(final(self).current()) is None,
        decreases old(self).left(), 8nat,
    {
        match self.try_parse_expression() {
            Some(expr) => expr,
            None => {
                let loc = self.loc_here();
                self.reports.push(Report::error(Header::ExpectedExpression()).with_primary_label(Label::Empty, loc));
                Expr::Missing(Lexeme { span: self.span_here() })
            },
        }
    }

    /// Parses an expression, if one starts here. Its operations are grouped
    /// by precedence, it takes every binary operator that follows, and its
    /// span starts at its first token and ends before the next unread one.
    pub fn try_parse_expression(&mut self) -> (r: Option<Expr>)
        requires
            old(self).wf(),
        ensures
            r matches Some(e) ==> old(self).spans_read(&*final(self), expr_span(e)),
            old(self).steps_to(&*final(self)),
            (r is Some) == (starts_expression(old(self).current())),
            r is None ==> old(self).same_as(&*final(self)),
            r is Some ==> final(self).position() > old(self).position() && final(self).slack() > old(self).slack(),
            r matches Some(e) ==> grouped_at(e, 0),
            r is Some ==> binary_op_of(final(self).current()) is None,
            no_gaps(old(self).tokens()) ==> (prim_end(old(self).tokens(), old(self).position() as int) matches Some(j) ==>
                (binary_op_of(tok_at(old(self).tokens(), j)) is None ==> (r matches Some(e)
                    && prim_tree(e, old(self).tokens(), old(self).position() as int) == Some(j)
                    && final(self).position() == j && final(self).last() != Token::Newline))),
        decreases old(self).left(), 7nat,
    {
        self.try_parse_operation_expression()
    }

    /// Parses a primary expression; where none starts here, reports it and
    /// gives a missing expression.
    pub fn expect_primary_expression(&mut self) -> (e: Expr)
        requires
            old(self).wf(),
        ensures
            old(self).spans_read(&*final(self), expr_span(e)),
            old(self).steps_to(&*final(self)),
            starts_expression(old(self).current()) ==> final(self).position() > old(self).position(),
            !(starts_expression(old(self).current())) ==> {
                &&& final(self).position() == old(self).position()
                &&& e == (Expr::Missing(Lexeme { span: Span { start: old(self).here(), end: old(self).here() } }))
                &&& final(self).reported().len() == old(self).reported().len() + 1
                &&& final(self).reported().last().header == Header::ExpectedExpression()
            },
        decreases old(self).left(), 5nat,
    {
        match self.try_parse_primary_expression() {
            Some(expr) => expr,
            None => {
                let loc = self.loc_here();
                self.reports.push(Report::error(Header::ExpectedExpression()).with_primary_label(Label::Empty, loc));
                Expr::Missing(Lexeme { span: self.span_here() })
            },
        }
    }

    /// The binary operator that the next token stands for, if any.
    fn try_peek_binary_operator(&mut self) -> (r: Option<BinOp>)
        requires
            old(self).wf(),
        ensures
            old(self).same_as(&*final(self)),
            old(self).steps_to(&*final(self)),
            r == binary_op_of(old(self).current()),
    {
        match self.peek() {
            Token::Add => Some(BinOp::Add),
            Token::Sub => Some(BinOp::Sub),
            Token::Div => Some(BinOp::Div),
            Token::Mul => Some(BinOp::Mul),
            Token::Mod => Some(BinOp::Mod),
            Token::Eq => Some(BinOp::Eq),
            Token::Ne => Some(BinOp::Ne),
            Token::LeftChev => Some(BinOp::Lt),
            Token::Le => Some(BinOp::Le),
            Token::RightChev => Some(BinOp::Gt),
            Token::Ge => Some(BinOp::Ge),
            Token::BitAnd => Some(BinOp::BitAnd),
            Token::BitOr => Some(BinOp::BitOr),
            Token::BitXor => Some(BinOp::BitXor),
            Token::And => Some(BinOp::And),
            Token::Or => Some(BinOp::Or),
            Token::Xor => Some(BinOp::Xor),
            _ => None,
        }
    }

    /// The unary operator that the next token stands for, if any.
    fn try_peek_unary_operator(&mut self) -> (r: Option<UnOp>)
        requires
            old(self).wf(),
        ensures
            old(self).same_as(&*final(self)),
            old(self).steps_to(&*final(self)),
            r == unary_op_of(old(self).current()),
            old(self).current() == Token::Not ==> r == Some(UnOp::Not),
            old(self).current() == Token::BitNeg ==> r == Some(UnOp::BitNeg),
            old(self).current() == Token::Sub ==> r == Some(UnOp::Neg),
            old(self).current() == Token::Add ==> r == Some(UnOp::Pos),
    {
        match self.peek() {
            Token::Add => Some(UnOp::Pos),
            Token::Sub => Some(UnOp::Neg),
            Token::BitNeg => Some(UnOp::BitNeg),
            Token::Not => Some(UnOp::Not),
            _ => None,
        }
    }

    fn try_parse_operation_expression(&mut self) -> (r: Option<Expr>)
        requires
            old(self).wf(),
        ensures
            r matches Some(e) ==> old(self).spans_read(&*final(self), expr_span(e)),
            old(self).steps_to(&*final(self)),
            (r is Some) == (starts_expression(old(self).current())),
            r is None ==> old(self).same_as(&*final(self)),
            r is Some ==> final(self).position() > old(self).position() && final(self).slack() > old(self).slack(),
            r matches Some(e) ==> grouped_at(e, 0),
            r is Some ==> binary_op_of(final(self).current()) is None,
            no_gaps(old(self).lexed@) ==> (prim_end(old(self).lexed@, old(self).next as int) matches Some(j) ==>
                (binary_op_of(tok_at(old(self).lexed@, j)) is None ==> (r matches Some(e)
                    && prim_tree(e, old(self).lexed@, old(self).next as int) == Some(j)
                    && final(self).next == j && final(self).prev != Token::Newline))),
        decreases old(self).left(), 6nat,
    {
        self.try_parse_precedence_operation(0)
    }

    /// Parses an operation whose operators bind at least as tightly as
    /// `current_prec`; where none starts here, reports it and gives a missing
    /// expression.
    fn expect_precedence_operation(&mut self, current_prec: usize) -> (e: Expr)
        requires
            old(self).wf(),
        ensures
            old(self).spans_read(&*final(self), expr_span(e)),
            old(self).steps_to(&*final(self)),
            starts_expression(old(self).current()) ==> final(self).position() > old(self).position(),
            !(starts_expression(old(self).current())) ==> {
                &&& final(self).position() == old(self).position()
                &&& e == (Expr::Missing(Lexeme { span: Span { start: old(self).here(), end: old(self).here() } }))
                &&& final(self).reported().len() == old(self).reported().len() + 1
                &&& final(self).reported().last().header == Header::ExpectedExpression()
            },
            grouped_at(e, current_prec as nat),
            starts_expression(old(self).current()) ==> stops_at(final(self).current(), current_prec as nat),
        decreases old(self).left(), 6nat,
    {
        match self.try_parse_precedence_operation(current_prec) {
            Some(expr) => expr,
            None => {
                let loc = self.loc_here();
                self.reports.push(Report::error(Header::ExpectedExpression()).with_primary_label(Label::Empty, loc));
                Expr::Missing(Lexeme { span: self.span_here() })
            },
        }
    }

    /// Parses a primary expression followed by binary operations whose
    /// operators bind at least as tightly as `current_prec`; each operation's
    /// right side takes the operators that bind at least as tightly as its own.
    fn try_parse_precedence_operation(&mut self, current_prec: usize) -> (r: Option<Expr>)
        requires
            old(self).wf(),
        ensures
            r matches Some(e) ==> old(self).spans_read(&*final(self), expr_span(e)),
            old(self).steps_to(&*final(self)),
            (r is Some) == (starts_expression(old(self).current())),
            r is None ==> old(self).same_as(&*final(self)),
            r is Some ==> final(self).position() > old(self).position() && final(self).slack() > old(self).slack(),
            r matches Some(e) ==> grouped_at(e, current_prec as nat),
            r is Some ==> stops_at(final(self).current(), current_prec as nat),
            no_gaps(old(self).lexed@) ==> (prim_end(old(self).lexed@, old(self).next as int) matches Some(j) ==>
                (binary_op_of(tok_at(old(self).lexed@, j)) is None ==> (r matches Some(e)
                    && prim_tree(e, old(self).lexed@, old(self).next as int) == Some(j)
                    && final(self).next == j && final(self).prev != Token::Newline))),
        decreases old(self).left(), 5nat,
    {
        let ghost start = self.next as int;
        let ghost jj = match prim_end(self.lexed@, start) {
            Some(j) => j,
            None => 0,
        };
        let ghost frag = no_gaps(self.lexed@) && prim_end(self.lexed@, start) is Some
            && binary_op_of(tok_at(self.lexed@, jj)) is None;
        let mut lhs = match self.try_parse_primary_expression() {
            Some(e) => e,
            None => return None,
        };
        loop
            invariant
                frag ==> no_gaps(self.lexed@) && binary_op_of(tok_at(self.lexed@, jj)) is None,
                frag ==> prim_tree(lhs, self.lexed@, start) == Some(jj) && self.next == jj
                    && self.prev != Token::Newline,
                self.wf(),
                old(self).steps_to(&*self),
                self.next > old(self).position(),
                self.slack() > old(self).slack(),
                grouped_at(lhs, current_prec as nat),
                lhs matches Expr::Binary(b) ==> stops_at(self.current(), spec_precedence(b.op)) || *b.right is Missing,
                old(self).spans_read(&*self, expr_span(lhs)),
            ensures
                grouped_at(lhs, current_prec as nat),
                stops_at(self.current(), current_prec as nat),
                old(self).spans_read(&*self, expr_span(lhs)),
                frag ==> prim_tree(lhs, self.lexed@, start) == Some(jj) && self.next == jj
                    && self.prev != Token::Newline,
            decreases self.left(),
        {
            proof {
                self.lemma_current_is_tok();
            }
            let op = match self.try_peek_binary_operator() {
                Some(op) => op,
                None => break,
            };
            let op_prec = op.precedence();
            if op_prec < current_prec {
                break;
            }
            let op_tok = self.consume_token();
            let rhs = self.expect_precedence_operation(op_prec);
            proof {
                lemma_mix3_within(expr_span(lhs), op_tok, expr_span(rhs), old(self).here(), self.here());
            }
            lhs = Expr::Binary(ast::Binary { op, op_tok, left: Box::new(lhs), right: Box::new(rhs) });
        }
        Some(lhs)
    }

    fn try_parse_int_expression(&mut self) -> (r: Option<Expr>)
        requires
            old(self).wf(),
        ensures
            r matches Some(e) ==> old(self).spans_read(&*final(self), expr_span(e)),
            old(self).steps_to(&*final(self)),
            (r is Some) == (old(self).current() == Token::Int),
            r is None ==> old(self).same_as(&*final(self)),
            r is Some ==> final(self).position() > old(self).position() && final(self).slack() > old(self).slack(),
            r is Some ==> r == (Some(Expr::Int(Lexeme { span: old(self).current_span() }))),
            r is Some && no_gaps(old(self).lexed@) ==> final(self).next == old(self).next + 1 && final(self).prev == old(self).current(),
    {
        match self.try_expect_token(Token::Int) {
            Some(token) => Some(Expr::Int(Lexeme { span: token })),
            None => None,
        }
    }

    fn try_parse_float_expression(&mut self) -> (r: Option<Expr>)
        requires
            old(self).wf(),
        ensures
            r matches Some(e) ==> old(self).spans_read(&*final(self), expr_span(e)),
            old(self).steps_to(&*final(self)),
            (r is Some) == (old(self).current() == Token::Float),
            r is None ==> old(self).same_as(&*final(self)),
            r is Some ==> final(self).position() > old(self).position() && final(self).slack() > old(self).slack(),
            r is Some ==> r == (Some(Expr::Float(Lexeme { span: old(self).current_span() }))),
            r is Some && no_gaps(old(self).lexed@) ==> final(self).next == old(self).next + 1 && final(self).prev == old(self).current(),
    {
        match self.try_expect_token(Token::Float) {
            Some(token) => Some(Expr::Float(Lexeme { span: token })),
            None => None,
        }
    }

    fn try_parse_string_expression(&mut self) -> (r: Option<Expr>)
        requires
            old(self).wf(),
        ensures
            r matches Some(e) ==> old(self).spans_read(&*final(self), expr_span(e)),
            old(self).steps_to(&*final(self)),
            (r is Some) == (old(self).current() == Token::String),
            r is None ==> old(self).same_as(&*final(self)),
            r is Some ==> final(self).position() > old(self).position() && final(self).slack() > old(self).slack(),
            r is Some ==> r == (Some(Expr::String(Lexeme { span: old(self).current_span() }))),
            r is Some && no_gaps(old(self).lexed@) ==> final(self).next == old(self).next + 1 && final(self).prev == old(self).current(),
    {
        match self.try_expect_token(Token::String) {
            Some(token) => Some(Expr::String(Lexeme { span: token })),
            None => None,
        }
    }

    fn try_parse_builtin_expression(&mut self) -> (r: Option<Expr>)
        requires
            old(self).wf(),
        ensures
            r matches Some(e) ==> old(self).spans_read(&*final(self), expr_span(e)),
            old(self).steps_to(&*final(self)),
            (r is Some) == (old(self).current() == Token::Builtin),
            r is None ==> old(self).same_as(&*final(self)),
            r is Some ==> final(self).position() > old(self).position() && final(self).slack() > old(self).slack(),
            r is Some ==> r == (Some(Expr::Builtin(Lexeme { span: old(self).current_span() }))),
            r is Some && no_gaps(old(self).lexed@) ==> final(self).next == old(self).next + 1 && final(self).prev == old(self).current(),
    {
        match self.try_expect_token(Token::Builtin) {
            Some(token) => Some(Expr::Builtin(Lexeme { span: token })),
            None => None,
        }
    }

    fn try_parse_true_expression(&mut self) -> (r: Option<Expr>)
        requires
            old(self).wf(),
        ensures
            r matches Some(e) ==> old(self).spans_read(&*final(self), expr_span(e)),
            old(self).steps_to(&*final(self)),
            (r is Some) == (old(self).current() == Token::True),
            r is None ==> old(self).same_as(&*final(self)),
            r is Some ==> final(self).position() > old(self).position() && final(self).slack() > old(self).slack(),
            r is Some ==> r == (Some(Expr::True(Lexeme { span: old(self).current_span() }))),
            r is Some && no_gaps(old(self).lexed@) ==> final(self).next == old(self).next + 1 && final(self).prev == old(self).current(),
    {
        match self.try_expect_token(Token::True) {
            Some(token) => Some(Expr::True(Lexeme { span: token })),
            None => None,
        }
    }

    fn try_parse_false_expression(&mut self) -> (r: Option<Expr>)
        requires
            old(self).wf(),
        ensures
            r matches Some(e) ==> old(self).spans_read(&*final(self), expr_span(e)),
            old(self).steps_to(&*final(self)),
            (r is Some) == (old(self).current() == Token::False),
            r is None ==> old(self).same_as(&*final(self)),
            r is Some ==> final(self).position() > old(self).position() && final(self).slack() > old(self).slack(),
            r is Some ==> r == (Some(Expr::False(Lexeme { span: old(self).current_span() }))),
            r is Some && no_gaps(old(self).lexed@) ==> final(self).next == old(self).next + 1 && final(self).prev == old(self).current(),
    {
        match self.try_expect_token(Token::False) {
            Some(token) => Some(Expr::False(Lexeme { span: token })),
            None => None,
        }
    }

    fn try_parse_underscores_expression(&mut self) -> (r: Option<Expr>)
        requires
            old(self).wf(),
        ensures
            r matches Some(e) ==> old(self).spans_read(&*final(self), expr_span(e)),
            old(self).steps_to(&*final(self)),
            (r is Some) == (old(self).current() == Token::Underscores),
            r is None ==> old(self).same_as(&*final(self)),
            r is Some ==> final(self).position() > old(self).position() && final(self).slack() > old(self).slack(),
            r is Some ==> r == (Some(Expr::Underscores(Lexeme { span: old(self).current_span() }))),
            r is Some && no_gaps(old(self).lexed@) ==> final(self).next == old(self).next + 1 && final(self).prev == old(self).current(),
    {
        match self.try_expect_token(Token::Underscores) {
            Some(token) => Some(Expr::Underscores(Lexeme { span: token })),
            None => None,
        }
    }

    fn try_parse_var_expression(&mut self) -> (r: Option<Expr>)
        requires
            old(self).wf(),
        ensures
            r matches Some(e) ==> old(self).spans_read(&*final(self), expr_span(e)),
            old(self).steps_to(&*final(self)),
            (r is Some) == (old(self).current() == Token::Ident),
            r is None ==> old(self).same_as(&*final(self)),
            r is Some ==> final(self).position() > old(self).position() && final(self).slack() > old(self).slack(),
            r is Some ==> r == (Some(Expr::Var(Lexeme { span: old(self).current_span() }))),
            r is Some && no_gaps(old(self).lexed@) ==> final(self).next == old(self).next + 1 && final(self).prev == old(self).current(),
    {
        match self.try_expect_token(Token::Ident) {
            Some(token) => Some(Expr::Var(Lexeme { span: token })),
            None => None,
        }
    }

    fn try_parse_super_expression(&mut self) -> (r: Option<Expr>)
        requires
            old(self).wf(),
        ensures
            r matches Some(e) ==> old(self).spans_read(&*final(self), expr_span(e)),
            old(self).steps_to(&*final(self)),
            (r is Some) == (old(self).current() == Token::Super),
            r is None ==> old(self).same_as(&*final(self)),
            r is Some ==> final(self).position() > old(self).position() && final(self).slack() > old(self).slack(),
            r is Some ==> r == (Some(Expr::Super(Lexeme { span: old(self).current_span() }))),
            r is Some && no_gaps(old(self).lexed@) ==> final(self).next == old(self).next + 1 && final(self).prev == old(self).current(),
    {
        match self.try_expect_token(Token::Super) {
            Some(token) => Some(Expr::Super(Lexeme { span: token })),
            None => None,
        }
    }

    /// Parses a primary expression: an operator and its operand, or a
    /// literal, a name or a construct, followed by calls, indexing and
    /// accesses.
    #[verifier::spinoff_prover]
    pub fn try_parse_primary_expression(&mut self) -> (r: Option<Expr>)
        requires
            old(self).wf(),
        ensures
            r matches Some(e) ==> old(self).spans_read(&*final(self), expr_span(e)),
            old(self).steps_to(&*final(self)),
            (r is Some) == (starts_expression(old(self).current())),
            r is None ==> old(self).same_as(&*final(self)),
            r is Some ==> final(self).position() > old(self).position() && final(self).slack() > old(self).slack(),
            r matches Some(e) ==> !(e is Binary),
            is_unary_token(old(self).current()) ==> (r matches Some(e) && e matches Expr::Unary(u)
                && unary_op_of(old(self).current()) == Some(u.op) && u.op_tok == old(self).current_span()),
            old(self).current() == Token::Not ==> (r matches Some(Expr::Unary(u)) && u.op == UnOp::Not),
            old(self).current() == Token::BitNeg ==> (r matches Some(Expr::Unary(u)) && u.op == UnOp::BitNeg),
            old(self).current() == Token::Sub ==> (r matches Some(Expr::Unary(u)) && u.op == UnOp::Neg),
            old(self).current() == Token::Add ==> (r matches Some(Expr::Unary(u)) && u.op == UnOp::Pos),
            !is_unary_token(old(self).current()) ==> (r matches Some(e) ==> begins_as(postfix_base(e), old(self).current())),
            r matches Some(e) ==> postfix_ordered(e),
            r matches Some(e) ==> postfix_inner(e),
            no_gaps(old(self).tokens()) ==> (prim_end(old(self).tokens(), old(self).position() as int) matches Some(j) ==>
                (r matches Some(e) && prim_tree(e, old(self).tokens(), old(self).position() as int) == Some(j)
                    && final(self).position() == j && final(self).last() != Token::Newline)),
        decreases old(self).left(), 4nat,
    {
        let ghost start = self.next as int;
        let ghost jj = match prim_end(self.lexed@, start) {
            Some(j) => j,
            None => 0,
        };
        let ghost frag = no_gaps(self.lexed@) && prim_end(self.lexed@, start) is Some;
        if let Some(op) = self.try_peek_unary_operator() {
            let op_tok = self.consume_token();
            let arg = self.expect_primary_expression();
            proof {
                lemma_mix2_within(op_tok, expr_span(arg), old(self).here(), self.here());
            }
            return Some(Expr::Unary(ast::Unary { op, op_tok, arg: Box::new(arg) }));
        }
        let first = match self.peek() {
            Token::Int => self.try_parse_int_expression(),
            Token::Float => self.try_parse_float_expression(),
            Token::String => self.try_parse_string_expression(),
            Token::Builtin => self.try_parse_builtin_expression(),
            Token::True => self.try_parse_true_expression(),
            Token::False => self.try_parse_false_expression(),
            Token::Underscores => self.try_parse_underscores_expression(),
            Token::Ident => self.try_parse_var_expression(),
            Token::LeftParen => self.try_parse_tuple_expression(),
            Token::LeftBracket => self.try_parse_array_expression(),
            Token::LeftBrace => self.try_parse_record_value_expression(),
            Token::Do => self.try_parse_block_expression(),
            Token::If | Token::While | Token::Loop | Token::Match => self.try_parse_conditional_expression(),
            Token::Break => self.try_parse_break_expression(),
            Token::Skip => self.try_parse_skip_expression(),
            Token::Fun => self.try_parse_fun_expression(),
            Token::Let => return self.try_parse_let_expression(),
            Token::Pub => return self.try_parse_pub_expression(),
            Token::Alias => return self.try_parse_alias_expression(),
            Token::Import => return self.try_parse_import_expression(),
            Token::Super => self.try_parse_super_expression(),
            Token::Record => self.try_parse_record_expression(),
            Token::Union => self.try_parse_union_expression(),
            Token::Class => self.try_parse_class_expression(),
            Token::Have => self.try_parse_have_expression(),
            _ => None,
        };
        let mut expr = match first {
            Some(e) => e,
            None => return None,
        };
        let empty_array = match &expr {
            Expr::Array(array) => if array.items.len() == 0 {
                Some((array.left_bracket, array.right_bracket))
            } else {
                None
            },
            _ => None,
        };
        if let Some((left_bracket, right_bracket)) = empty_array {
            if let Some(ty) = self.try_parse_primary_expression() {
                proof {
                    lemma_mix3_within(left_bracket, right_bracket, expr_span(ty), old(self).here(), self.here());
                }
                return Some(Expr::ArrayType(ast::ArrayType { left_bracket, right_bracket, ty: Box::new(ty) }));
            }
        }
        loop
            invariant
                self.wf(),
                old(self).steps_to(&*self),
                self.next > old(self).position(),
                self.slack() > old(self).slack(),
                !(expr is Binary),
                old(self).spans_read(&*self, expr_span(expr)),
                !is_unary_token(old(self).current()) ==> begins_as(postfix_base(expr), old(self).current()),
                postfix_ordered(expr),
                postfix_inner(expr),
                frag ==> no_gaps(self.lexed@),
                frag ==> prim_tree(expr, self.lexed@, start) == Some(self.next as int)
                    && chain_end(self.lexed@, self.next as int) == Some(jj) && self.prev != Token::Newline,
            ensures
                self.wf(),
                old(self).steps_to(&*self),
                self.next > old(self).position(),
                self.slack() > old(self).slack(),
                !(expr is Binary),
                old(self).spans_read(&*self, expr_span(expr)),
                !is_unary_token(old(self).current()) ==> begins_as(postfix_base(expr), old(self).current()),
                postfix_ordered(expr),
                postfix_inner(expr),
                frag ==> prim_tree(expr, self.lexed@, start) == Some(jj) && self.next == jj
                    && self.prev != Token::Newline,
            decreases self.left(),
        {
            let ghost p0 = self.next as int;
            proof {
                if frag {
                    self.lemma_current_is_tok();
                    lemma_chain_step(self.lexed@, p0);
                }
            }
            if let Some(left_paren) = self.try_expect_token(Token::LeftParen) {
                let args = self.parse_comma_separated_items(Ghost(Token::RightParen));
                proof {
                    if frag {
                        self.lemma_current_is_tok();
                    }
                }
                let right_paren = self.expect_token(Token::RightParen);
                proof {
                    lemma_mix4_within(expr_span(expr), left_paren, exprs_span(args@), right_paren, old(self).here(), self.here());
                }
                proof {
                    assert forall|k: int| 0 <= k < args@.len() implies
                        lies_within(expr_span(#[trigger] args@[k]), left_paren.end, right_paren.start) by {
                        lemma_exprs_span_covers(args@, k);
                    }
                }
                let ghost callee = expr;
                expr = Expr::Call(ast::Call { left_paren, right_paren, callee: Box::new(expr), args });
                proof {
                    if frag {
                        assert(prim_tree(callee, self.lexed@, start) == Some(p0));
                        assert(prim_tree(expr, self.lexed@, start) == Some(self.next as int));
                    }
                }
                continue;
            }
            if let Some(left_bracket) = self.try_expect_token(Token::LeftBracket) {
                let indices = self.parse_comma_separated_items(Ghost(Token::RightBracket));
                proof {
                    if frag {
                        self.lemma_current_is_tok();
                    }
                }
                let right_bracket = self.expect_token(Token::RightBracket);
                proof {
                    lemma_mix4_within(expr_span(expr), left_bracket, exprs_span(indices@), right_bracket, old(self).here(), self.here());
                }
                proof {
                    assert forall|k: int| 0 <= k < indices@.len() implies
                        lies_within(expr_span(#[trigger] indices@[k]), left_bracket.end, right_bracket.start) by {
                        lemma_exprs_span_covers(indices@, k);
                    }
                }
                let ghost indexed = expr;
                expr = Expr::Index(ast::Index { left_bracket, right_bracket, indexed: Box::new(expr), indices });
                proof {
                    if frag {
                        assert(prim_tree(indexed, self.lexed@, start) == Some(p0));
                        assert(prim_tree(expr, self.lexed@, start) == Some(self.next as int));
                    }
                }
                continue;
            }
            self.skip_newlines();
            if let Some(dot) = self.try_expect_token(Token::Dot) {
                proof {
                    if frag {
                        self.lemma_current_is_tok();
                    }
                }
                let accessor = self.expect_accessor();
                proof {
                    lemma_mix3_within(expr_span(expr), dot, expr_span(accessor), old(self).here(), self.here());
                }
                let ghost accessed = expr;
                expr = Expr::Access(ast::Access { dot, accessor: Box::new(accessor), accessed: Box::new(expr) });
                proof {
                    if frag {
                        assert(prim_tree(accessed, self.lexed@, start) == Some(p0));
                        assert(prim_tree(expr, self.lexed@, start) == Some(self.next as int));
                    }
                }
                continue;
            }
            break;
        }
        Some(expr)
    }

    /// Parses what follows a dot: a name or `super`; where neither does,
    /// reports it and gives a missing expression.
    fn expect_accessor(&mut self) -> (e: Expr)
        requires
            old(self).wf(),
        ensures
            old(self).spans_read(&*final(self), expr_span(e)),
            old(self).steps_to(&*final(self)),
            no_gaps(old(self).lexed@) && (old(self).current() == Token::Ident || old(self).current() == Token::Super) ==>
                atom_is(e, old(self).lexed@, old(self).next as int) && final(self).next == old(self).next + 1
                && final(self).prev == old(self).current(),
    {
        let accessor = match self.peek() {
            Token::Ident => self.try_parse_var_expression(),
            Token::Super => self.try_parse_super_expression(),
            _ => None,
        };
        match accessor {
            Some(accessor) => accessor,
            None => {
                let loc = self.loc_here();
                self.reports.push(Report::error(Header::ExpectedExpression()).with_primary_label(Label::Empty, loc));
                Expr::Missing(Lexeme { span: self.span_here() })
            },
        }
    }

    fn try_parse_tuple_expression(&mut self) -> (r: Option<Expr>)
        requires
            old(self).wf(),
        ensures
            r matches Some(e) ==> old(self).spans_read(&*final(self), expr_span(e)),
            old(self).steps_to(&*final(self)),
            (r is Some) == (old(self).current() == Token::LeftParen),
            r is None ==> old(self).same_as(&*final(self)),
            r is Some ==> final(self).position() > old(self).position() && final(self).slack() > old(self).slack(),
            r matches Some(e) ==> e matches Expr::Tuple(t) && t.left_paren == old(self).current_span(),
        decreases old(self).left(), 1nat,
    {
        let left_paren = match self.try_expect_token(Token::LeftParen) {
            Some(s) => s,
            None => return None,
        };
        let items = self.parse_comma_separated_items(Ghost(Token::RightParen));
        let right_paren = self.expect_token(Token::RightParen);
        proof {
            lemma_mix3_within(left_paren, exprs_span(items@), right_paren, old(self).here(), self.here());
        }
        Some(Expr::Tuple(ast::Tuple { left_paren, right_paren, items }))
    }

    fn try_parse_array_expression(&mut self) -> (r: Option<Expr>)
        requires
            old(self).wf(),
        ensures
            r matches Some(e) ==> old(self).spans_read(&*final(self), expr_span(e)),
            old(self).steps_to(&*final(self)),
            (r is Some) == (old(self).current() == Token::LeftBracket),
            r is None ==> old(self).same_as(&*final(self)),
            r is Some ==> final(self).position() > old(self).position() && final(self).slack() > old(self).slack(),
            r matches Some(e) ==> e matches Expr::Array(a) && a.left_bracket == old(self).current_span(),
            r matches Some(e) ==> e matches Expr::Array(a) && lies_within(a.left_bracket, old(self).here(), final(self).here())
                && lies_within(a.right_bracket, old(self).here(), final(self).here()),
        decreases old(self).left(), 1nat,
    {
        let left_bracket = match self.try_expect_token(Token::LeftBracket) {
            Some(s) => s,
            None => return None,
        };
        let items = self.parse_comma_separated_items(Ghost(Token::RightBracket));
        let right_bracket = self.expect_token(Token::RightBracket);
        proof {
            lemma_mix3_within(left_bracket, exprs_span(items@), right_bracket, old(self).here(), self.here());
        }
        Some(Expr::Array(ast::Array { left_bracket, right_bracket, items }))
    }

    fn try_parse_record_value_expression(&mut self) -> (r: Option<Expr>)
        requires
            old(self).wf(),
        ensures
            r matches Some(e) ==> old(self).spans_read(&*final(self), expr_span(e)),
            old(self).steps_to(&*final(self)),
            (r is Some) == (old(self).current() == Token::LeftBrace),
            r is None ==> old(self).same_as(&*final(self)),
            r is Some ==> final(self).position() > old(self).position() && final(self).slack() > old(self).slack(),
            r matches Some(e) ==> e matches Expr::RecordValue(v) && v.left_brace == old(self).current_span(),
        decreases old(self).left(), 1nat,
    {
        let left_brace = match self.try_expect_token(Token::LeftBrace) {
            Some(s) => s,
            None => return None,
        };
        let mut fields: Vec<(Expr, Option<Expr>)> = Vec::new();
        self.skip_newlines();
        loop
            invariant
                self.wf(),
                old(self).steps_to(&*self),
                self.next > old(self).position(),
                self.slack() > old(self).slack(),
                lies_within(value_fields_span(fields@), old(self).here(), self.here()),
            decreases self.left(),
        {
            let field = match self.try_parse_expression() {
                Some(f) => f,
                None => break,
            };
            let expr = match self.try_expect_token(Token::Assign) {
                Some(_) => Some(self.expect_expression()),
                None => None,
            };
            let ghost before = fields@;
            fields.push((field, expr));
            proof {
                assert(fields@.drop_last() =~= before);
            }
            if self.try_expect_token(Token::Comma).is_some() {
                self.skip_newlines();
            } else if !self.skip_newlines() {
                break;
            }
        }
        let right_brace = self.expect_token(Token::RightBrace);
        proof {
            lemma_mix3_within(left_brace, value_fields_span(fields@), right_brace, old(self).here(), self.here());
        }
        Some(Expr::RecordValue(ast::RecordValue { left_brace, right_brace, fields }))
    }

    fn try_parse_block_expression(&mut self) -> (r: Option<Expr>)
        requires
            old(self).wf(),
        ensures
            r matches Some(e) ==> old(self).spans_read(&*final(self), expr_span(e)),
            old(self).steps_to(&*final(self)),
            (r is Some) == (old(self).current() == Token::Do),
            r is None ==> old(self).same_as(&*final(self)),
            r is Some ==> final(self).position() > old(self).position() && final(self).slack() > old(self).slack(),
            r matches Some(e) ==> e matches Expr::Block(b) && b.do_kw == old(self).current_span(),
        decreases old(self).left(), 1nat,
    {
        let do_kw = match self.try_expect_token(Token::Do) {
            Some(s) => s,
            None => return None,
        };
        let label = self.parse_optional_label();
        let items = self.parse_newline_separated_items();
        let end_kw = self.expect_token(Token::End);
        proof {
            lemma_mix4_within(do_kw, label_span(label), exprs_span(items@), end_kw, old(self).here(), self.here());
        }
        Some(Expr::Block(ast::Block { do_kw, end_kw, label: Box::new(label), items }))
    }

    /// Parses a conditional: a first branch, then branches each after an
    /// `else`, then `end`.
    fn try_parse_conditional_expression(&mut self) -> (r: Option<Expr>)
        requires
            old(self).wf(),
        ensures
            r matches Some(e) ==> old(self).spans_read(&*final(self), expr_span(e)),
            old(self).steps_to(&*final(self)),
            (r is Some) == (starts_branch(old(self).current())),
            r is None ==> old(self).same_as(&*final(self)),
            r is Some ==> final(self).position() > old(self).position() && final(self).slack() > old(self).slack(),
            r matches Some(e) ==> e is Conditional,
        decreases old(self).left(), 3nat,
    {
        let first_branch = match self.try_parse_non_empty_branch() {
            Some(b) => b,
            None => return None,
        };
        let mut else_branches: Vec<(Span, ast::Branch)> = Vec::new();
        loop
            invariant
                self.wf(),
                old(self).steps_to(&*self),
                self.next > old(self).position(),
                self.slack() > old(self).slack(),
                old(self).spans_read(&*self, branch_span(first_branch)),
                lies_within(else_span(else_branches@), old(self).here(), self.here()),
            decreases self.left(),
        {
            let else_kw = match self.try_expect_token(Token::Else) {
                Some(s) => s,
                None => break,
            };
            let else_branch = self.try_parse_branch();
            proof {
                lemma_mix2_within(else_kw, branch_span(else_branch), old(self).here(), self.here());
            }
            let ghost before = else_branches@;
            else_branches.push((else_kw, else_branch));
            proof {
                assert(else_branches@.drop_last() =~= before);
            }
        }
        let end_kw = self.expect_token(Token::End);
        proof {
            lemma_mix3_within(branch_span(first_branch), else_span(else_branches@), end_kw, old(self).here(), self.here());
        }
        Some(Expr::Conditional(ast::Conditional { first_branch: Box::new(first_branch), else_branches, end_kw }))
    }

    fn try_parse_non_empty_branch(&mut self) -> (r: Option<ast::Branch>)
        requires
            old(self).wf(),
        ensures
            r matches Some(b) ==> old(self).spans_read(&*final(self), branch_span(b)),
            old(self).steps_to(&*final(self)),
            (r is Some) == (starts_branch(old(self).current())),
            r is None ==> old(self).same_as(&*final(self)),
            r is Some ==> final(self).position() > old(self).position() && final(self).slack() > old(self).slack(),
            r matches Some(b) ==> !(b is Else),
        decreases old(self).left(), 2nat,
    {
        match self.peek() {
            Token::If => self.try_parse_if_branch(),
            Token::While => self.try_parse_while_branch(),
            Token::Loop => self.try_parse_loop_branch(),
            Token::Match => self.try_parse_match_branch(),
            _ => None,
        }
    }

    /// Parses a branch after `else`: one that starts with its keyword, or
    /// else a label and a body.
    fn try_parse_branch(&mut self) -> (b: ast::Branch)
        requires
            old(self).wf(),
        ensures
            lies_within(branch_span(b), old(self).here(), final(self).here()),
            old(self).steps_to(&*final(self)),
            starts_branch(old(self).current()) ==> !(b is Else),
            !starts_branch(old(self).current()) ==> b is Else,
        decreases old(self).left(), 9nat,
    {
        if let Some(branch) = self.try_parse_non_empty_branch() {
            return branch;
        }
        let label = self.parse_optional_label();
        let body = self.parse_newline_separated_items();
        proof {
            lemma_mix2_within(label_span(label), exprs_span(body@), old(self).here(), self.here());
        }
        ast::Branch::Else(ast::ElseBranch { label: Box::new(label), body })
    }

    fn try_parse_if_branch(&mut self) -> (r: Option<ast::Branch>)
        requires
            old(self).wf(),
        ensures
            r matches Some(b) ==> old(self).spans_read(&*final(self), branch_span(b)),
            old(self).steps_to(&*final(self)),
            (r is Some) == (old(self).current() == Token::If),
            r is None ==> old(self).same_as(&*final(self)),
            r is Some ==> final(self).position() > old(self).position() && final(self).slack() > old(self).slack(),
            r matches Some(b) ==> b matches ast::Branch::If(i) && i.if_kw == old(self).current_span(),
        decreases old(self).left(), 1nat,
    {
        let if_kw = match self.try_expect_token(Token::If) {
            Some(s) => s,
            None => return None,
        };
        let label = self.parse_optional_label();
        let condition = self.expect_expression();
        let then_kw = self.expect_token(Token::Then);
        let body = self.parse_newline_separated_items();
        proof {
            lemma_mix5_within(if_kw, label_span(label), expr_span(condition), then_kw, exprs_span(body@), old(self).here(), self.here());
        }
        Some(ast::Branch::If(ast::IfBranch { if_kw, then_kw, label: Box::new(label), condition: Box::new(condition), body }))
    }

    fn try_parse_while_branch(&mut self) -> (r: Option<ast::Branch>)
        requires
            old(self).wf(),
        ensures
            r matches Some(b) ==> old(self).spans_read(&*final(self), branch_span(b)),
            old(self).steps_to(&*final(self)),
            (r is Some) == (old(self).current() == Token::While),
            r is None ==> old(self).same_as(&*final(self)),
            r is Some ==> final(self).position() > old(self).position() && final(self).slack() > old(self).slack(),
            r matches Some(b) ==> b matches ast::Branch::While(w) && w.while_kw == old(self).current_span(),
        decreases old(self).left(), 1nat,
    {
        let while_kw = match self.try_expect_token(Token::While) {
            Some(s) => s,
            None => return None,
        };
        let label = self.parse_optional_label();
        let condition = self.expect_expression();
        let do_kw = self.expect_token(Token::Do);
        let body = self.parse_newline_separated_items();
        proof {
            lemma_mix5_within(while_kw, label_span(label), expr_span(condition), do_kw, exprs_span(body@), old(self).here(), self.here());
        }
        Some(ast::Branch::While(ast::WhileBranch { while_kw, do_kw, label: Box::new(label), condition: Box::new(condition), body }))
    }

    fn try_parse_loop_branch(&mut self) -> (r: Option<ast::Branch>)
        requires
            old(self).wf(),
        ensures
            r matches Some(b) ==> old(self).spans_read(&*final(self), branch_span(b)),
            old(self).steps_to(&*final(self)),
            (r is Some) == (old(self).current() == Token::Loop),
            r is None ==> old(self).same_as(&*final(self)),
            r is Some ==> final(self).position() > old(self).position() && final(self).slack() > old(self).slack(),
            r matches Some(b) ==> b matches ast::Branch::Loop(l) && l.loop_kw == old(self).current_span(),
        decreases old(self).left(), 1nat,
    {
        let loop_kw = match self.try_expect_token(Token::Loop) {
            Some(s) => s,
            None => return None,
        };
        let label = self.parse_optional_label();
        let items = self.parse_newline_separated_items();
        proof {
            lemma_mix3_within(loop_kw, label_span(label), exprs_span(items@), old(self).here(), self.here());
        }
        Some(ast::Branch::Loop(ast::LoopBranch { loop_kw, label: Box::new(label), body: items }))
    }

    /// Parses a `match` branch: the scrutinee, `with`, then cases, one per
    /// line, each a pattern, `=>` and a value.
    fn try_parse_match_branch(&mut self) -> (r: Option<ast::Branch>)
        requires
            old(self).wf(),
        ensures
            r matches Some(b) ==> old(self).spans_read(&*final(self), branch_span(b)),
            old(self).steps_to(&*final(self)),
            (r is Some) == (old(self).current() == Token::Match),
            r is None ==> old(self).same_as(&*final(self)),
            r is Some ==> final(self).position() > old(self).position() && final(self).slack() > old(self).slack(),
            r matches Some(b) ==> b matches ast::Branch::Match(m) && m.match_kw == old(self).current_span(),
        decreases old(self).left(), 1nat,
    {
        let match_kw = match self.try_expect_token(Token::Match) {
            Some(s) => s,
            None => return None,
        };
        let scrutinee = self.expect_expression();
        let with_kw = self.expect_token(Token::With);
        let mut cases: Vec<ast::MatchCase> = Vec::new();
        self.skip_newlines();
        loop
            invariant
                self.wf(),
                old(self).steps_to(&*self),
                self.next > old(self).position(),
                self.slack() > old(self).slack(),
                lies_within(cases_span(cases@), old(self).here(), self.here()),
                lies_within(expr_span(scrutinee), old(self).here(), self.here()),
                lies_within(with_kw, old(self).here(), self.here()),
            decreases self.left(),
        {
            let pattern = match self.try_parse_primary_expression() {
                Some(p) => p,
                None => break,
            };
            let maps = self.expect_token(Token::Maps);
            let value = self.expect_expression();
            proof {
                lemma_mix3_within(expr_span(pattern), maps, expr_span(value), old(self).here(), self.here());
            }
            let ghost before = cases@;
            cases.push(ast::MatchCase { maps, pattern: Box::new(pattern), value: Box::new(value) });
            proof {
                assert(cases@.drop_last() =~= before);
            }
            if !self.skip_newlines() {
                break;
            }
        }
        proof {
            lemma_mix4_within(match_kw, expr_span(scrutinee), with_kw, cases_span(cases@), old(self).here(), self.here());
        }
        Some(ast::Branch::Match(ast::MatchBranch { match_kw, with_kw, scrutinee: Box::new(scrutinee), cases }))
    }

    fn try_parse_break_expression(&mut self) -> (r: Option<Expr>)
        requires
            old(self).wf(),
        ensures
            r matches Some(e) ==> old(self).spans_read(&*final(self), expr_span(e)),
            old(self).steps_to(&*final(self)),
            (r is Some) == (old(self).current() == Token::Break),
            r is None ==> old(self).same_as(&*final(self)),
            r is Some ==> final(self).position() > old(self).position() && final(self).slack() > old(self).slack(),
            r matches Some(e) ==> e matches Expr::Break(b) && b.break_kw == old(self).current_span(),
        decreases old(self).left(), 1nat,
    {
        let break_kw = match self.try_expect_token(Token::Break) {
            Some(s) => s,
            None => return None,
        };
        let label = self.parse_optional_label();
        let expr = match self.try_parse_expression() {
            Some(e) => Some(Box::new(e)),
            None => None,
        };
        proof {
            lemma_mix3_within(break_kw, label_span(label), opt_expr_span(expr), old(self).here(), self.here());
        }
        Some(Expr::Break(ast::Break { break_kw, label: Box::new(label), expr }))
    }

    fn try_parse_skip_expression(&mut self) -> (r: Option<Expr>)
        requires
            old(self).wf(),
        ensures
            r matches Some(e) ==> old(self).spans_read(&*final(self), expr_span(e)),
            old(self).steps_to(&*final(self)),
            (r is Some) == (old(self).current() == Token::Skip),
            r is None ==> old(self).same_as(&*final(self)),
            r is Some ==> final(self).position() > old(self).position() && final(self).slack() > old(self).slack(),
            r matches Some(e) ==> e matches Expr::Skip(k) && k.skip_kw == old(self).current_span(),
        decreases old(self).left(), 1nat,
    {
        let skip_kw = match self.try_expect_token(Token::Skip) {
            Some(s) => s,
            None => return None,
        };
        let label = self.parse_optional_label();
        proof {
            lemma_mix2_within(skip_kw, label_span(label), old(self).here(), self.here());
        }
        Some(Expr::Skip(ast::Skip { skip_kw, label: Box::new(label) }))
    }

    fn try_parse_let_expression(&mut self) -> (r: Option<Expr>)
        requires
            old(self).wf(),
        ensures
            r matches Some(e) ==> old(self).spans_read(&*final(self), expr_span(e)),
            old(self).steps_to(&*final(self)),
            (r is Some) == (old(self).current() == Token::Let),
            r is None ==> old(self).same_as(&*final(self)),
            r is Some ==> final(self).position() > old(self).position() && final(self).slack() > old(self).slack(),
            r matches Some(e) ==> e matches Expr::Let(l) && l.let_kw == old(self).current_span(),
        decreases old(self).left(), 1nat,
    {
        let let_kw = match self.try_expect_token(Token::Let) {
            Some(s) => s,
            None => return None,
        };
        let pattern = self.expect_primary_expression();
        let (assign, value) = self.parse_optional_symbol_then_expression(Token::Assign);
        proof {
            lemma_mix4_within(let_kw, expr_span(pattern), or_default(assign), expr_span(value), old(self).here(), self.here());
        }
        Some(Expr::Let(ast::Let { let_kw, assign, pattern: Box::new(pattern), value: Box::new(value) }))
    }

    fn try_parse_pub_expression(&mut self) -> (r: Option<Expr>)
        requires
            old(self).wf(),
        ensures
            r matches Some(e) ==> old(self).spans_read(&*final(self), expr_span(e)),
            old(self).steps_to(&*final(self)),
            (r is Some) == (old(self).current() == Token::Pub),
            r is None ==> old(self).same_as(&*final(self)),
            r is Some ==> final(self).position() > old(self).position() && final(self).slack() > old(self).slack(),
            r matches Some(e) ==> e matches Expr::Pub(q) && q.pub_kw == old(self).current_span(),
        decreases old(self).left(), 1nat,
    {
        let pub_kw = match self.try_expect_token(Token::Pub) {
            Some(s) => s,
            None => return None,
        };
        let expr = self.expect_primary_expression();
        proof {
            lemma_mix2_within(pub_kw, expr_span(expr), old(self).here(), self.here());
        }
        Some(Expr::Pub(ast::Pub { pub_kw, expr: Box::new(expr) }))
    }

    fn try_parse_fun_expression(&mut self) -> (r: Option<Expr>)
        requires
            old(self).wf(),
        ensures
            r matches Some(e) ==> old(self).spans_read(&*final(self), expr_span(e)),
            old(self).steps_to(&*final(self)),
            (r is Some) == (old(self).current() == Token::Fun),
            r is None ==> old(self).same_as(&*final(self)),
            r is Some ==> final(self).position() > old(self).position() && final(self).slack() > old(self).slack(),
            r matches Some(e) ==> e matches Expr::Fun(f) && f.fun_kw == old(self).current_span(),
        decreases old(self).left(), 1nat,
    {
        let fun_kw = match self.try_expect_token(Token::Fun) {
            Some(s) => s,
            None => return None,
        };
        let signature = self.expect_primary_expression();
        let (maps, value) = self.parse_optional_symbol_then_expression(Token::Maps);
        proof {
            lemma_mix4_within(fun_kw, expr_span(signature), or_default(maps), expr_span(value), old(self).here(), self.here());
        }
        Some(Expr::Fun(ast::Fun { fun_kw, maps, signature: Box::new(signature), value: Box::new(value) }))
    }

    /// Parses a value that is a block or a conditional, with no symbol before
    /// it; or else the symbol `token` and an expression.
    fn parse_optional_symbol_then_expression(&mut self, token: Token) -> (r: (Option<Span>, Expr))
        requires
            old(self).wf(),
        ensures
            lies_within(expr_span(r.1), old(self).here(), final(self).here()),
            lies_within(or_default(r.0), old(self).here(), final(self).here()),
            old(self).steps_to(&*final(self)),
            (old(self).current() == Token::Do || starts_branch(old(self).current())) ==> r.0 is None,
            !(old(self).current() == Token::Do || starts_branch(old(self).current())) ==> r.0 is Some,
        decreases old(self).left(), 9nat,
    {
        if let Some(e) = self.try_parse_block_expression() {
            (None, e)
        } else if let Some(e) = self.try_parse_conditional_expression() {
            (None, e)
        } else {
            let symbol = self.expect_token(token);
            (Some(symbol), self.expect_expression())
        }
    }

    fn try_parse_alias_expression(&mut self) -> (r: Option<Expr>)
        requires
            old(self).wf(),
        ensures
            r matches Some(e) ==> old(self).spans_read(&*final(self), expr_span(e)),
            old(self).steps_to(&*final(self)),
            (r is Some) == (old(self).current() == Token::Alias),
            r is None ==> old(self).same_as(&*final(self)),
            r is Some ==> final(self).position() > old(self).position() && final(self).slack() > old(self).slack(),
            r matches Some(e) ==> e matches Expr::Alias(a) && a.alias_kw == old(self).current_span(),
        decreases old(self).left(), 1nat,
    {
        let alias_kw = match self.try_expect_token(Token::Alias) {
            Some(s) => s,
            None => return None,
        };
        let path = self.expect_primary_expression();
        let as_kw = self.expect_token(Token::As);
        let name = self.expect_token(Token::Ident);
        proof {
            lemma_mix4_within(alias_kw, expr_span(path), as_kw, name, old(self).here(), self.here());
        }
        Some(Expr::Alias(ast::Alias { alias_kw, as_kw, path: Box::new(path), name }))
    }

    /// Parses an import: queries separated by commas, each with an optional
    /// alias, then, after `from`, the path they are imported from. An import
    /// with no query is reported.
    fn try_parse_import_expression(&mut self) -> (r: Option<Expr>)
        requires
            old(self).wf(),
        ensures
            r matches Some(e) ==> old(self).spans_read(&*final(self), expr_span(e)),
            old(self).steps_to(&*final(self)),
            (r is Some) == (old(self).current() == Token::Import),
            r is None ==> old(self).same_as(&*final(self)),
            r is Some ==> final(self).position() > old(self).position() && final(self).slack() > old(self).slack(),
            r matches Some(e) ==> (e is Import || e is ImportFrom),
        decreases old(self).left(), 1nat,
    {
        let import_kw = match self.try_expect_token(Token::Import) {
            Some(s) => s,
            None => return None,
        };
        let mut queries: Vec<ast::ImportQuery> = Vec::new();
        loop
            invariant
                self.wf(),
                old(self).steps_to(&*self),
                self.next > old(self).position(),
                self.slack() > old(self).slack(),
                lies_within(queries_span(queries@), old(self).here(), self.here()),
            decreases self.left(),
        {
            let item = match self.try_parse_expression() {
                Some(e) => e,
                None => break,
            };
            let alias = match self.try_expect_token(Token::As) {
                Some(_) => Some(self.expect_token(Token::Ident)),
                None => None,
            };
            let uid = self.next_uid();
            proof {
                if let Some(a) = alias {
                    lemma_mix2_within(expr_span(item), a, old(self).here(), self.here());
                }
            }
            let ghost before = queries@;
            queries.push(ast::ImportQuery { uid, query: Box::new(item), alias });
            proof {
                assert(queries@.drop_last() =~= before);
            }
            if self.try_expect_token(Token::Comma).is_none() {
                break;
            }
        }
        if queries.len() == 0 {
            let here = self.loc_here();
            self.reports.push(
                Report::error(Header::EmptyImport())
                    .with_primary_label(Label::Empty, import_kw.wrap(self.file))
                    .with_secondary_label(Label::ExpectedImportQuery, here),
            );
        }
        let from_kw = match self.try_expect_token(Token::From) {
            Some(s) => s,
            None => {
                proof {
                    lemma_mix2_within(import_kw, queries_span(queries@), old(self).here(), self.here());
                }
                return Some(Expr::Import(ast::Import { import_kw, queries }));
            },
        };
        let path = self.expect_expression();
        let path_query_uid = self.next_uid();
        proof {
            lemma_mix4_within(import_kw, queries_span(queries@), from_kw, expr_span(path), old(self).here(), self.here());
        }
        Some(Expr::ImportFrom(ast::ImportFrom { import_kw, queries, from_kw, path_query: Box::new(path), path_query_uid }))
    }

    fn try_parse_record_expression(&mut self) -> (r: Option<Expr>)
        requires
            old(self).wf(),
        ensures
            r matches Some(e) ==> old(self).spans_read(&*final(self), expr_span(e)),
            old(self).steps_to(&*final(self)),
            (r is Some) == (old(self).current() == Token::Record),
            r is None ==> old(self).same_as(&*final(self)),
            r is Some ==> final(self).position() > old(self).position() && final(self).slack() > old(self).slack(),
            r matches Some(e) ==> e matches Expr::Record(c) && c.record_kw == old(self).current_span(),
        decreases old(self).left(), 1nat,
    {
        let record_kw = match self.try_expect_token(Token::Record) {
            Some(s) => s,
            None => return None,
        };
        let signature = self.expect_primary_expression();
        let mut fields: Vec<(Expr, Expr)> = Vec::new();
        self.skip_newlines();
        loop
            invariant
                self.wf(),
                old(self).steps_to(&*self),
                self.next > old(self).position(),
                self.slack() > old(self).slack(),
                lies_within(fields_span(fields@), old(self).here(), self.here()),
                lies_within(expr_span(signature), old(self).here(), self.here()),
            decreases self.left(),
        {
            let field = match self.try_parse_expression() {
                Some(f) => f,
                None => break,
            };
            self.expect_token(Token::Colon);
            let ty = self.expect_primary_expression();
            proof {
                lemma_mix2_within(expr_span(field), expr_span(ty), old(self).here(), self.here());
            }
            let ghost before = fields@;
            fields.push((field, ty));
            proof {
                assert(fields@.drop_last() =~= before);
            }
            if self.try_expect_token(Token::Comma).is_some() {
                self.skip_newlines();
            } else if !self.skip_newlines() {
                break;
            }
        }
        let end_kw = self.expect_token(Token::End);
        proof {
            lemma_mix4_within(record_kw, expr_span(signature), fields_span(fields@), end_kw, old(self).here(), self.here());
        }
        Some(Expr::Record(ast::Record { record_kw, end_kw, signature: Box::new(signature), fields }))
    }

    fn try_parse_union_expression(&mut self) -> (r: Option<Expr>)
        requires
            old(self).wf(),
        ensures
            r matches Some(e) ==> old(self).spans_read(&*final(self), expr_span(e)),
            old(self).steps_to(&*final(self)),
            (r is Some) == (old(self).current() == Token::Union),
            r is None ==> old(self).same_as(&*final(self)),
            r is Some ==> final(self).position() > old(self).position() && final(self).slack() > old(self).slack(),
            r matches Some(e) ==> e matches Expr::Union(u) && u.union_kw == old(self).current_span(),
        decreases old(self).left(), 1nat,
    {
        let union_kw = match self.try_expect_token(Token::Union) {
            Some(s) => s,
            None => return None,
        };
        let signature = self.expect_primary_expression();
        let variants = self.parse_newline_separated_items();
        let end_kw = self.expect_token(Token::End);
        proof {
            lemma_mix4_within(union_kw, expr_span(signature), exprs_span(variants@), end_kw, old(self).here(), self.here());
        }
        Some(Expr::Union(ast::Union { union_kw, end_kw, signature: Box::new(signature), variants }))
    }

    /// Parses a class: its signature, its associated types after `of`, then
    /// items, each a name, `:` for a constant or `=>` for a function, and a
    /// type. An item with neither is reported.
    fn try_parse_class_expression(&mut self) -> (r: Option<Expr>)
        requires
            old(self).wf(),
        ensures
            r matches Some(e) ==> old(self).spans_read(&*final(self), expr_span(e)),
            old(self).steps_to(&*final(self)),
            (r is Some) == (old(self).current() == Token::Class),
            r is None ==> old(self).same_as(&*final(self)),
            r is Some ==> final(self).position() > old(self).position() && final(self).slack() > old(self).slack(),
            r matches Some(e) ==> e matches Expr::Class(c) && c.class_kw == old(self).current_span(),
        decreases old(self).left(), 1nat,
    {
        let class_kw = match self.try_expect_token(Token::Class) {
            Some(s) => s,
            None => return None,
        };
        let signature = self.expect_primary_expression();
        let associated = match self.try_expect_token(Token::Of) {
            Some(_) => Some(self.parse_strictly_comma_separated_items()),
            None => None,
        };
        let mut items: Vec<(ast::ClassItem, Expr, Expr)> = Vec::new();
        self.skip_newlines();
        loop
            invariant
                self.wf(),
                old(self).steps_to(&*self),
                self.next > old(self).position(),
                self.slack() > old(self).slack(),
                lies_within(class_items_span(items@), old(self).here(), self.here()),
                lies_within(expr_span(signature), old(self).here(), self.here()),
            decreases self.left(),
        {
            let item = match self.try_parse_expression() {
                Some(e) => e,
                None => break,
            };
            let kind = match self.peek() {
                Token::Colon => {
                    self.consume_token();
                    ast::ClassItem::Constant
                },
                Token::Maps => {
                    self.consume_token();
                    ast::ClassItem::Function
                },
                tok => {
                    let loc = self.loc_from_here();
                    self.reports.push(Report::error(Header::ExpectedTypeAnnotation(tok)).with_primary_label(Label::Empty, loc));
                    ast::ClassItem::Unknown
                },
            };
            let ty = self.expect_primary_expression();
            proof {
                lemma_mix2_within(expr_span(item), expr_span(ty), old(self).here(), self.here());
            }
            let ghost before = items@;
            items.push((kind, item, ty));
            proof {
                assert(items@.drop_last() =~= before);
            }
            if self.try_expect_token(Token::Comma).is_some() {
                self.skip_newlines();
            } else if !self.skip_newlines() {
                break;
            }
        }
        let end_kw = self.expect_token(Token::End);
        proof {
            lemma_mix4_within(class_kw, expr_span(signature), class_items_span(items@), end_kw, old(self).here(), self.here());
        }
        Some(Expr::Class(ast::Class { class_kw, end_kw, signature: Box::new(signature), associated, items }))
    }

    fn try_parse_have_expression(&mut self) -> (r: Option<Expr>)
        requires
            old(self).wf(),
        ensures
            r matches Some(e) ==> old(self).spans_read(&*final(self), expr_span(e)),
            old(self).steps_to(&*final(self)),
            (r is Some) == (old(self).current() == Token::Have),
            r is None ==> old(self).same_as(&*final(self)),
            r is Some ==> final(self).position() > old(self).position() && final(self).slack() > old(self).slack(),
            r matches Some(e) ==> e matches Expr::Have(h) && h.have_kw == old(self).current_span(),
        decreases old(self).left(), 1nat,
    {
        let have_kw = match self.try_expect_token(Token::Have) {
            Some(s) => s,
            None => return None,
        };
        let class = self.expect_primary_expression();
        let items = self.parse_newline_separated_items();
        let end_kw = self.expect_token(Token::End);
        proof {
            lemma_mix4_within(have_kw, expr_span(class), exprs_span(items@), end_kw, old(self).here(), self.here());
        }
        Some(Expr::Have(ast::Have { have_kw, end_kw, class: Box::new(class), items }))
    }

    /// Parses a label between chevrons, if one follows; else gives an empty
    /// label before the next token.
    fn parse_optional_label(&mut self) -> (l: ast::Label)
        requires
            old(self).wf(),
        ensures
            old(self).spans_read(&*final(self), label_span(l)),
            old(self).steps_to(&*final(self)),
            old(self).current() == Token::LeftChev ==>
                (l matches ast::Label::Named(n) && n.left_chev == old(self).current_span()),
            old(self).current() != Token::LeftChev ==> {
                &&& old(self).same_as(&*final(self))
                &&& l == (ast::Label::Empty(Span { start: old(self).here(), end: old(self).here() }))
            },
        decreases old(self).left(), 1nat,
    {
        let left_chev = match self.try_expect_token(Token::LeftChev) {
            Some(s) => s,
            None => return ast::Label::Empty(self.span_here()),
        };
        let name_expr = self.expect_primary_expression();
        let right_chev = self.expect_token(Token::RightChev);
        proof {
            lemma_mix3_within(left_chev, right_chev, expr_span(name_expr), old(self).here(), self.here());
        }
        ast::Label::Named(ast::NamedLabel { left_chev, right_chev, name_expr: Box::new(name_expr) })
    }

    /// Parses expressions separated by commas, each comma or item possibly
    /// followed by new lines.
    fn parse_comma_separated_items(&mut self, Ghost(close): Ghost<Token>) -> (items: Vec<Expr>)
        requires
            old(self).wf(),
        ensures
            no_gaps(old(self).lexed@) && old(self).prev != Token::Newline
                && (close == Token::RightParen || close == Token::RightBracket) ==>
                (list_end(old(self).lexed@, old(self).next as int, close) matches Some(m) ==>
                items_tree(items@, old(self).lexed@, old(self).next as int, close) == Some(m) && final(self).next == m),
            lies_within(exprs_span(items@), old(self).here(), final(self).here()),
            old(self).steps_to(&*final(self)),
            starts_expression(old(self).current()) ==> items@.len() > 0,
            !starts_expression(old(self).current()) && old(self).current() != Token::Newline ==>
                items@.len() == 0 && old(self).same_as(&*final(self)),
            forall|i: int| 0 <= i < items@.len() ==> grouped_at(#[trigger] items@[i], 0),
        decreases old(self).left(), 8nat,
    {
        let mut items: Vec<Expr> = Vec::new();
        self.skip_newlines();
        let ghost s1 = *self;
        let ghost start = old(self).next as int;
        let ghost frag = no_gaps(old(self).lexed@) && old(self).prev != Token::Newline
            && (close == Token::RightParen || close == Token::RightBracket)
            && list_end(old(self).lexed@, start, close) is Some;
        let ghost m = match list_end(old(self).lexed@, start, close) {
            Some(m) => m,
            None => 0,
        };
        proof {
            lemma_list_end(old(self).lexed@, start, close);
        }
        loop
            invariant_except_break
                frag ==> no_gaps(self.lexed@) && (close == Token::RightParen || close == Token::RightBracket),
                frag ==> list_end(self.lexed@, self.next as int, close) == Some(m)
                    && comma_prefix(items@, self.lexed@, start) == Some(self.next as int)
                    && self.prev != Token::Newline,
            invariant
                self.wf(),
                old(self).steps_to(&*self),
                lies_within(exprs_span(items@), old(self).here(), self.here()),
                items@.len() == 0 ==> s1.same_as(&*self),
                items@.len() > 0 ==> starts_expression(s1.current()),
                forall|i: int| 0 <= i < items@.len() ==> grouped_at(#[trigger] items@[i], 0),
            ensures
                self.wf(),
                old(self).steps_to(&*self),
                lies_within(exprs_span(items@), old(self).here(), self.here()),
                items@.len() == 0 ==> s1.same_as(&*self) && !starts_expression(s1.current()),
                items@.len() > 0 ==> starts_expression(s1.current()),
                forall|i: int| 0 <= i < items@.len() ==> grouped_at(#[trigger] items@[i], 0),
                frag ==> items_tree(items@, self.lexed@, start, close) == Some(m) && self.next == m,
            decreases self.left(),
        {
            let ghost k = self.next as int;
            proof {
                if frag {
                    self.lemma_current_is_tok();
                    lemma_list_step(self.lexed@, k, close);
                }
            }
            let item = match self.try_parse_expression() {
                Some(e) => e,
                None => {
                    proof {
                        if frag {
                            lemma_items_close(items@, self.lexed@, start, k, close);
                        }
                    }
                    break;
                },
            };
            proof {
                if frag {
                    lemma_prim_tree_grows(item, self.lexed@, k);
                    self.lemma_current_is_tok();
                }
            }
            let ghost before = items@;
            items.push(item);
            proof {
                assert(items@.drop_last() =~= before);
            }
            if self.try_expect_token(Token::Comma).is_some() {
                proof {
                    if frag {
                        lemma_comma_push(before, item, self.lexed@, start, k);
                        lemma_list_step(self.lexed@, k + 2, close);
                        self.lemma_current_is_tok();
                    }
                }
                self.skip_newlines();
            } else if !self.skip_newlines() {
                proof {
                    if frag {
                        lemma_items_last(before, item, self.lexed@, start, k, close);
                    }
                }
                break;
            }
        }
        items
    }

    /// Parses expressions separated by commas alone.
    fn parse_strictly_comma_separated_items(&mut self) -> (items: Vec<Expr>)
        requires
            old(self).wf(),
        ensures
            lies_within(exprs_span(items@), old(self).here(), final(self).here()),
            old(self).steps_to(&*final(self)),
            (items@.len() > 0) == starts_expression(old(self).current()),
            items@.len() == 0 ==> old(self).same_as(&*final(self)),
            forall|i: int| 0 <= i < items@.len() ==> grouped_at(#[trigger] items@[i], 0),
        decreases old(self).left(), 8nat,
    {
        let mut items: Vec<Expr> = Vec::new();
        let ghost s1 = *self;
        loop
            invariant
                self.wf(),
                old(self).steps_to(&*self),
                lies_within(exprs_span(items@), old(self).here(), self.here()),
                items@.len() == 0 ==> s1.same_as(&*self),
                items@.len() > 0 ==> starts_expression(s1.current()),
                forall|i: int| 0 <= i < items@.len() ==> grouped_at(#[trigger] items@[i], 0),
            ensures
                self.wf(),
                old(self).steps_to(&*self),
                lies_within(exprs_span(items@), old(self).here(), self.here()),
                items@.len() == 0 ==> s1.same_as(&*self) && !starts_expression(s1.current()),
                items@.len() > 0 ==> starts_expression(s1.current()),
                forall|i: int| 0 <= i < items@.len() ==> grouped_at(#[trigger] items@[i], 0),
            decreases self.left(),
        {
            let item = match self.try_parse_expression() {
                Some(e) => e,
                None => break,
            };
            let ghost before = items@;
            items.push(item);
            proof {
                assert(items@.drop_last() =~= before);
            }
            if self.try_expect_token(Token::Comma).is_none() {
                break;
            }
        }
        items
    }

    /// Parses expressions, one per line.
    fn parse_newline_separated_items(&mut self) -> (items: Vec<Expr>)
        requires
            old(self).wf(),
        ensures
            lies_within(exprs_span(items@), old(self).here(), final(self).here()),
            old(self).steps_to(&*final(self)),
            starts_expression(old(self).current()) ==> items@.len() > 0,
            !starts_expression(old(self).current()) && old(self).current() != Token::Newline ==>
                items@.len() == 0 && old(self).same_as(&*final(self)),
            forall|i: int| 0 <= i < items@.len() ==> grouped_at(#[trigger] items@[i], 0),
        decreases old(self).left(), 8nat,
    {
        let mut items: Vec<Expr> = Vec::new();
        self.skip_newlines();
        let ghost s1 = *self;
        loop
            invariant
                self.wf(),
                old(self).steps_to(&*self),
                lies_within(exprs_span(items@), old(self).here(), self.here()),
                items@.len() == 0 ==> s1.same_as(&*self),
                items@.len() > 0 ==> starts_expression(s1.current()),
                forall|i: int| 0 <= i < items@.len() ==> grouped_at(#[trigger] items@[i], 0),
            ensures
                self.wf(),
                old(self).steps_to(&*self),
                lies_within(exprs_span(items@), old(self).here(), self.here()),
                items@.len() == 0 ==> s1.same_as(&*self) && !starts_expression(s1.current()),
                items@.len() > 0 ==> starts_expression(s1.current()),
                forall|i: int| 0 <= i < items@.len() ==> grouped_at(#[trigger] items@[i], 0),
            decreases self.left(),
        {
            let item = match self.try_parse_expression() {
                Some(e) => e,
                None => break,
            };
            let ghost before = items@;
            items.push(item);
            proof {
                assert(items@.drop_last() =~= before);
            }
            if !self.skip_newlines() {
                break;
            }
        }
        items
    }
}

} // verus!
