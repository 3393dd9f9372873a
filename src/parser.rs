//! Recursive-descent parser: tokens of one line to one statement.
//!
//! Grammar, lowest precedence first (`{}` repeats, `[]` is optional):
//! ```text
//! stmt    = 'fun' name '(' { name [','] } ')' '=' expr
//!         | name '=' expr
//!         | '%' name '(' name [','] expr [','] expr [','] expr [','] ')'
//!         | expr
//! expr    = sum
//! sum     = product { ('+' | '-') product }
//! product = power { ('*' | '/') power }
//! power   = negated { '^' negated }
//! negated = '-' negated | postfix
//! postfix = call ['!']
//! call    = name '(' { expr [','] } ')' | primary
//! primary = name | number | '(' expr ')'
//! ```
//! Every statement must be followed by the end of input.
use vstd::prelude::*;
use crate::ast::{Args, BinaryOp, Expr, MagicKind, Stmt, UnaryOp, Valuable};
use crate::lexer::Token;

verus! {

/// Why a line does not parse.
#[derive(Debug, Clone, Copy, PartialEq, Eq)]
pub enum ParseError {
    /// The line holds no statement.
    EmptyInput,
    /// The tokens ran out before the statement was complete.
    UnexpectedEnd,
    /// A statement starts with a character the lexer does not know.
    InvalidChar,
    /// A name was expected after `fun`, after `%`, or as a command argument.
    ExpectName,
    /// `(` was expected after the named function or command.
    ExpectLeftParen(usize),
    /// A `)` is missing.
    MissingRightParen,
    /// `=` was expected after a parameter list.
    ExpectEq,
    /// An operator or `=` stands at the end of the input.
    ExpectExpression,
    /// A token that cannot begin an operand.
    InvalidSyntax,
    /// A command name other than the plot command.
    UnknownMagic(usize),
    /// A complete statement is followed by more input.
    TrailingInput,
}

pub type Parsed = Result<(Expr, int), ParseError>;

pub open spec fn tok_is_eof(toks: Seq<Token>, i: int) -> bool {
    0 <= i < toks.len() && toks[i] is Eof
}

/// The position of the parameter `k` among `params` (the last one, if repeated).
pub open spec fn param_slot(params: Seq<usize>, k: usize) -> Option<nat>
    decreases params.len(),
{
    if params.len() == 0 {
        None
    } else if params.last() == k {
        Some((params.len() - 1) as nat)
    } else {
        param_slot(params.drop_last(), k)
    }
}

/// The operand after a binary operator at `j`: fails when the input ends there.
pub open spec fn operand_start_ok(toks: Seq<Token>, j: int) -> Result<(), ParseError> {
    if j >= toks.len() - 1 {
        Err(ParseError::UnexpectedEnd)
    } else if toks[j + 1] is Eof {
        Err(ParseError::ExpectExpression)
    } else {
        Ok(())
    }
}

/// Arguments of a call, starting at `i`, up to (not over) the closing `)`.
pub open spec fn p_args(toks: Seq<Token>, params: Seq<usize>, i: int) -> Result<(Args, int), ParseError>
    decreases toks.len() - i, 9int,
{
    if i < 0 || i >= toks.len() {
        Err(ParseError::UnexpectedEnd)
    } else if toks[i] is RightParen {
        Ok((Args::Nil, i))
    } else {
        match p_sum(toks, params, i) {
            Err(e) => Err(e),
            Ok((e, j)) => {
                if i < j <= toks.len() {
                    let k = if j < toks.len() && toks[j] is Comma { j + 1 } else { j };
                    match p_args(toks, params, k) {
                        Err(x) => Err(x),
                        Ok((rest, m)) => Ok((Args::Cons { head: Box::new(e), tail: Box::new(rest) }, m)),
                    }
                } else {
                    Err(ParseError::UnexpectedEnd)
                }
            },
        }
    }
}

/// `sum` starting at `i`.
pub open spec fn p_sum(toks: Seq<Token>, params: Seq<usize>, i: int) -> Parsed
    decreases toks.len() - i, 8int,
{
    if i < 0 || i >= toks.len() {
        Err(ParseError::UnexpectedEnd)
    } else {
        match p_product(toks, params, i) {
            Err(e) => Err(e),
            Ok((l, j)) => if i < j <= toks.len() {
                p_sum_rest(toks, params, l, j)
            } else {
                Err(ParseError::UnexpectedEnd)
            },
        }
    }
}

/// The `+`/`-` tail of a sum whose left part `left` ends before `j`.
pub open spec fn p_sum_rest(toks: Seq<Token>, params: Seq<usize>, left: Expr, j: int) -> Parsed
    decreases toks.len() - j, 8int,
{
    if 0 <= j < toks.len() && (toks[j] is Plus || toks[j] is Minus) {
        let op = if toks[j] is Plus { BinaryOp::Plus } else { BinaryOp::Sub };
        match operand_start_ok(toks, j) {
            Err(e) => Err(e),
            Ok(_) => match p_product(toks, params, j + 1) {
                Err(e) => Err(e),
                Ok((r, k)) => if j + 1 < k <= toks.len() {
                    p_sum_rest(toks, params, Expr::Binary { left: Box::new(left), op, right: Box::new(r) }, k)
                } else {
                    Err(ParseError::UnexpectedEnd)
                },
            },
        }
    } else {
        Ok((left, j))
    }
}

/// `product` starting at `i`.
pub open spec fn p_product(toks: Seq<Token>, params: Seq<usize>, i: int) -> Parsed
    decreases toks.len() - i, 7int,
{
    if i < 0 || i >= toks.len() {
        Err(ParseError::UnexpectedEnd)
    } else {
        match p_power(toks, params, i) {
            Err(e) => Err(e),
            Ok((l, j)) => if i < j <= toks.len() {
                p_product_rest(toks, params, l, j)
            } else {
                Err(ParseError::UnexpectedEnd)
            },
        }
    }
}

/// The `*`/`/` tail of a product whose left part `left` ends before `j`.
pub open spec fn p_product_rest(toks: Seq<Token>, params: Seq<usize>, left: Expr, j: int) -> Parsed
    decreases toks.len() - j, 7int,
{
    if 0 <= j < toks.len() && (toks[j] is Star || toks[j] is Slash) {
        let op = if toks[j] is Star { BinaryOp::Mult } else { BinaryOp::Div };
        match operand_start_ok(toks, j) {
            Err(e) => Err(e),
            Ok(_) => match p_power(toks, params, j + 1) {
                Err(e) => Err(e),
                Ok((r, k)) => if j + 1 < k <= toks.len() {
                    p_product_rest(toks, params, Expr::Binary { left: Box::new(left), op, right: Box::new(r) }, k)
                } else {
                    Err(ParseError::UnexpectedEnd)
                },
            },
        }
    } else {
        Ok((left, j))
    }
}

/// `power` starting at `i`.
pub open spec fn p_power(toks: Seq<Token>, params: Seq<usize>, i: int) -> Parsed
    decreases toks.len() - i, 6int,
{
    if i < 0 || i >= toks.len() {
        Err(ParseError::UnexpectedEnd)
    } else {
        match p_negated(toks, params, i) {
            Err(e) => Err(e),
            Ok((l, j)) => if i < j <= toks.len() {
                p_power_rest(toks, params, l, j)
            } else {
                Err(ParseError::UnexpectedEnd)
            },
        }
    }
}

/// The `^` tail of a power whose left part `left` ends before `j`; `^` groups to the left.
pub open spec fn p_power_rest(toks: Seq<Token>, params: Seq<usize>, left: Expr, j: int) -> Parsed
    decreases toks.len() - j, 6int,
{
    if 0 <= j < toks.len() && toks[j] is Caret {
        match operand_start_ok(toks, j) {
            Err(e) => Err(e),
            Ok(_) => match p_negated(toks, params, j + 1) {
                Err(e) => Err(e),
                Ok((r, k)) => if j + 1 < k <= toks.len() {
                    p_power_rest(toks, params, Expr::Binary { left: Box::new(left), op: BinaryOp::Square, right: Box::new(r) }, k)
                } else {
                    Err(ParseError::UnexpectedEnd)
                },
            },
        }
    } else {
        Ok((left, j))
    }
}

/// `negated` starting at `i`.
pub open spec fn p_negated(toks: Seq<Token>, params: Seq<usize>, i: int) -> Parsed
    decreases toks.len() - i, 5int,
{
    if i < 0 || i >= toks.len() {
        Err(ParseError::UnexpectedEnd)
    } else if toks[i] is Minus {
        match operand_start_ok(toks, i) {
            Err(e) => Err(e),
            Ok(_) => match p_negated(toks, params, i + 1) {
                Err(e) => Err(e),
                Ok((e, j)) => Ok((Expr::Unary { op: UnaryOp::Minus, operand: Box::new(e) }, j)),
            },
        }
    } else {
        p_postfix(toks, params, i)
    }
}

/// `postfix` starting at `i`.
pub open spec fn p_postfix(toks: Seq<Token>, params: Seq<usize>, i: int) -> Parsed
    decreases toks.len() - i, 4int,
{
    if i < 0 || i >= toks.len() {
        Err(ParseError::UnexpectedEnd)
    } else {
        match p_call(toks, params, i) {
            Err(e) => Err(e),
            Ok((e, j)) => if 0 <= j < toks.len() && toks[j] is Bang {
                Ok((Expr::Unary { op: UnaryOp::Ftl, operand: Box::new(e) }, j + 1))
            } else {
                Ok((e, j))
            },
        }
    }
}

/// `call` starting at `i`.
pub open spec fn p_call(toks: Seq<Token>, params: Seq<usize>, i: int) -> Parsed
    decreases toks.len() - i, 3int,
{
    if i < 0 || i >= toks.len() {
        Err(ParseError::UnexpectedEnd)
    } else if toks[i] is Ident && i + 1 < toks.len() && toks[i + 1] is LeftParen {
        match p_args(toks, params, i + 2) {
            Err(e) => Err(e),
            Ok((args, m)) => if 0 <= m < toks.len() && toks[m] is RightParen {
                Ok((Expr::Call { idx: toks[i]->Ident_0, args }, m + 1))
            } else {
                Err(ParseError::MissingRightParen)
            },
        }
    } else {
        p_primary(toks, params, i)
    }
}

/// `primary` starting at `i`.
pub open spec fn p_primary(toks: Seq<Token>, params: Seq<usize>, i: int) -> Parsed
    decreases toks.len() - i, 2int,
{
    if i < 0 || i >= toks.len() {
        Err(ParseError::UnexpectedEnd)
    } else {
        match toks[i] {
            Token::Ident(k) => match param_slot(params, k) {
                Some(s) => Ok((Expr::Literal { value: Valuable::Arg(s as usize) }, i + 1)),
                None => Ok((Expr::Literal { value: Valuable::Var(k) }, i + 1)),
            },
            Token::Number(v) => Ok((Expr::Literal { value: Valuable::Value(v) }, i + 1)),
            Token::LeftParen => if i + 1 >= toks.len() {
                Err(ParseError::UnexpectedEnd)
            } else {
                match p_sum(toks, params, i + 1) {
                    Err(e) => Err(e),
                    Ok((e, j)) => if 0 <= j < toks.len() && toks[j] is RightParen {
                        Ok((Expr::Group { body: Box::new(e) }, j + 1))
                    } else {
                        Err(ParseError::MissingRightParen)
                    },
                }
            },
            _ => Err(ParseError::InvalidSyntax),
        }
    }
}

/// Whether an executable parse result is the result the grammar gives.
pub open spec fn agrees(r: Result<(Expr, usize), ParseError>, s: Parsed) -> bool {
    match r {
        Ok((e, j)) => s == Ok::<(Expr, int), ParseError>((e, j as int)),
        Err(x) => s == Err::<(Expr, int), ParseError>(x),
    }
}

fn param_slot_of(params: &Vec<usize>, k: usize) -> (r: Option<usize>)
    ensures
        r matches Some(s) ==> param_slot(params@, k) == Some(s as nat),
        r is None ==> param_slot(params@, k) is None,
{
    let mut n = params.len();
    assert(params@.subrange(0, n as int) =~= params@);
    while n > 0
        invariant
            n <= params@.len(),
            param_slot(params@, k) == param_slot(params@.subrange(0, n as int), k),
        decreases n,
    {
        if params[n - 1] == k {
            return Some(n - 1);
        }
        proof {
            assert(params@.subrange(0, n as int).drop_last() =~= params@.subrange(0, n - 1));
        }
        n = n - 1;
    }
    None
}

fn check_operand(toks: &Vec<Token>, j: usize) -> (r: Result<(), ParseError>)
    requires
        j < toks@.len(),
    ensures
        r == operand_start_ok(toks@, j as int),
{
    if j >= toks.len() - 1 {
        Err(ParseError::UnexpectedEnd)
    } else {
        match &toks[j + 1] {
            Token::Eof => Err(ParseError::ExpectExpression),
            _ => Ok(()),
        }
    }
}

fn parse_args(toks: &Vec<Token>, params: &Vec<usize>, i: usize) -> (r: Result<(Args, usize), ParseError>)
    requires
        i <= toks@.len(),
    ensures
        match r {
            Ok((a, m)) => p_args(toks@, params@, i as int) == Ok::<(Args, int), ParseError>((a, m as int))
                && i <= m < toks@.len(),
            Err(x) => p_args(toks@, params@, i as int) == Err::<(Args, int), ParseError>(x),
        },
    decreases toks@.len() - i, 9int,
{
    if i >= toks.len() {
        return Err(ParseError::UnexpectedEnd);
    }
    if let Token::RightParen = &toks[i] {
        return Ok((Args::Nil, i));
    }
    match parse_sum(toks, params, i) {
        Err(e) => Err(e),
        Ok((e, j)) => {
            let k = if j < toks.len() && matches!(toks[j], Token::Comma) {
                j + 1
            } else {
                j
            };
            match parse_args(toks, params, k) {
                Err(x) => Err(x),
                Ok((rest, m)) => Ok((Args::Cons { head: Box::new(e), tail: Box::new(rest) }, m)),
            }
        },
    }
}

fn parse_sum(toks: &Vec<Token>, params: &Vec<usize>, i: usize) -> (r: Result<(Expr, usize), ParseError>)
    requires
        i <= toks@.len(),
    ensures
        agrees(r, p_sum(toks@, params@, i as int)),
        r matches Ok((_, j)) ==> i < j <= toks@.len(),
    decreases toks@.len() - i, 8int,
{
    if i >= toks.len() {
        return Err(ParseError::UnexpectedEnd);
    }
    let (mut left, mut j) = match parse_product(toks, params, i) {
        Err(e) => return Err(e),
        Ok(p) => p,
    };
    loop
        invariant
            i < j <= toks@.len(),
            p_sum(toks@, params@, i as int) == p_sum_rest(toks@, params@, left, j as int),
        decreases toks@.len() - j,
    {
        let op = if j < toks.len() {
            match &toks[j] {
                Token::Plus => Some(BinaryOp::Plus),
                Token::Minus => Some(BinaryOp::Sub),
                _ => None,
            }
        } else {
            None
        };
        match op {
            None => {
                return Ok((left, j));
            },
            Some(op) => {
                if let Err(e) = check_operand(toks, j) {
                    return Err(e);
                }
                match parse_product(toks, params, j + 1) {
                    Err(e) => return Err(e),
                    Ok((r, k)) => {
                        left = Expr::Binary { left: Box::new(left), op, right: Box::new(r) };
                        j = k;
                    },
                }
            },
        }
    }
}

fn parse_product(toks: &Vec<Token>, params: &Vec<usize>, i: usize) -> (r: Result<(Expr, usize), ParseError>)
    requires
        i <= toks@.len(),
    ensures
        agrees(r, p_product(toks@, params@, i as int)),
        r matches Ok((_, j)) ==> i < j <= toks@.len(),
    decreases toks@.len() - i, 7int,
{
    if i >= toks.len() {
        return Err(ParseError::UnexpectedEnd);
    }
    let (mut left, mut j) = match parse_power(toks, params, i) {
        Err(e) => return Err(e),
        Ok(p) => p,
    };
    loop
        invariant
            i < j <= toks@.len(),
            p_product(toks@, params@, i as int) == p_product_rest(toks@, params@, left, j as int),
        decreases toks@.len() - j,
    {
        let op = if j < toks.len() {
            match &toks[j] {
                Token::Star => Some(BinaryOp::Mult),
                Token::Slash => Some(BinaryOp::Div),
                _ => None,
            }
        } else {
            None
        };
        match op {
            None => {
                return Ok((left, j));
            },
            Some(op) => {
                if let Err(e) = check_operand(toks, j) {
                    return Err(e);
                }
                match parse_power(toks, params, j + 1) {
                    Err(e) => return Err(e),
                    Ok((r, k)) => {
                        left = Expr::Binary { left: Box::new(left), op, right: Box::new(r) };
                        j = k;
                    },
                }
            },
        }
    }
}

fn parse_power(toks: &Vec<Token>, params: &Vec<usize>, i: usize) -> (r: Result<(Expr, usize), ParseError>)
    requires
        i <= toks@.len(),
    ensures
        agrees(r, p_power(toks@, params@, i as int)),
        r matches Ok((_, j)) ==> i < j <= toks@.len(),
    decreases toks@.len() - i, 6int,
{
    if i >= toks.len() {
        return Err(ParseError::UnexpectedEnd);
    }
    let (mut left, mut j) = match parse_negated(toks, params, i) {
        Err(e) => return Err(e),
        Ok(p) => p,
    };
    loop
        invariant
            i < j <= toks@.len(),
            p_power(toks@, params@, i as int) == p_power_rest(toks@, params@, left, j as int),
        decreases toks@.len() - j,
    {
        if j >= toks.len() || !matches!(toks[j], Token::Caret) {
            return Ok((left, j));
        }
        if let Err(e) = check_operand(toks, j) {
            return Err(e);
        }
        match parse_negated(toks, params, j + 1) {
            Err(e) => return Err(e),
            Ok((r, k)) => {
                left = Expr::Binary { left: Box::new(left), op: BinaryOp::Square, right: Box::new(r) };
                j = k;
            },
        }
    }
}

fn parse_negated(toks: &Vec<Token>, params: &Vec<usize>, i: usize) -> (r: Result<(Expr, usize), ParseError>)
    requires
        i <= toks@.len(),
    ensures
        agrees(r, p_negated(toks@, params@, i as int)),
        r matches Ok((_, j)) ==> i < j <= toks@.len(),
    decreases toks@.len() - i, 5int,
{
    if i >= toks.len() {
        return Err(ParseError::UnexpectedEnd);
    }
    if let Token::Minus = &toks[i] {
        if let Err(e) = check_operand(toks, i) {
            return Err(e);
        }
        match parse_negated(toks, params, i + 1) {
            Err(e) => Err(e),
            Ok((e, j)) => Ok((Expr::Unary { op: UnaryOp::Minus, operand: Box::new(e) }, j)),
        }
    } else {
        parse_postfix(toks, params, i)
    }
}

fn parse_postfix(toks: &Vec<Token>, params: &Vec<usize>, i: usize) -> (r: Result<(Expr, usize), ParseError>)
    requires
        i <= toks@.len(),
    ensures
        agrees(r, p_postfix(toks@, params@, i as int)),
        r matches Ok((_, j)) ==> i < j <= toks@.len(),
    decreases toks@.len() - i, 4int,
{
    if i >= toks.len() {
        return Err(ParseError::UnexpectedEnd);
    }
    match parse_call(toks, params, i) {
        Err(e) => Err(e),
        Ok((e, j)) => {
            if j < toks.len() && matches!(toks[j], Token::Bang) {
                Ok((Expr::Unary { op: UnaryOp::Ftl, operand: Box::new(e) }, j + 1))
            } else {
                Ok((e, j))
            }
        },
    }
}

fn parse_call(toks: &Vec<Token>, params: &Vec<usize>, i: usize) -> (r: Result<(Expr, usize), ParseError>)
    requires
        i <= toks@.len(),
    ensures
        agrees(r, p_call(toks@, params@, i as int)),
        r matches Ok((_, j)) ==> i < j <= toks@.len(),
    decreases toks@.len() - i, 3int,
{
    if i >= toks.len() {
        return Err(ParseError::UnexpectedEnd);
    }
    if let Token::Ident(k) = &toks[i] {
        if i + 1 < toks.len() && matches!(toks[i + 1], Token::LeftParen) {
            return match parse_args(toks, params, i + 2) {
                Err(e) => Err(e),
                Ok((args, m)) => {
                    if matches!(toks[m], Token::RightParen) {
                        Ok((Expr::Call { idx: *k, args }, m + 1))
                    } else {
                        Err(ParseError::MissingRightParen)
                    }
                },
            };
        }
    }
    parse_primary(toks, params, i)
}

fn parse_primary(toks: &Vec<Token>, params: &Vec<usize>, i: usize) -> (r: Result<(Expr, usize), ParseError>)
    requires
        i <= toks@.len(),
    ensures
        agrees(r, p_primary(toks@, params@, i as int)),
        r matches Ok((_, j)) ==> i < j <= toks@.len(),
    decreases toks@.len() - i, 2int,
{
    if i >= toks.len() {
        return Err(ParseError::UnexpectedEnd);
    }
    match &toks[i] {
        Token::Ident(k) => match param_slot_of(params, *k) {
            Some(s) => Ok((Expr::Literal { value: Valuable::Arg(s) }, i + 1)),
            None => Ok((Expr::Literal { value: Valuable::Var(*k) }, i + 1)),
        },
        Token::Number(v) => Ok((Expr::Literal { value: Valuable::Value(v.clone()) }, i + 1)),
        Token::LeftParen => {
            if i + 1 >= toks.len() {
                return Err(ParseError::UnexpectedEnd);
            }
            match parse_sum(toks, params, i + 1) {
                Err(e) => Err(e),
                Ok((e, j)) => {
                    if j < toks.len() && matches!(toks[j], Token::RightParen) {
                        Ok((Expr::Group { body: Box::new(e) }, j + 1))
                    } else {
                        Err(ParseError::MissingRightParen)
                    }
                },
            }
        },
        _ => Err(ParseError::InvalidSyntax),
    }
}

/// The parameter names of a definition, from `j` up to the first token that is not a name.
pub open spec fn p_params(toks: Seq<Token>, j: int) -> (Seq<usize>, int)
    decreases toks.len() - j,
{
    if 0 <= j < toks.len() && toks[j] is Ident {
        let k = if j + 1 < toks.len() && toks[j + 1] is Comma { j + 2 } else { j + 1 };
        let (rest, m) = p_params(toks, k);
        (seq![toks[j]->Ident_0] + rest, m)
    } else {
        (seq![], j)
    }
}

/// Past an optional comma at `j`.
pub open spec fn skip_comma(toks: Seq<Token>, j: int) -> int {
    if 0 <= j < toks.len() && toks[j] is Comma { j + 1 } else { j }
}

pub type StmtParsed = Result<(Stmt, int), ParseError>;

/// A definition `fun name(params) = body`; the `fun` keyword stands at 0.
pub open spec fn p_fun(toks: Seq<Token>) -> StmtParsed {
    if !(1 < toks.len() && toks[1] is Ident) {
        Err(ParseError::ExpectName)
    } else if !(2 < toks.len() && toks[2] is LeftParen) {
        Err(ParseError::ExpectLeftParen(toks[1]->Ident_0))
    } else {
        let (params, m) = p_params(toks, 3);
        if !(0 <= m < toks.len() && toks[m] is RightParen) {
            Err(ParseError::MissingRightParen)
        } else if !(m + 1 < toks.len() && toks[m + 1] is Eq) {
            Err(ParseError::ExpectEq)
        } else {
            match operand_start_ok(toks, m + 1) {
                Err(e) => Err(e),
                Ok(_) => match p_sum(toks, params, m + 2) {
                    Err(e) => Err(e),
                    Ok((body, j)) => Ok((Stmt::Fun { idx: toks[1]->Ident_0, body: Box::new(body) }, j)),
                },
            }
        }
    }
}

/// An assignment `name = expr`, or an expression that starts with a name (at 0).
pub open spec fn p_assign(toks: Seq<Token>) -> StmtParsed {
    if 1 < toks.len() && toks[1] is Eq {
        match operand_start_ok(toks, 1) {
            Err(e) => Err(e),
            Ok(_) => match p_sum(toks, seq![], 2) {
                Err(e) => Err(e),
                Ok((e, j)) => Ok((Stmt::Assign { idx: toks[0]->Ident_0, expr: Box::new(e) }, j)),
            },
        }
    } else {
        match p_sum(toks, seq![], 0) {
            Err(e) => Err(e),
            Ok((e, j)) => Ok((Stmt::Expr { expr: Box::new(e) }, j)),
        }
    }
}

/// A command `%name(f, start, end, step)`; `%` stands at 0 and `plot` is the key of
/// the only command name.
pub open spec fn p_magic(toks: Seq<Token>, plot: usize) -> StmtParsed {
    if !(1 < toks.len() && toks[1] is Ident) {
        Err(ParseError::ExpectName)
    } else if !(2 < toks.len() && toks[2] is LeftParen) {
        Err(ParseError::ExpectLeftParen(toks[1]->Ident_0))
    } else if toks[1]->Ident_0 != plot {
        Err(ParseError::UnknownMagic(toks[1]->Ident_0))
    } else if !(3 < toks.len() && toks[3] is Ident) {
        Err(ParseError::ExpectName)
    } else {
        match p_sum(toks, seq![], skip_comma(toks, 4)) {
            Err(e) => Err(e),
            Ok((e1, j1)) => match p_sum(toks, seq![], skip_comma(toks, j1)) {
                Err(e) => Err(e),
                Ok((e2, j2)) => match p_sum(toks, seq![], skip_comma(toks, j2)) {
                    Err(e) => Err(e),
                    Ok((e3, j3)) => {
                        let m = skip_comma(toks, j3);
                        if 0 <= m < toks.len() && toks[m] is RightParen {
                            Ok((Stmt::Magic { kind: MagicKind::Plot(toks[3]->Ident_0, Box::new(e1), Box::new(e2), Box::new(e3)) }, m + 1))
                        } else {
                            Err(ParseError::MissingRightParen)
                        }
                    },
                },
            },
        }
    }
}

/// The statement of a whole line of tokens, which must end right after it.
pub open spec fn p_stmt(toks: Seq<Token>, plot: usize) -> Result<Stmt, ParseError> {
    if toks.len() == 0 || toks[0] is Eof {
        Err(ParseError::EmptyInput)
    } else {
        let r: StmtParsed = match toks[0] {
            Token::Fun => p_fun(toks),
            Token::Ident(_) => p_assign(toks),
            Token::Percent => p_magic(toks, plot),
            Token::Unknown => Err(ParseError::InvalidChar),
            _ => match p_sum(toks, seq![], 0) {
                Err(e) => Err(e),
                Ok((e, j)) => Ok((Stmt::Expr { expr: Box::new(e) }, j)),
            },
        };
        match r {
            Err(e) => Err(e),
            Ok((st, j)) => if tok_is_eof(toks, j) {
                Ok(st)
            } else {
                Err(ParseError::TrailingInput)
            },
        }
    }
}

fn parse_params(toks: &Vec<Token>, j: usize) -> (r: (Vec<usize>, usize))
    requires
        j <= toks@.len(),
    ensures
        (r.0@, r.1 as int) == p_params(toks@, j as int),
        j <= r.1 <= toks@.len(),
{
    let mut params: Vec<usize> = Vec::new();
    let mut k = j;
    while k < toks.len() && matches!(toks[k], Token::Ident(_))
        invariant
            j <= k <= toks@.len(),
            p_params(toks@, j as int) == (params@ + p_params(toks@, k as int).0, p_params(toks@, k as int).1),
        decreases toks@.len() - k,
    {
        let x = match &toks[k] {
            Token::Ident(x) => *x,
            _ => 0,
        };
        let next = if k + 1 < toks.len() && matches!(toks[k + 1], Token::Comma) {
            k + 2
        } else {
            k + 1
        };
        proof {
            let (rest, m) = p_params(toks@, next as int);
            assert(p_params(toks@, k as int) == (seq![x] + rest, m));
            assert(params@ + (seq![x] + rest) =~= params@.push(x) + rest);
        }
        params.push(x);
        k = next;
    }
    proof {
        assert(params@ + seq![] =~= params@);
    }
    (params, k)
}

fn skip_comma_at(toks: &Vec<Token>, j: usize) -> (r: usize)
    requires
        j <= toks@.len(),
    ensures
        r == skip_comma(toks@, j as int),
        r <= toks@.len(),
{
    if j < toks.len() && matches!(toks[j], Token::Comma) {
        j + 1
    } else {
        j
    }
}

fn parse_fun(toks: &Vec<Token>) -> (r: Result<(Stmt, usize), ParseError>)
    ensures
        match r {
            Ok((st, j)) => p_fun(toks@) == Ok::<(Stmt, int), ParseError>((st, j as int)),
            Err(x) => p_fun(toks@) == Err::<(Stmt, int), ParseError>(x),
        },
{
    let name = if 1 < toks.len() {
        match &toks[1] {
            Token::Ident(k) => *k,
            _ => return Err(ParseError::ExpectName),
        }
    } else {
        return Err(ParseError::ExpectName);
    };
    if !(2 < toks.len() && matches!(toks[2], Token::LeftParen)) {
        return Err(ParseError::ExpectLeftParen(name));
    }
    let (params, m) = parse_params(toks, 3);
    if !(m < toks.len() && matches!(toks[m], Token::RightParen)) {
        return Err(ParseError::MissingRightParen);
    }
    if !(m + 1 < toks.len() && matches!(toks[m + 1], Token::Eq)) {
        return Err(ParseError::ExpectEq);
    }
    if let Err(e) = check_operand(toks, m + 1) {
        return Err(e);
    }
    match parse_sum(toks, &params, m + 2) {
        Err(e) => Err(e),
        Ok((body, j)) => Ok((Stmt::Fun { idx: name, body: Box::new(body) }, j)),
    }
}

fn parse_assign(toks: &Vec<Token>) -> (r: Result<(Stmt, usize), ParseError>)
    requires
        toks@.len() > 0,
        toks@[0] is Ident,
    ensures
        match r {
            Ok((st, j)) => p_assign(toks@) == Ok::<(Stmt, int), ParseError>((st, j as int)),
            Err(x) => p_assign(toks@) == Err::<(Stmt, int), ParseError>(x),
        },
{
    let no_params: Vec<usize> = Vec::new();
    assert(no_params@ =~= seq![]);
    if 1 < toks.len() && matches!(toks[1], Token::Eq) {
        let name = match &toks[0] {
            Token::Ident(k) => *k,
            _ => 0,
        };
        if let Err(e) = check_operand(toks, 1) {
            return Err(e);
        }
        match parse_sum(toks, &no_params, 2) {
            Err(e) => Err(e),
            Ok((e, j)) => Ok((Stmt::Assign { idx: name, expr: Box::new(e) }, j)),
        }
    } else {
        match parse_sum(toks, &no_params, 0) {
            Err(e) => Err(e),
            Ok((e, j)) => Ok((Stmt::Expr { expr: Box::new(e) }, j)),
        }
    }
}

fn parse_magic(toks: &Vec<Token>, plot: usize) -> (r: Result<(Stmt, usize), ParseError>)
    ensures
        match r {
            Ok((st, j)) => p_magic(toks@, plot) == Ok::<(Stmt, int), ParseError>((st, j as int)),
            Err(x) => p_magic(toks@, plot) == Err::<(Stmt, int), ParseError>(x),
        },
{
    let name = if 1 < toks.len() {
        match &toks[1] {
            Token::Ident(k) => *k,
            _ => return Err(ParseError::ExpectName),
        }
    } else {
        return Err(ParseError::ExpectName);
    };
    if !(2 < toks.len() && matches!(toks[2], Token::LeftParen)) {
        return Err(ParseError::ExpectLeftParen(name));
    }
    if name != plot {
        return Err(ParseError::UnknownMagic(name));
    }
    let f = if 3 < toks.len() {
        match &toks[3] {
            Token::Ident(k) => *k,
            _ => return Err(ParseError::ExpectName),
        }
    } else {
        return Err(ParseError::ExpectName);
    };
    let no_params: Vec<usize> = Vec::new();
    assert(no_params@ =~= seq![]);
    let (e1, j1) = match parse_sum(toks, &no_params, skip_comma_at(toks, 4)) {
        Err(e) => return Err(e),
        Ok(p) => p,
    };
    let (e2, j2) = match parse_sum(toks, &no_params, skip_comma_at(toks, j1)) {
        Err(e) => return Err(e),
        Ok(p) => p,
    };
    let (e3, j3) = match parse_sum(toks, &no_params, skip_comma_at(toks, j2)) {
        Err(e) => return Err(e),
        Ok(p) => p,
    };
    let m = skip_comma_at(toks, j3);
    if m < toks.len() && matches!(toks[m], Token::RightParen) {
        Ok((Stmt::Magic { kind: MagicKind::Plot(f, Box::new(e1), Box::new(e2), Box::new(e3)) }, m + 1))
    } else {
        Err(ParseError::MissingRightParen)
    }
}

/// Parses one line of tokens into a statement; `plot` is the key of the plot command's name.
pub fn parse(toks: &Vec<Token>, plot: usize) -> (r: Result<Stmt, ParseError>)
    ensures
        r == p_stmt(toks@, plot),
{
    if toks.len() == 0 {
        return Err(ParseError::EmptyInput);
    }
    let r = match &toks[0] {
        Token::Eof => return Err(ParseError::EmptyInput),
        Token::Fun => parse_fun(toks),
        Token::Ident(_) => parse_assign(toks),
        Token::Percent => parse_magic(toks, plot),
        Token::Unknown => return Err(ParseError::InvalidChar),
        _ => {
            let no_params: Vec<usize> = Vec::new();
            assert(no_params@ =~= seq![]);
            match parse_sum(toks, &no_params, 0) {
                Err(e) => Err(e),
                Ok((e, j)) => Ok((Stmt::Expr { expr: Box::new(e) }, j)),
            }
        },
    };
    match r {
        Err(e) => Err(e),
        Ok((st, j)) => {
            if j < toks.len() && matches!(toks[j], Token::Eof) {
                Ok(st)
            } else {
                Err(ParseError::TrailingInput)
            }
        },
    }
}

} // verus!
