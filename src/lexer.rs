//! The lexer: a line of text to a sequence of tokens ending in `Eof`.
use vstd::prelude::*;
use vstd::string::*;
use crate::chars::{is_identifier_continue, is_identifier_start, is_number, spec_is_digit, spec_is_identifier_continue, spec_is_identifier_start};
use crate::symbols::Namespace;

verus! {

/// One lexical unit. Identifiers carry their key in the namespace, numbers their text.
#[derive(Debug)]
pub enum Token {
    LeftParen,
    RightParen,
    Plus,
    Minus,
    Star,
    Slash,
    Bang,
    Caret,
    Comma,
    Eq,
    Percent,
    Fun,
    Number(String),
    Ident(usize),
    Unknown,
    Eof,
}

/// A lexical unit as the text shows it, before identifiers are interned.
pub enum Lexeme {
    LeftParen,
    RightParen,
    Plus,
    Minus,
    Star,
    Slash,
    Bang,
    Caret,
    Comma,
    Eq,
    Percent,
    Fun,
    Number(Seq<char>),
    Ident(Seq<char>),
    Unknown,
    Eof,
}

/// The character that starts a comment running to the end of the line.
pub const COMMENT: char = '#';

pub open spec fn is_blank(c: char) -> bool {
    c == ' ' || c == '\t' || c == '\r' || c == '\n'
}

/// The first position at or after `i` that is neither blank nor inside a comment
/// (`in_comment`: position `i` lies inside one).
pub open spec fn skip_trivia(s: Seq<char>, i: int, in_comment: bool) -> int
    decreases s.len() - i,
{
    if i < 0 || i >= s.len() {
        s.len() as int
    } else if in_comment {
        skip_trivia(s, i + 1, s[i] != '\n')
    } else if is_blank(s[i]) {
        skip_trivia(s, i + 1, false)
    } else if s[i] == COMMENT {
        skip_trivia(s, i + 1, true)
    } else {
        i
    }
}

/// The end of the run of identifier characters that starts at `i`.
pub open spec fn ident_end(s: Seq<char>, i: int) -> int
    decreases s.len() - i,
{
    if i < 0 || i >= s.len() || !spec_is_identifier_continue(s[i]) {
        i
    } else {
        ident_end(s, i + 1)
    }
}

/// The end of the run of decimal digits that starts at `i`.
pub open spec fn digits_end(s: Seq<char>, i: int) -> int
    decreases s.len() - i,
{
    if i < 0 || i >= s.len() || !spec_is_digit(s[i]) {
        i
    } else {
        digits_end(s, i + 1)
    }
}

/// The end of a number whose first digit is just before `i`: digits, then
/// optionally a point and more digits.
pub open spec fn number_end(s: Seq<char>, i: int) -> int {
    let d = digits_end(s, i);
    if 0 <= d < s.len() && s[d] == '.' {
        digits_end(s, d + 1)
    } else {
        d
    }
}

pub open spec fn punct(c: char) -> Option<Lexeme> {
    if c == '(' {
        Some(Lexeme::LeftParen)
    } else if c == ')' {
        Some(Lexeme::RightParen)
    } else if c == '+' {
        Some(Lexeme::Plus)
    } else if c == '-' {
        Some(Lexeme::Minus)
    } else if c == '*' {
        Some(Lexeme::Star)
    } else if c == '/' {
        Some(Lexeme::Slash)
    } else if c == '!' {
        Some(Lexeme::Bang)
    } else if c == '^' {
        Some(Lexeme::Caret)
    } else if c == '=' {
        Some(Lexeme::Eq)
    } else if c == ',' {
        Some(Lexeme::Comma)
    } else if c == '%' {
        Some(Lexeme::Percent)
    } else {
        None
    }
}

/// The lexeme that starts at `j` (which is not trivia) and the position after it.
pub open spec fn lex_one(s: Seq<char>, j: int) -> (Lexeme, int)
    recommends
        0 <= j < s.len(),
{
    let c = s[j];
    if spec_is_identifier_start(c) {
        let e = ident_end(s, j + 1);
        let text = s.subrange(j, e);
        if text == seq!['f', 'u', 'n'] {
            (Lexeme::Fun, e)
        } else {
            (Lexeme::Ident(text), e)
        }
    } else if spec_is_digit(c) {
        let e = number_end(s, j + 1);
        (Lexeme::Number(s.subrange(j, e)), e)
    } else if punct(c) is Some {
        (punct(c).unwrap(), j + 1)
    } else {
        (Lexeme::Unknown, j + 1)
    }
}

pub proof fn lemma_skip_trivia(s: Seq<char>, i: int, in_comment: bool)
    requires
        0 <= i,
    ensures
        i <= skip_trivia(s, i, in_comment) <= s.len() || (i > s.len() && skip_trivia(s, i, in_comment) == s.len()),
    decreases s.len() - i,
{
    if i < s.len() {
        if in_comment {
            lemma_skip_trivia(s, i + 1, s[i] != '\n');
        } else if is_blank(s[i]) {
            lemma_skip_trivia(s, i + 1, false);
        } else if s[i] == COMMENT {
            lemma_skip_trivia(s, i + 1, true);
        }
    }
}

pub proof fn lemma_ident_end(s: Seq<char>, i: int)
    requires
        0 <= i <= s.len(),
    ensures
        i <= ident_end(s, i) <= s.len(),
        forall|k: int| i <= k < ident_end(s, i) ==> spec_is_identifier_continue(s[k]),
    decreases s.len() - i,
{
    if i < s.len() && spec_is_identifier_continue(s[i]) {
        lemma_ident_end(s, i + 1);
    }
}

pub proof fn lemma_digits_end(s: Seq<char>, i: int)
    requires
        0 <= i <= s.len(),
    ensures
        i <= digits_end(s, i) <= s.len(),
    decreases s.len() - i,
{
    if i < s.len() && spec_is_digit(s[i]) {
        lemma_digits_end(s, i + 1);
    }
}

pub proof fn lemma_lex_one(s: Seq<char>, j: int)
    requires
        0 <= j < s.len(),
    ensures
        j < lex_one(s, j).1 <= s.len(),
{
    lemma_ident_end(s, j + 1);
    lemma_digits_end(s, j + 1);
    let d = digits_end(s, j + 1);
    if 0 <= d < s.len() && s[d] == '.' {
        lemma_digits_end(s, d + 1);
    }
}

/// The lexemes of `s` from position `i` on, ending in exactly one `Eof`.
pub open spec fn lex_from(s: Seq<char>, i: int) -> Seq<Lexeme>
    decreases s.len() - i,
{
    if i < 0 {
        seq![Lexeme::Eof]
    } else {
        let j = skip_trivia(s, i, false);
        if j >= s.len() {
            seq![Lexeme::Eof]
        } else {
            proof {
                lemma_skip_trivia(s, i, false);
                lemma_lex_one(s, j);
            }
            seq![lex_one(s, j).0] + lex_from(s, lex_one(s, j).1)
        }
    }
}

/// The lexemes from any position end in exactly one `Eof`.
pub proof fn lemma_lex_from_ends_in_eof(s: Seq<char>, i: int)
    ensures
        lex_from(s, i).len() >= 1,
        lex_from(s, i).last() is Eof,
        forall|k: int| 0 <= k < lex_from(s, i).len() - 1 ==> !(#[trigger] lex_from(s, i)[k] is Eof),
    decreases s.len() - i,
{
    if i >= 0 {
        let j = skip_trivia(s, i, false);
        if j < s.len() {
            lemma_skip_trivia(s, i, false);
            lemma_lex_one(s, j);
            let e = lex_one(s, j).1;
            lemma_lex_from_ends_in_eof(s, e);
            let rest = lex_from(s, e);
            assert(lex_from(s, i) == seq![lex_one(s, j).0] + rest);
            assert forall|k: int| 0 <= k < lex_from(s, i).len() - 1 implies !(#[trigger] lex_from(s, i)[k] is Eof) by {
                if k > 0 {
                    assert(lex_from(s, i)[k] == rest[k - 1]);
                }
            }
        }
    }
}

/// The lexemes of a whole line.
pub open spec fn lex(s: Seq<char>) -> Seq<Lexeme> {
    lex_from(s, 0)
}

/// Whether `t` is the token for `l`, given the names interned so far.
pub open spec fn denotes(t: Token, l: Lexeme, names: Seq<Seq<char>>) -> bool {
    match (t, l) {
        (Token::LeftParen, Lexeme::LeftParen) => true,
        (Token::RightParen, Lexeme::RightParen) => true,
        (Token::Plus, Lexeme::Plus) => true,
        (Token::Minus, Lexeme::Minus) => true,
        (Token::Star, Lexeme::Star) => true,
        (Token::Slash, Lexeme::Slash) => true,
        (Token::Bang, Lexeme::Bang) => true,
        (Token::Caret, Lexeme::Caret) => true,
        (Token::Comma, Lexeme::Comma) => true,
        (Token::Eq, Lexeme::Eq) => true,
        (Token::Percent, Lexeme::Percent) => true,
        (Token::Fun, Lexeme::Fun) => true,
        (Token::Number(v), Lexeme::Number(text)) => v@ == text,
        (Token::Ident(k), Lexeme::Ident(text)) => k < names.len() && names[k as int] == text,
        (Token::Unknown, Lexeme::Unknown) => true,
        (Token::Eof, Lexeme::Eof) => true,
        _ => false,
    }
}

/// Whether `tokens` are the tokens of the lexemes `ls` under `names`.
pub open spec fn denotes_all(tokens: Seq<Token>, ls: Seq<Lexeme>, names: Seq<Seq<char>>) -> bool {
    &&& tokens.len() == ls.len()
    &&& forall|k: int| 0 <= k < tokens.len() ==> denotes(#[trigger] tokens[k], ls[k], names)
}

/// `new` keeps every key of `old` with its text.
pub open spec fn extends(old: Seq<Seq<char>>, new: Seq<Seq<char>>) -> bool {
    old.len() <= new.len() && new.subrange(0, old.len() as int) == old
}

pub proof fn lemma_extends_refl(a: Seq<Seq<char>>)
    ensures
        extends(a, a),
{
    assert(a.subrange(0, a.len() as int) =~= a);
}

pub proof fn lemma_extends_trans(a: Seq<Seq<char>>, b: Seq<Seq<char>>, c: Seq<Seq<char>>)
    requires
        extends(a, b),
        extends(b, c),
    ensures
        extends(a, c),
{
    assert(c.subrange(0, a.len() as int) =~= b.subrange(0, a.len() as int));
}

pub proof fn lemma_denotes_extends(tokens: Seq<Token>, ls: Seq<Lexeme>, a: Seq<Seq<char>>, b: Seq<Seq<char>>)
    requires
        denotes_all(tokens, ls, a),
        extends(a, b),
    ensures
        denotes_all(tokens, ls, b),
{
    assert forall|k: int| 0 <= k < tokens.len() implies denotes(#[trigger] tokens[k], ls[k], b) by {
        if let Token::Ident(x) = tokens[k] {
            assert(b[x as int] == b.subrange(0, a.len() as int)[x as int]);
        }
    }
}

fn punct_token(c: char) -> (r: Option<Token>)
    ensures
        punct(c) is None <==> r is None,
        r matches Some(t) ==> denotes(t, punct(c).unwrap(), seq![]),
{
    match c {
        '(' => Some(Token::LeftParen),
        ')' => Some(Token::RightParen),
        '+' => Some(Token::Plus),
        '-' => Some(Token::Minus),
        '*' => Some(Token::Star),
        '/' => Some(Token::Slash),
        '!' => Some(Token::Bang),
        '^' => Some(Token::Caret),
        '=' => Some(Token::Eq),
        ',' => Some(Token::Comma),
        '%' => Some(Token::Percent),
        _ => None,
    }
}

/// Splits `line` into tokens, interning each identifier in `ns`.
/// Blanks and `#` comments separate tokens; the result ends in one `Eof`.
pub fn scan(line: &str, ns: &mut Namespace) -> (tokens: Vec<Token>)
    requires
        old(ns).wf(),
    ensures
        final(ns).wf(),
        extends(old(ns)@, final(ns)@),
        denotes_all(tokens@, lex(line@), final(ns)@),
        tokens@.len() >= 1,
        tokens@.last() is Eof,
        forall|k: int| 0 <= k < tokens@.len() - 1 ==> !(#[trigger] tokens@[k] is Eof),
{
    let n = line.unicode_len();
    let ghost s = line@;
    let mut tokens: Vec<Token> = Vec::new();
    let ghost mut done: Seq<Lexeme> = seq![];
    let mut pos: usize = 0;
    proof {
        lemma_extends_refl(ns@);
    }
    loop
        invariant
            n == s.len(),
            s == line@,
            pos <= n,
            ns.wf(),
            extends(old(ns)@, ns@),
            denotes_all(tokens@, done, ns@),
            done + lex_from(s, pos as int) == lex(s),
        decreases n - pos,
    {
        // skip blanks and comments
        let ghost start = pos as int;
        let mut in_comment = false;
        while pos < n
            invariant
                n == s.len(),
                s == line@,
                start <= pos <= n,
                skip_trivia(s, start, false) == skip_trivia(s, pos as int, in_comment),
            ensures
                skip_trivia(s, start, false) == pos,
            decreases n - pos,
        {
            let c = line.get_char(pos);
            if in_comment {
                in_comment = c != '\n';
            } else if c == ' ' || c == '\t' || c == '\r' || c == '\n' {
            } else if c == COMMENT {
                in_comment = true;
            } else {
                assert(skip_trivia(s, pos as int, in_comment) == pos);
                break;
            }
            pos = pos + 1;
        }
        proof {
            lemma_skip_trivia(s, start, false);
        }
        if pos >= n {
            proof {
                lemma_extends_refl(ns@);
                lemma_denotes_extends(tokens@, done, ns@, ns@);
            }
            let ghost before = tokens@;
            tokens.push(Token::Eof);
            proof {
                assert(lex_from(s, start) == seq![Lexeme::Eof]);
                done = done.push(Lexeme::Eof);
                assert(done =~= lex(s)) by {
                    assert(lex(s) == done.drop_last() + seq![Lexeme::Eof]);
                }
                assert(tokens@.len() == done.len());
                assert forall|k: int| 0 <= k < tokens@.len() implies denotes(#[trigger] tokens@[k], done[k], ns@) by {
                    if k < before.len() {
                        assert(tokens@[k] == before[k]);
                    }
                }
            }
            proof {
                lemma_lex_from_ends_in_eof(s, 0);
                let l = lex(s);
                assert(denotes(tokens@[tokens@.len() - 1], l[l.len() - 1], ns@));
                assert forall|k: int| 0 <= k < tokens@.len() - 1 implies !(#[trigger] tokens@[k] is Eof) by {
                    assert(denotes(tokens@[k], l[k], ns@));
                }
            }
            return tokens;
        }
        let j = pos;
        assert(skip_trivia(s, start, false) == j);
        let c = line.get_char(j);
        proof {
            lemma_lex_one(s, j as int);
        }
        let ghost old_ns = ns@;
        let tok: Token;
        if is_identifier_start(c) {
            let mut e = j + 1;
            proof {
                lemma_ident_end(s, e as int);
            }
            while e < n && is_identifier_continue(line.get_char(e))
                invariant
                    n == s.len(),
                    s == line@,
                    j < e <= ident_end(s, j + 1) <= n,
                    ident_end(s, j + 1) == ident_end(s, e as int),
                decreases n - e,
            {
                e = e + 1;
                proof {
                    lemma_ident_end(s, e as int);
                }
            }
            let text = line.substring_char(j, e);
            if text.unicode_len() == 3 && text.get_char(0) == 'f' && text.get_char(1) == 'u' && text.get_char(2) == 'n' {
                assert(text@ =~= seq!['f', 'u', 'n']);
                tok = Token::Fun;
            } else {
                proof {
                    if text@ == seq!['f', 'u', 'n'] {
                        assert(text@[0] == 'f' && text@[1] == 'u' && text@[2] == 'n');
                    }
                }
                let k = ns.intern(text);
                tok = Token::Ident(k);
            }
            pos = e;
        } else if is_number(c) {
            let mut e = j + 1;
            proof {
                lemma_digits_end(s, e as int);
            }
            while e < n && is_number(line.get_char(e))
                invariant
                    n == s.len(),
                    s == line@,
                    j < e <= digits_end(s, j + 1) <= n,
                    digits_end(s, j + 1) == digits_end(s, e as int),
                decreases n - e,
            {
                e = e + 1;
                proof {
                    lemma_digits_end(s, e as int);
                }
            }
            if e < n && line.get_char(e) == '.' {
                e = e + 1;
                let ghost d = e as int;
                proof {
                    lemma_digits_end(s, d);
                }
                while e < n && is_number(line.get_char(e))
                    invariant
                        n == s.len(),
                        s == line@,
                        d <= e <= digits_end(s, d) <= n,
                        digits_end(s, d) == digits_end(s, e as int),
                    decreases n - e,
                {
                    e = e + 1;
                    proof {
                        lemma_digits_end(s, e as int);
                    }
                }
            }
            tok = Token::Number(String::from_str(line.substring_char(j, e)));
            pos = e;
        } else {
            match punct_token(c) {
                Some(t) => {
                    tok = t;
                },
                None => {
                    tok = Token::Unknown;
                },
            }
            pos = j + 1;
        }
        proof {
            let l = lex_one(s, j as int).0;
            assert(pos as int == lex_one(s, j as int).1);
            assert(denotes(tok, l, ns@));
            if old_ns != ns@ {
                assert(ns@.subrange(0, old_ns.len() as int) =~= old_ns);
            }
            lemma_extends_refl(ns@);
            lemma_denotes_extends(tokens@, done, old_ns, ns@);
            lemma_extends_trans(old(ns)@, old_ns, ns@);
        }
        let ghost before = tokens@;
        tokens.push(tok);
        proof {
            let l = lex_one(s, j as int).0;
            assert(lex_from(s, start) == seq![l] + lex_from(s, pos as int));
            done = done.push(l);
            assert(done + lex_from(s, pos as int) =~= lex(s)) by {
                assert(done.drop_last() + (seq![l] + lex_from(s, pos as int)) =~= done + lex_from(s, pos as int));
            }
            assert forall|k: int| 0 <= k < tokens@.len() implies denotes(#[trigger] tokens@[k], done[k], ns@) by {
                if k < before.len() {
                    assert(tokens@[k] == before[k]);
                }
            }
        }
    }
}

} // verus!
