//! Lexical scan: each source character maps to at most one token; every
//! character that is not one of `> < + - . , [ ]` is a comment and is
//! dropped without error.

use vstd::prelude::*;

verus! {

/// One instruction token. Tokens exist only during lexing and carry no
/// payload.
#[derive(Clone, Copy, PartialEq, Eq, Structural, Debug)]
pub enum Token {
    MoveRight,
    MoveLeft,
    IncCell,
    DecCell,
    PrintIO,
    FetchIO,
    LoopStart,
    LoopStop,
}

/// The token a character stands for, or `None` for a comment character.
pub open spec fn token_of_char(c: char) -> Option<Token> {
    match c {
        '>' => Some(Token::MoveRight),
        '<' => Some(Token::MoveLeft),
        '+' => Some(Token::IncCell),
        '-' => Some(Token::DecCell),
        '.' => Some(Token::PrintIO),
        ',' => Some(Token::FetchIO),
        '[' => Some(Token::LoopStart),
        ']' => Some(Token::LoopStop),
        _ => None,
    }
}

/// The token sequence of a source text: the tokens of its characters in
/// order, with comment characters dropped.
pub open spec fn lex_spec(s: Seq<char>) -> Seq<Token>
    decreases s.len(),
{
    if s.len() == 0 {
        Seq::empty()
    } else {
        lex_spec(s.drop_last())
            + (match token_of_char(s.last()) {
            Some(t) => seq![t],
            None => Seq::empty(),
        })
    }
}

impl Token {
    /// The executable lexer for one character.
    pub fn from_char(c: char) -> (r: Option<Self>)
        ensures
            r == token_of_char(c),
    {
        match c {
            '>' => Some(Token::MoveRight),
            '<' => Some(Token::MoveLeft),
            '+' => Some(Token::IncCell),
            '-' => Some(Token::DecCell),
            '.' => Some(Token::PrintIO),
            ',' => Some(Token::FetchIO),
            '[' => Some(Token::LoopStart),
            ']' => Some(Token::LoopStop),
            _ => None,
        }
    }
}

/// Scans the whole source text and returns its token sequence.
pub fn lex(source: &str) -> (r: Vec<Token>)
    ensures
        r@ == lex_spec(source@),
{
    let n: usize = source.unicode_len();
    let mut toks: Vec<Token> = Vec::new();
    let mut i: usize = 0;
    while i < n
        invariant
            i <= n,
            n == source@.len(),
            toks@ == lex_spec(source@.take(i as int)),
        decreases n - i,
    {
        let c = source.get_char(i);
        match Token::from_char(c) {
            Some(t) => toks.push(t),
            None => (),
        }
        i = i + 1;
        proof {
            assert(source@.take(i as int).drop_last() =~= source@.take(i - 1));
            assert(source@.take(i as int).last() == source@[i - 1]);
        }
    }
    proof {
        assert(source@.take(n as int) =~= source@);
    }
    toks
}

} // verus!
