use rustfck::token::lex;
use rustfck::Token;

#[test]
fn from_char_maps_every_instruction_character() {
    assert_eq!(Token::from_char('>'), Some(Token::MoveRight));
    assert_eq!(Token::from_char('<'), Some(Token::MoveLeft));
    assert_eq!(Token::from_char('+'), Some(Token::IncCell));
    assert_eq!(Token::from_char('-'), Some(Token::DecCell));
    assert_eq!(Token::from_char('.'), Some(Token::PrintIO));
    assert_eq!(Token::from_char(','), Some(Token::FetchIO));
    assert_eq!(Token::from_char('['), Some(Token::LoopStart));
    assert_eq!(Token::from_char(']'), Some(Token::LoopStop));
}

#[test]
fn from_char_drops_comment_characters() {
    assert_eq!(Token::from_char('a'), None);
    assert_eq!(Token::from_char(' '), None);
    assert_eq!(Token::from_char('\n'), None);
    assert_eq!(Token::from_char('0'), None);
    assert_eq!(Token::from_char('!'), None);
}

#[test]
fn lex_keeps_instruction_characters_in_order() {
    let toks = lex("+>-<.,[]");
    assert_eq!(
        toks,
        vec![
            Token::IncCell,
            Token::MoveRight,
            Token::DecCell,
            Token::MoveLeft,
            Token::PrintIO,
            Token::FetchIO,
            Token::LoopStart,
            Token::LoopStop,
        ]
    );
}

#[test]
fn lex_skips_comments_silently() {
    let toks = lex("say + hello - to the , world .");
    assert_eq!(
        toks,
        vec![Token::IncCell, Token::DecCell, Token::FetchIO, Token::PrintIO]
    );
}

#[test]
fn lex_of_empty_source_is_empty() {
    assert_eq!(lex(""), Vec::new());
    assert_eq!(lex("no instructions at all"), Vec::new());
}
