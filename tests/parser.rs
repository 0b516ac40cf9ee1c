use rsh::parser::{ast_gen, lex_line, parse_line, Atom, Lexeme, OpTok, ParseError, Op, AST};

fn parse(s: &str) -> Result<AST, ParseError> {
    let mut notes = Vec::new();
    let r = parse_line(s, &mut notes);
    assert!(notes.is_empty());
    r
}

fn atom(words: &[&str]) -> Atom {
    Atom { pars: words.iter().map(|w| w.to_string()).collect(), src: None, dest: None }
}

#[test]
fn plain_line_is_one_foreground_command() {
    assert_eq!(parse("ls -l /tmp"), Ok(AST::Fg(vec![atom(&["ls", "-l", "/tmp"])])));
    assert_eq!(parse("  echo   hi  "), Ok(AST::Fg(vec![atom(&["echo", "hi"])])));
}

#[test]
fn double_quotes_make_one_word() {
    assert_eq!(parse("echo \"a b\""), Ok(AST::Fg(vec![atom(&["echo", "a b"])])));
    assert_eq!(parse("echo \"a\\b\""), Ok(AST::Fg(vec![atom(&["echo", "a\\b"])])));
}

#[test]
fn pieces_join_into_one_word() {
    assert_eq!(
        parse("alias ll='ls -l'"),
        Ok(AST::Fg(vec![atom(&["alias", "ll=ls -l"])]))
    );
    assert_eq!(parse("echo a\\ b"), Ok(AST::Fg(vec![atom(&["echo", "a b"])])));
}

#[test]
fn pipes_chain_commands() {
    assert_eq!(
        parse("cmd1 | cmd2|cmd3"),
        Ok(AST::Fg(vec![atom(&["cmd1"]), atom(&["cmd2"]), atom(&["cmd3"])]))
    );
}

#[test]
fn redirects_in_either_order() {
    let out = Atom { pars: vec!["echo".into(), "hi".into()], src: None, dest: Some("f".into()) };
    assert_eq!(parse("echo hi > f"), Ok(AST::Fg(vec![out])));
    let inp = Atom { pars: vec!["cat".into()], src: Some("f".into()), dest: None };
    assert_eq!(parse("cat < f"), Ok(AST::Fg(vec![inp])));
    let both = Atom { pars: vec!["cat".into()], src: Some("i".into()), dest: Some("o".into()) };
    assert_eq!(parse("cat > o < i"), Ok(AST::Fg(vec![both])));
    let both2 = Atom { pars: vec!["cat".into()], src: Some("i".into()), dest: Some("o".into()) };
    assert_eq!(parse("cat < i > o"), Ok(AST::Fg(vec![both2])));
}

#[test]
fn redirect_errors() {
    assert_eq!(parse("echo >"), Err(ParseError::Syntax));
    assert_eq!(parse("a > x > y"), Err(ParseError::Syntax));
    assert_eq!(parse("a > x b"), Err(ParseError::Syntax));
    assert_eq!(parse("< f"), Err(ParseError::Syntax));
}

#[test]
fn trailing_ampersand_is_background() {
    assert_eq!(parse("sleep 1 &"), Ok(AST::Bg(vec![atom(&["sleep", "1"])])));
    assert_eq!(parse("sleep 1 &  "), Ok(AST::Bg(vec![atom(&["sleep", "1"])])));
}

#[test]
fn ampersand_before_more_is_background_then_sequence() {
    assert_eq!(
        parse("sleep 1 & echo hi"),
        Ok(AST::BinOp(
            Box::new(AST::Bg(vec![atom(&["sleep", "1"])])),
            Box::new(AST::Fg(vec![atom(&["echo", "hi"])])),
            Op::SEQ
        ))
    );
}

#[test]
fn operators_associate_left() {
    assert_eq!(
        parse("a && b || c ; d"),
        Ok(AST::BinOp(
            Box::new(AST::BinOp(
                Box::new(AST::BinOp(
                    Box::new(AST::Fg(vec![atom(&["a"])])),
                    Box::new(AST::Fg(vec![atom(&["b"])])),
                    Op::AND
                )),
                Box::new(AST::Fg(vec![atom(&["c"])])),
                Op::OR
            )),
            Box::new(AST::Fg(vec![atom(&["d"])])),
            Op::SEQ
        ))
    );
}

#[test]
fn blank_line_is_empty() {
    assert_eq!(parse(""), Ok(AST::Empty));
    assert_eq!(parse(" \t "), Ok(AST::Empty));
}

#[test]
fn lexical_errors() {
    assert_eq!(parse("echo ("), Err(ParseError::BadChar('(')));
    assert_eq!(parse("echo $x"), Err(ParseError::BadChar('$')));
    assert_eq!(parse("echo \"abc"), Err(ParseError::Unclosed('"')));
    assert_eq!(parse("echo $(ls"), Err(ParseError::Unclosed('(')));
    assert_eq!(parse("echo \\"), Err(ParseError::TrailingEscape));
}

#[test]
fn grammar_errors() {
    assert_eq!(parse("a &&"), Err(ParseError::Syntax));
    assert_eq!(parse("| a"), Err(ParseError::Syntax));
    assert_eq!(parse("a & & b"), Err(ParseError::Syntax));
    assert_eq!(parse("a ;"), Err(ParseError::Syntax));
}

#[test]
fn ast_gen_yields_empty_on_error() {
    let mut notes = Vec::new();
    assert_eq!(ast_gen("a ||".to_string(), &mut notes), AST::Empty);
    assert_eq!(notes, vec!["parse error: not pipelines joined by operators"]);
    assert_eq!(ast_gen("echo (".to_string(), &mut notes), AST::Empty);
    assert_eq!(notes.last().unwrap(), "parse error: unexpected character (");
    assert_eq!(ast_gen("echo \"".to_string(), &mut notes), AST::Empty);
    assert_eq!(notes.last().unwrap(), "parse error: unclosed \"");
    assert_eq!(ast_gen("echo \\".to_string(), &mut notes), AST::Empty);
    assert_eq!(notes.last().unwrap(), "parse error: backslash at the end of the line");
    let n = notes.len();
    assert_eq!(ast_gen("echo hi".to_string(), &mut notes), AST::Fg(vec![atom(&["echo", "hi"])]));
    assert_eq!(notes.len(), n);
}

#[test]
fn failed_substitution_is_noted_and_empty() {
    let mut notes = Vec::new();
    let r = parse_line("echo `no-such-program-here` x", &mut notes);
    assert_eq!(r, Ok(AST::Fg(vec![atom(&["echo", "", "x"])])));
    assert_eq!(notes.len(), 1);
}

#[test]
fn two_character_operators_first() {
    let ls = lex_line("a&&b||c&d|e").unwrap();
    let ops: Vec<OpTok> = ls
        .iter()
        .filter_map(|l| match l {
            Lexeme::Op(o) => Some(*o),
            Lexeme::Word(_) => None,
        })
        .collect();
    assert_eq!(ops, vec![OpTok::And, OpTok::Or, OpTok::Amp, OpTok::Pipe]);
    assert_eq!(ls.len(), 9);
}

#[test]
fn backtick_substitution_takes_output() {
    assert_eq!(parse("echo `printf x`"), Ok(AST::Fg(vec![atom(&["echo", "x"])])));
    assert_eq!(parse("echo `echo x`"), Ok(AST::Fg(vec![atom(&["echo", "x"])])));
}

#[test]
fn dollar_substitution_takes_output() {
    assert_eq!(parse("echo $(echo a)b"), Ok(AST::Fg(vec![atom(&["echo", "ab"])])));
}
