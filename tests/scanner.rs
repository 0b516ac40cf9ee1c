use rsh::reader::Reader;
use rsh::scanner::{next_token, Token};

fn tokens(text: &str, home: &str) -> Vec<String> {
    let mut r = Reader::from_string(text.to_string());
    let mut out = Vec::new();
    loop {
        match next_token(&mut r, home) {
            Token::EOF => break,
            Token::Opr(c) => out.push(format!("op {}", c)),
            Token::Name(n) => out.push(format!("name {}", n)),
            Token::Error(c) => out.push(format!("error {}", c)),
            Token::Empty => out.push("empty".to_string()),
        }
    }
    out
}

#[test]
fn reader_reads_characters() {
    let mut r = Reader::from_string("ab".to_string());
    assert!(r.has_next());
    assert_eq!(r.peek(), Some('a'));
    assert!(!r.consume('b'));
    assert!(r.consume('a'));
    assert_eq!(r.peek(), Some('b'));
    assert!(r.consume('b'));
    assert!(!r.has_next());
    assert_eq!(r.peek(), None);
    assert!(!r.consume('b'));
}

#[test]
fn scanner_words_and_operators() {
    assert_eq!(
        tokens(" ls -l|wc,x\r\n", "/h"),
        vec!["name ls", "name -l", "op |", "name wc", "op ,", "name x"]
    );
}

#[test]
fn scanner_quotes_escapes_and_home() {
    assert_eq!(tokens("\"a b\" c\\ d ~/x", "/home/u"), vec!["name a b", "name c d", "name /home/u/x"]);
    assert_eq!(tokens("\"open", "/h"), vec!["name open"]);
    assert_eq!(tokens("a\\", "/h"), vec!["name a"]);
    assert_eq!(tokens("$x", "/h"), vec!["name $x"]);
}

#[test]
fn scanner_substitution() {
    assert_eq!(tokens("`printf x` $(echo y)", "/h"), vec!["name x", "name y"]);
    assert_eq!(tokens("`no-such-program-here`", "/h"), vec!["error  "]);
}
