//! A lexer that reads one token at a time from a [`Reader`].
use crate::parser::find_from;
use crate::reader::Reader;
use crate::subst::{replace_exe, strip_newline};
use crate::text::{chars_of, string_of};
use vstd::prelude::*;

verus! {

/// A token read by [`next_token`].
#[derive(Debug)]
pub enum Token {
    /// One of the operators `,`, `|`, `<`, `>`, `&`.
    Opr(char),
    /// A word, quoted text, or the output of a substitution.
    Name(String),
    /// A character that no rule takes.
    Error(char),
    /// No token.
    Empty,
    /// The end of the text.
    EOF,
}

/// Characters that separate tokens.
pub open spec fn is_sep(c: char) -> bool {
    c == ' ' || c == '\r' || c == '\n'
}

/// Characters that are tokens of their own.
pub open spec fn is_operator(c: char) -> bool {
    c == ',' || c == '|' || c == '<' || c == '>' || c == '&'
}

/// The first index from `i` on that is not a separator.
pub open spec fn skip_seps(s: Seq<char>, i: int) -> int
    decreases s.len() - i,
{
    if 0 <= i < s.len() && is_sep(s[i]) {
        skip_seps(s, i + 1)
    } else {
        i
    }
}

/// An unquoted word read from `i` on after the characters `acc`, and the
/// index after it: it stops before an operator or a separator; `\` takes the
/// next character as it is (and nothing at the end of the text); `~` stands
/// for the home directory `home`.
pub open spec fn word_scan(s: Seq<char>, i: int, home: Seq<char>, acc: Seq<char>) -> (
    Seq<char>,
    int,
)
    decreases s.len() - i,
{
    if i < 0 || i >= s.len() || is_operator(s[i]) || is_sep(s[i]) {
        (acc, i)
    } else if s[i] == '\\' {
        if i + 1 < s.len() {
            word_scan(s, i + 2, home, acc.push(s[i + 1]))
        } else {
            (acc, i + 1)
        }
    } else if s[i] == '~' {
        word_scan(s, i + 1, home, acc + home)
    } else {
        word_scan(s, i + 1, home, acc.push(s[i]))
    }
}

/// What the lexer finds at an index.
pub enum Scan {
    Opr(char),
    Name(Seq<char>),
    /// A command whose output is the token's text.
    Subst(Seq<char>),
    End,
}

/// The text from `i` up to the next `d`, or to the end; and the index after
/// the `d`, if there is one.
pub open spec fn span(s: Seq<char>, i: int, d: char) -> (Seq<char>, int) {
    let k = find_from(s, i, d);
    (
        s.subrange(i, k),
        if k < s.len() {
            k + 1
        } else {
            k
        },
    )
}

/// The token that starts at or after `i`, and the index after it:
/// separators are skipped; `"…"` is taken as it is; `` `…` `` and `$(…)`
/// are commands to substitute; an operator stands alone; anything else
/// starts an unquoted word. An unclosed quote or span ends with the text.
pub open spec fn scan(s: Seq<char>, i: int, home: Seq<char>) -> (Scan, int) {
    let j = skip_seps(s, i);
    if j < 0 || j >= s.len() {
        (Scan::End, j)
    } else {
        let c = s[j];
        if c == '"' {
            let (t, k) = span(s, j + 1, '"');
            (Scan::Name(t), k)
        } else if c == '`' {
            let (t, k) = span(s, j + 1, '`');
            (Scan::Subst(t), k)
        } else if c == '$' && j + 1 < s.len() && s[j + 1] == '(' {
            let (t, k) = span(s, j + 2, ')');
            (Scan::Subst(t), k)
        } else if is_operator(c) {
            (Scan::Opr(c), j + 1)
        } else {
            let (w, k) = word_scan(s, j, home, seq![]);
            (Scan::Name(w), k)
        }
    }
}

fn is_sep_char(c: char) -> (r: bool)
    ensures
        r == is_sep(c),
{
    c == ' ' || c == '\r' || c == '\n'
}

fn is_operator_char(c: char) -> (r: bool)
    ensures
        r == is_operator(c),
{
    c == ',' || c == '|' || c == '<' || c == '>' || c == '&'
}

/// Reads up to the next `d` or the end, then reads the `d` if it is there.
fn read_span(r: &mut Reader, d: char) -> (t: Vec<char>)
    requires
        old(r)@.1 <= old(r)@.0.len(),
    ensures
        final(r)@.0 == old(r)@.0,
        (t@, final(r)@.1 as int) == span(old(r)@.0, old(r)@.1 as int, d),
        final(r)@.1 <= final(r)@.0.len(),
{
    let ghost s = r@.0;
    let ghost i0 = r@.1 as int;
    let mut t: Vec<char> = Vec::new();
    loop
        invariant
            r@.0 == s,
            0 <= i0 <= r@.1 <= s.len(),
            t@ == s.subrange(i0, r@.1 as int),
            find_from(s, i0, d) == find_from(s, r@.1 as int, d),
        ensures
            r@.0 == s,
            r@.1 == find_from(s, i0, d),
            r@.1 <= s.len(),
            r@.1 < s.len() ==> s[r@.1 as int] == d,
            t@ == s.subrange(i0, r@.1 as int),
        decreases s.len() - r@.1,
    {
        match r.peek() {
            Some(c) => {
                if c == d {
                    break ;
                }
                let ghost p = r@.1 as int;
                assert(p < s.len());
                assert(s[p] == c);
                assert(s.subrange(i0, p + 1) =~= s.subrange(i0, p).push(c));
                t.push(c);
                let ok = r.consume(c);
                assert(ok);
                assert(r@.1 == p + 1);
                assert(t@ =~= s.subrange(i0, r@.1 as int));
            },
            None => {
                break ;
            },
        }
    }
    r.consume(d);
    t
}

/// Reads the next token, as [`scan`] says, with `home` for `~`. A
/// substitution runs its command, and the token is what it printed without
/// the trailing newline; `Error(' ')` when the command could not be run.
pub fn next_token(r: &mut Reader, home: &str) -> (t: Token)
    requires
        old(r)@.1 <= old(r)@.0.len(),
    ensures
        final(r)@.0 == old(r)@.0,
        final(r)@.1 == scan(old(r)@.0, old(r)@.1 as int, home@).1,
        final(r)@.1 <= final(r)@.0.len(),
        match (scan(old(r)@.0, old(r)@.1 as int, home@).0, t) {
            (Scan::Opr(c), Token::Opr(d)) => c == d,
            (Scan::Name(w), Token::Name(n)) => n@ == w,
            (Scan::Subst(_), Token::Name(n)) => exists|out: Seq<char>| n@ == strip_newline(out),
            (Scan::Subst(_), Token::Error(c)) => c == ' ',
            (Scan::End, Token::EOF) => true,
            _ => false,
        },
{
    let ghost s = r@.0;
    let ghost i0 = r@.1 as int;
    loop
        invariant
            r@.0 == s,
            i0 <= r@.1 <= s.len(),
            skip_seps(s, i0) == skip_seps(s, r@.1 as int),
        ensures
            r@.0 == s,
            r@.1 == skip_seps(s, i0),
            r@.1 <= s.len(),
        decreases s.len() - r@.1,
    {
        match r.peek() {
            Some(c) => {
                if !is_sep_char(c) {
                    break ;
                }
                r.consume(c);
            },
            None => {
                break ;
            },
        }
    }
    let ghost j = r@.1 as int;
    let c = match r.peek() {
        Some(c) => c,
        None => {
            return Token::EOF;
        },
    };
    if c == '"' {
        r.consume(c);
        let t = read_span(r, '"');
        return Token::Name(string_of(&t));
    }
    if c == '`' {
        r.consume(c);
        let t = read_span(r, '`');
        return match replace_exe(string_of(&t)) {
            Ok(n) => Token::Name(n),
            Err(_) => Token::Error(' '),
        };
    }
    if is_operator_char(c) {
        r.consume(c);
        return Token::Opr(c);
    }
    let mut w: Vec<char> = Vec::new();
    if c == '$' {
        r.consume(c);
        if r.consume('(') {
            let t = read_span(r, ')');
            return match replace_exe(string_of(&t)) {
            Ok(n) => Token::Name(n),
            Err(_) => Token::Error(' '),
        };
        }
        // Not a substitution: the `$` starts a word.
        w.push(c);
    }
    let home_chars = chars_of(home);
    loop
        invariant
            r@.0 == s,
            j <= r@.1 <= s.len(),
            home_chars@ == home@,
            word_scan(s, j, home@, seq![]) == word_scan(s, r@.1 as int, home@, w@),
        ensures
            r@.0 == s,
            r@.1 <= s.len(),
            word_scan(s, j, home@, seq![]) == (w@, r@.1 as int),
        decreases s.len() - r@.1,
    {
        let c = match r.peek() {
            Some(c) => c,
            None => {
                break ;
            },
        };
        if is_operator_char(c) || is_sep_char(c) {
            break ;
        }
        r.consume(c);
        if c == '\\' {
            match r.peek() {
                Some(e) => {
                    w.push(e);
                    r.consume(e);
                },
                None => {},
            }
        } else if c == '~' {
            let mut k: usize = 0;
            let ghost w0 = w@;
            while k < home_chars.len()
                invariant
                    k <= home_chars.len(),
                    w@ == w0 + home_chars@.subrange(0, k as int),
                decreases home_chars.len() - k,
            {
                w.push(home_chars[k]);
                k = k + 1;
            }
            assert(home_chars@.subrange(0, home_chars@.len() as int) =~= home_chars@);
        } else {
            w.push(c);
        }
    }
    Token::Name(string_of(&w))
}

} // verus!
