//! The command-line grammar: characters to tokens, tokens to a tree of
//! pipelines joined by `&&`, `||`, `;` and `&`.
use crate::subst::{substitute, substituted};
use crate::text::push_str;
use crate::text::{chars_of, string_of};
use vstd::prelude::*;

verus! {

/// One command of a pipeline: its words, and the files its standard input
/// and output are redirected from and to.
#[derive(Debug, PartialEq)]
pub struct Atom {
    pub pars: Vec<String>,
    pub src: Option<String>,
    pub dest: Option<String>,
}

/// How two parts of a command line are joined.
#[derive(Clone, Copy, Debug, PartialEq, Eq, Structural)]
pub enum Op {
    /// `&&`: the right part runs when the left one succeeded.
    AND,
    /// `||`: the right part runs when the left one failed.
    OR,
    /// `;` or `&`: the right part runs after the left one.
    SEQ,
}

/// A parsed command line.
#[derive(Debug, PartialEq)]
pub enum AST {
    /// A pipeline run while the shell waits.
    Fg(Vec<Atom>),
    /// A pipeline started in the background.
    Bg(Vec<Atom>),
    /// Two parts joined by an operator.
    BinOp(Box<AST>, Box<AST>, Op),
    /// Nothing to run.
    Empty,
}

/// The mathematical value of an [`Atom`].
pub struct AtomV {
    pub pars: Seq<Seq<char>>,
    pub src: Option<Seq<char>>,
    pub dest: Option<Seq<char>>,
}

/// The mathematical value of an [`AST`].
pub enum AstV {
    Fg(Seq<AtomV>),
    Bg(Seq<AtomV>),
    BinOp(Box<AstV>, Box<AstV>, Op),
    Empty,
}

pub open spec fn opt_view(o: Option<String>) -> Option<Seq<char>> {
    match o {
        Some(s) => Some(s@),
        None => None,
    }
}

impl View for Atom {
    type V = AtomV;

    open spec fn view(&self) -> AtomV {
        AtomV {
            pars: self.pars@.map_values(|p: String| p@),
            src: opt_view(self.src),
            dest: opt_view(self.dest),
        }
    }
}

pub open spec fn atoms_view(v: Seq<Atom>) -> Seq<AtomV> {
    v.map_values(|a: Atom| a@)
}

impl AST {
    pub open spec fn view(&self) -> AstV
        decreases self,
    {
        match self {
            AST::Fg(v) => AstV::Fg(atoms_view(v@)),
            AST::Bg(v) => AstV::Bg(atoms_view(v@)),
            AST::BinOp(l, r, op) => AstV::BinOp(Box::new((**l).view()), Box::new((**r).view()), *op),
            AST::Empty => AstV::Empty,
        }
    }
}

/// Why a command line does not parse.
#[derive(Clone, Copy, Debug, PartialEq, Eq, Structural)]
pub enum ParseError {
    /// A character that no rule of the grammar takes.
    BadChar(char),
    /// A quote, backtick or `$(` that is never closed; the opening character.
    Unclosed(char),
    /// A backslash at the end of the line.
    TrailingEscape,
    /// The tokens do not form pipelines joined by operators.
    Syntax,
}

/// An operator token.
#[derive(Clone, Copy, Debug, PartialEq, Eq, Structural)]
pub enum OpTok {
    And,
    Or,
    Semi,
    Amp,
    Pipe,
    Less,
    Greater,
}

/// A part of a word as written: literal text, or the text of a command whose
/// output takes its place.
#[derive(Debug)]
pub enum Piece {
    Lit(Vec<char>),
    Sub(Vec<char>),
}

/// The mathematical value of a [`Piece`].
pub enum PieceV {
    Lit(Seq<char>),
    Sub(Seq<char>),
}

impl View for Piece {
    type V = PieceV;

    open spec fn view(&self) -> PieceV {
        match self {
            Piece::Lit(t) => PieceV::Lit(t@),
            Piece::Sub(t) => PieceV::Sub(t@),
        }
    }
}

/// A token as written: a word made of pieces, or an operator.
#[derive(Debug)]
pub enum Lexeme {
    Word(Vec<Piece>),
    Op(OpTok),
}

/// The mathematical value of a [`Lexeme`].
pub enum LexemeV {
    Word(Seq<PieceV>),
    Op(OpTok),
}

impl View for Lexeme {
    type V = LexemeV;

    open spec fn view(&self) -> LexemeV {
        match self {
            Lexeme::Word(ps) => LexemeV::Word(ps@.map_values(|p: Piece| p@)),
            Lexeme::Op(o) => LexemeV::Op(*o),
        }
    }
}

/// A token once its substitutions have run: a word, or an operator.
#[derive(Debug)]
pub enum Tok {
    Word(String),
    Op(OpTok),
}

/// The mathematical value of a [`Tok`].
pub enum TokV {
    Word(Seq<char>),
    Op(OpTok),
}

impl View for Tok {
    type V = TokV;

    open spec fn view(&self) -> TokV {
        match self {
            Tok::Word(w) => TokV::Word(w@),
            Tok::Op(o) => TokV::Op(*o),
        }
    }
}

// ----- characters to lexemes -----

pub open spec fn is_blank(c: char) -> bool {
    c == ' ' || c == '\t'
}

/// The characters of an unquoted word.
pub open spec fn is_bare(c: char) -> bool {
    ('a' <= c && c <= 'z') || ('A' <= c && c <= 'Z') || ('0' <= c && c <= '9') || c == '.'
        || c == ',' || c == '_' || c == '-' || c == '/' || c == '='
}

/// The characters that can start a piece of a word.
pub open spec fn starts_piece(c: char) -> bool {
    is_bare(c) || c == '"' || c == '\'' || c == '`' || c == '$' || c == '\\'
}

/// The first index from `i` on that holds `c`, or the length.
pub open spec fn find_from(s: Seq<char>, i: int, c: char) -> int
    decreases s.len() - i,
{
    if i >= s.len() {
        s.len() as int
    } else if s[i] == c {
        i
    } else {
        find_from(s, i + 1, c)
    }
}

/// The end of the run of unquoted-word characters that starts at `i`.
pub open spec fn bare_end(s: Seq<char>, i: int) -> int
    decreases s.len() - i,
{
    if 0 <= i < s.len() && is_bare(s[i]) {
        bare_end(s, i + 1)
    } else {
        i
    }
}

/// The text from `i + k` up to the closing `c`, as a piece, and the index
/// after the closing character.
pub open spec fn quoted(s: Seq<char>, i: int, k: int, c: char, open: char, sub: bool) -> Result<
    (PieceV, int),
    ParseError,
> {
    let j = find_from(s, i + k, c);
    if j >= s.len() {
        Err(ParseError::Unclosed(open))
    } else if sub {
        Ok((PieceV::Sub(s.subrange(i + k, j)), j + 1))
    } else {
        Ok((PieceV::Lit(s.subrange(i + k, j)), j + 1))
    }
}

/// The piece of a word that starts at `i`, and the index after it.
pub open spec fn piece_at(s: Seq<char>, i: int) -> Result<(PieceV, int), ParseError> {
    let c = s[i];
    if is_bare(c) {
        let j = bare_end(s, i);
        Ok((PieceV::Lit(s.subrange(i, j)), j))
    } else if c == '"' || c == '\'' {
        quoted(s, i, 1, c, c, false)
    } else if c == '`' {
        quoted(s, i, 1, '`', '`', true)
    } else if c == '$' {
        if i + 1 < s.len() && s[i + 1] == '(' {
            quoted(s, i, 2, ')', '(', true)
        } else {
            Err(ParseError::BadChar('$'))
        }
    } else if c == '\\' {
        if i + 1 < s.len() {
            Ok((PieceV::Lit(seq![s[i + 1]]), i + 2))
        } else {
            Err(ParseError::TrailingEscape)
        }
    } else {
        Err(ParseError::BadChar(c))
    }
}

/// The pieces of the word that goes on at `i`, after the pieces `acc`, and
/// the index after the word.
pub open spec fn word_acc(s: Seq<char>, i: int, acc: Seq<PieceV>) -> Result<
    (Seq<PieceV>, int),
    ParseError,
>
    decreases s.len() - i,
{
    if 0 <= i < s.len() && starts_piece(s[i]) {
        match piece_at(s, i) {
            Ok((p, j)) => if j <= i || j > s.len() {
                Err(ParseError::Syntax)
            } else {
                word_acc(s, j, acc.push(p))
            },
            Err(e) => Err(e),
        }
    } else {
        Ok((acc, i))
    }
}

/// The lexemes of `s` from `i` on, after the lexemes `acc`.
pub open spec fn lex_acc(s: Seq<char>, i: int, acc: Seq<LexemeV>) -> Result<
    Seq<LexemeV>,
    ParseError,
>
    decreases s.len() - i,
{
    if i < 0 || i >= s.len() {
        Ok(acc)
    } else {
        let c = s[i];
        let two = i + 1 < s.len() && s[i + 1] == c;
        if is_blank(c) {
            lex_acc(s, i + 1, acc)
        } else if c == '&' {
            if two {
                lex_acc(s, i + 2, acc.push(LexemeV::Op(OpTok::And)))
            } else {
                lex_acc(s, i + 1, acc.push(LexemeV::Op(OpTok::Amp)))
            }
        } else if c == '|' {
            if two {
                lex_acc(s, i + 2, acc.push(LexemeV::Op(OpTok::Or)))
            } else {
                lex_acc(s, i + 1, acc.push(LexemeV::Op(OpTok::Pipe)))
            }
        } else if c == ';' {
            lex_acc(s, i + 1, acc.push(LexemeV::Op(OpTok::Semi)))
        } else if c == '<' {
            lex_acc(s, i + 1, acc.push(LexemeV::Op(OpTok::Less)))
        } else if c == '>' {
            lex_acc(s, i + 1, acc.push(LexemeV::Op(OpTok::Greater)))
        } else if starts_piece(c) {
            match word_acc(s, i, seq![]) {
                Ok((ps, j)) => if j <= i || j > s.len() {
                    Err(ParseError::Syntax)
                } else {
                    lex_acc(s, j, acc.push(LexemeV::Word(ps)))
                },
                Err(e) => Err(e),
            }
        } else {
            Err(ParseError::BadChar(c))
        }
    }
}

/// The lexemes of a command line. Blanks (space, tab) separate words;
/// `&&`, `||`, `&`, `|`, `;`, `<`, `>` are operators, the two-character ones
/// taken first; a word is a run of pieces: unquoted text, `"…"` or `'…'`
/// taken literally, `` `…` `` or `$(…)` to substitute, `\` and one character.
pub open spec fn lex(s: Seq<char>) -> Result<Seq<LexemeV>, ParseError> {
    lex_acc(s, 0, seq![])
}

fn is_bare_char(c: char) -> (r: bool)
    ensures
        r == is_bare(c),
{
    ('a' <= c && c <= 'z') || ('A' <= c && c <= 'Z') || ('0' <= c && c <= '9') || c == '.'
        || c == ',' || c == '_' || c == '-' || c == '/' || c == '='
}

fn find_char(s: &Vec<char>, i: usize, c: char) -> (r: usize)
    requires
        i <= s.len(),
    ensures
        r == find_from(s@, i as int, c),
        i <= r <= s.len(),
{
    let mut j = i;
    while j < s.len() && s[j] != c
        invariant
            i <= j <= s.len(),
            find_from(s@, i as int, c) == find_from(s@, j as int, c),
        decreases s.len() - j,
    {
        j = j + 1;
    }
    j
}

fn slice_chars(s: &Vec<char>, i: usize, j: usize) -> (r: Vec<char>)
    requires
        i <= j <= s.len(),
    ensures
        r@ == s@.subrange(i as int, j as int),
{
    let mut r: Vec<char> = Vec::new();
    let mut k = i;
    while k < j
        invariant
            i <= k <= j,
            j <= s.len(),
            r@ == s@.subrange(i as int, k as int),
        decreases j - k,
    {
        r.push(s[k]);
        k = k + 1;
    }
    r
}

fn quoted_piece(s: &Vec<char>, i: usize, k: usize, c: char, open: char, sub: bool) -> (r: Result<
    (Piece, usize),
    ParseError,
>)
    requires
        i + k <= s.len(),
    ensures
        r matches Ok((_, j)) ==> i + k < j <= s.len(),
        match (r, quoted(s@, i as int, k as int, c, open, sub)) {
            (Ok((p, j)), Ok((pv, jv))) => p@ == pv && j == jv,
            (Err(e), Err(ev)) => e == ev,
            _ => false,
        },
{
    let j = find_char(s, i + k, c);
    if j >= s.len() {
        Err(ParseError::Unclosed(open))
    } else {
        let t = slice_chars(s, i + k, j);
        if sub {
            Ok((Piece::Sub(t), j + 1))
        } else {
            Ok((Piece::Lit(t), j + 1))
        }
    }
}

fn piece_from(s: &Vec<char>, i: usize) -> (r: Result<(Piece, usize), ParseError>)
    requires
        i < s.len(),
    ensures
        r matches Ok((_, j)) ==> i < j <= s.len(),
        match (r, piece_at(s@, i as int)) {
            (Ok((p, j)), Ok((pv, jv))) => p@ == pv && j == jv,
            (Err(e), Err(ev)) => e == ev,
            _ => false,
        },
{
    let c = s[i];
    if is_bare_char(c) {
        let mut j = i;
        while j < s.len() && is_bare_char(s[j])
            invariant
                i <= j <= s.len(),
                bare_end(s@, i as int) == bare_end(s@, j as int),
            decreases s.len() - j,
        {
            j = j + 1;
        }
        Ok((Piece::Lit(slice_chars(s, i, j)), j))
    } else if c == '"' || c == '\'' {
        quoted_piece(s, i, 1, c, c, false)
    } else if c == '`' {
        quoted_piece(s, i, 1, '`', '`', true)
    } else if c == '$' {
        if i + 1 < s.len() && s[i + 1] == '(' {
            quoted_piece(s, i, 2, ')', '(', true)
        } else {
            Err(ParseError::BadChar('$'))
        }
    } else if c == '\\' {
        if i + 1 < s.len() {
            let mut t: Vec<char> = Vec::new();
            t.push(s[i + 1]);
            assert(t@ =~= seq![s@[i + 1]]);
            Ok((Piece::Lit(t), i + 2))
        } else {
            Err(ParseError::TrailingEscape)
        }
    } else {
        Err(ParseError::BadChar(c))
    }
}

fn word_from(s: &Vec<char>, i: usize) -> (r: Result<(Vec<Piece>, usize), ParseError>)
    requires
        i <= s.len(),
    ensures
        r matches Ok((_, j)) ==> i <= j <= s.len(),
        match (r, word_acc(s@, i as int, seq![])) {
            (Ok((ps, j)), Ok((pvs, jv))) => ps@.map_values(|p: Piece| p@) == pvs && j == jv,
            (Err(e), Err(ev)) => e == ev,
            _ => false,
        },
{
    let mut ps: Vec<Piece> = Vec::new();
    let mut j = i;
    assert(ps@.map_values(|p: Piece| p@) =~= Seq::<PieceV>::empty());
    while j < s.len() && (is_bare_char(s[j]) || s[j] == '"' || s[j] == '\'' || s[j] == '`'
        || s[j] == '$' || s[j] == '\\')
        invariant
            i <= j <= s.len(),
            word_acc(s@, i as int, seq![]) == word_acc(s@, j as int, ps@.map_values(|p: Piece| p@)),
        decreases s.len() - j,
    {
        match piece_from(s, j) {
            Ok((p, k)) => {
                if k <= j || k > s.len() {
                    return Err(ParseError::Syntax);
                }
                let ghost before = ps@.map_values(|p: Piece| p@);
                let ghost pv = p@;
                ps.push(p);
                assert(ps@.map_values(|p: Piece| p@) =~= before.push(pv));
                j = k;
            },
            Err(e) => {
                return Err(e);
            },
        }
    }
    Ok((ps, j))
}

/// Splits a command line into lexemes, as [`lex`] says.
pub fn lex_line(s: &str) -> (r: Result<Vec<Lexeme>, ParseError>)
    ensures
        match (r, lex(s@)) {
            (Ok(ls), Ok(lvs)) => ls@.map_values(|l: Lexeme| l@) == lvs,
            (Err(e), Err(ev)) => e == ev,
            _ => false,
        },
{
    let cs = chars_of(s);
    let mut out: Vec<Lexeme> = Vec::new();
    let mut i: usize = 0;
    assert(out@.map_values(|l: Lexeme| l@) =~= Seq::<LexemeV>::empty());
    while i < cs.len()
        invariant
            cs@ == s@,
            i <= cs.len(),
            lex(s@) == lex_acc(s@, i as int, out@.map_values(|l: Lexeme| l@)),
        decreases cs.len() - i,
    {
        let c = cs[i];
        let two = i + 1 < cs.len() && cs[i + 1] == c;
        let ghost before = out@.map_values(|l: Lexeme| l@);
        if c == ' ' || c == '\t' {
            i = i + 1;
        } else if c == '&' || c == '|' || c == ';' || c == '<' || c == '>' {
            let (t, w) = if c == '&' {
                if two {
                    (OpTok::And, 2)
                } else {
                    (OpTok::Amp, 1)
                }
            } else if c == '|' {
                if two {
                    (OpTok::Or, 2)
                } else {
                    (OpTok::Pipe, 1)
                }
            } else if c == ';' {
                (OpTok::Semi, 1)
            } else if c == '<' {
                (OpTok::Less, 1)
            } else {
                (OpTok::Greater, 1)
            };
            out.push(Lexeme::Op(t));
            assert(out@.map_values(|l: Lexeme| l@) =~= before.push(LexemeV::Op(t)));
            i = i + w;
        } else if is_bare_char(c) || c == '"' || c == '\'' || c == '`' || c == '$' || c == '\\' {
            match word_from(&cs, i) {
                Ok((ps, j)) => {
                    if j <= i || j > cs.len() {
                        return Err(ParseError::Syntax);
                    }
                    let ghost pvs = ps@.map_values(|p: Piece| p@);
                    out.push(Lexeme::Word(ps));
                    assert(out@.map_values(|l: Lexeme| l@) =~= before.push(LexemeV::Word(pvs)));
                    i = j;
                },
                Err(e) => {
                    return Err(e);
                },
            }
        } else {
            return Err(ParseError::BadChar(c));
        }
    }
    Ok(out)
}

// ----- tokens to a tree -----

pub open spec fn toks_view(t: Seq<Tok>) -> Seq<TokV> {
    t.map_values(|x: Tok| x@)
}

/// The words that go on at `i`, after the words `acc`, and the index after
/// them.
pub open spec fn words_acc(t: Seq<TokV>, i: int, acc: Seq<Seq<char>>) -> (Seq<Seq<char>>, int)
    decreases t.len() - i,
{
    if 0 <= i < t.len() {
        match t[i] {
            TokV::Word(w) => words_acc(t, i + 1, acc.push(w)),
            _ => (acc, i),
        }
    } else {
        (acc, i)
    }
}

/// The redirections that go on at `i`, given those already read, and the
/// index after them; each of `<` and `>` at most once, each followed by a
/// word.
pub open spec fn redir_acc(
    t: Seq<TokV>,
    i: int,
    src: Option<Seq<char>>,
    dest: Option<Seq<char>>,
) -> Result<(Option<Seq<char>>, Option<Seq<char>>, int), ParseError>
    decreases t.len() - i,
{
    if 0 <= i < t.len() && (t[i] == TokV::Op(OpTok::Less) || t[i] == TokV::Op(OpTok::Greater)) {
        let is_in = t[i] == TokV::Op(OpTok::Less);
        if i + 1 < t.len() {
            match t[i + 1] {
                TokV::Word(w) => if is_in {
                    if src is Some {
                        Err(ParseError::Syntax)
                    } else {
                        redir_acc(t, i + 2, Some(w), dest)
                    }
                } else {
                    if dest is Some {
                        Err(ParseError::Syntax)
                    } else {
                        redir_acc(t, i + 2, src, Some(w))
                    }
                },
                _ => Err(ParseError::Syntax),
            }
        } else {
            Err(ParseError::Syntax)
        }
    } else {
        Ok((src, dest, i))
    }
}

/// The command that starts at `i`: one word or more, then its
/// redirections; and the index after it.
pub open spec fn atom_at(t: Seq<TokV>, i: int) -> Result<(AtomV, int), ParseError> {
    let (ws, j) = words_acc(t, i, seq![]);
    if ws.len() == 0 {
        Err(ParseError::Syntax)
    } else {
        match redir_acc(t, j, None, None) {
            Ok((src, dest, k)) => Ok((AtomV { pars: ws, src, dest }, k)),
            Err(e) => Err(e),
        }
    }
}

/// The commands that go on at `i`, each after a `|`, after the commands
/// `acc`; and the index after them.
pub open spec fn pipe_acc(t: Seq<TokV>, i: int, acc: Seq<AtomV>) -> Result<
    (Seq<AtomV>, int),
    ParseError,
>
    decreases t.len() - i,
{
    if 0 <= i < t.len() && t[i] == TokV::Op(OpTok::Pipe) {
        match atom_at(t, i + 1) {
            Ok((a, j)) => if j <= i || j > t.len() {
                Err(ParseError::Syntax)
            } else {
                pipe_acc(t, j, acc.push(a))
            },
            Err(e) => Err(e),
        }
    } else {
        Ok((acc, i))
    }
}

/// The pipeline that starts at `i`, the index after it, and whether it ends
/// with `&`: then it runs in the background, and the `&` is taken too.
pub open spec fn pipeline_at(t: Seq<TokV>, i: int) -> Result<(AstV, int, bool), ParseError> {
    match atom_at(t, i) {
        Ok((a, j)) => match pipe_acc(t, j, seq![a]) {
            Ok((atoms, k)) => if 0 <= k < t.len() && t[k] == TokV::Op(OpTok::Amp) {
                Ok((AstV::Bg(atoms), k + 1, true))
            } else {
                Ok((AstV::Fg(atoms), k, false))
            },
            Err(e) => Err(e),
        },
        Err(e) => Err(e),
    }
}

/// The operator that a token joins with, if it is one of `&&`, `||`, `;`.
pub open spec fn join_op(t: TokV) -> Option<Op> {
    if t == TokV::Op(OpTok::And) {
        Some(Op::AND)
    } else if t == TokV::Op(OpTok::Or) {
        Some(Op::OR)
    } else if t == TokV::Op(OpTok::Semi) {
        Some(Op::SEQ)
    } else {
        None
    }
}

/// The line from `i` on, left-associated onto the tree `acc`; `amp` says
/// that the previous pipeline ended with `&`, which then also joins it to
/// what follows, as `;` would.
pub open spec fn rest_acc(t: Seq<TokV>, i: int, acc: AstV, amp: bool) -> Result<AstV, ParseError>
    decreases t.len() - i,
{
    if i < 0 || i >= t.len() {
        Ok(acc)
    } else {
        let (op, k) = if amp {
            (Some(Op::SEQ), i)
        } else {
            (join_op(t[i]), i + 1)
        };
        match op {
            Some(o) => match pipeline_at(t, k) {
                Ok((p, j, a)) => if j <= i || j > t.len() {
                    Err(ParseError::Syntax)
                } else {
                    rest_acc(t, j, AstV::BinOp(Box::new(acc), Box::new(p), o), a)
                },
                Err(e) => Err(e),
            },
            None => Err(ParseError::Syntax),
        }
    }
}

/// The tree of a line of tokens: `Empty` for no tokens; else pipelines
/// joined by `&&`, `||`, `;` or `&`, all of one precedence and associated to
/// the left.
pub open spec fn parse(t: Seq<TokV>) -> Result<AstV, ParseError> {
    if t.len() == 0 {
        Ok(AstV::Empty)
    } else {
        match pipeline_at(t, 0) {
            Ok((p, j, a)) => rest_acc(t, j, p, a),
            Err(e) => Err(e),
        }
    }
}

fn is_word(t: &Tok) -> (r: bool)
    ensures
        r == (t@ is Word),
{
    match t {
        Tok::Word(_) => true,
        Tok::Op(_) => false,
    }
}

fn is_op(t: &Tok, o: OpTok) -> (r: bool)
    ensures
        r == (t@ == TokV::Op(o)),
{
    match t {
        Tok::Op(x) => *x == o,
        Tok::Word(_) => false,
    }
}

fn atom_from(t: &Vec<Tok>, i: usize) -> (r: Result<(Atom, usize), ParseError>)
    requires
        i <= t.len(),
    ensures
        r matches Ok((_, j)) ==> i < j <= t.len(),
        match (r, atom_at(toks_view(t@), i as int)) {
            (Ok((a, j)), Ok((av, jv))) => a@ == av && j == jv,
            (Err(e), Err(ev)) => e == ev,
            _ => false,
        },
{
    let ghost tv = toks_view(t@);
    let mut pars: Vec<String> = Vec::new();
    let mut j = i;
    assert(pars@.map_values(|p: String| p@) =~= Seq::<Seq<char>>::empty());
    while j < t.len() && is_word(&t[j])
        invariant
            i <= j <= t.len(),
            tv == toks_view(t@),
            pars@.len() == j - i,
            words_acc(tv, i as int, seq![]) == words_acc(
                tv,
                j as int,
                pars@.map_values(|p: String| p@),
            ),
        decreases t.len() - j,
    {
        match &t[j] {
            Tok::Word(w) => {
                let ghost before = pars@.map_values(|p: String| p@);
                pars.push(w.clone());
                assert(pars@.map_values(|p: String| p@) =~= before.push(w@));
            },
            Tok::Op(_) => {},
        }
        j = j + 1;
    }
    assert(words_acc(tv, i as int, seq![]) == (pars@.map_values(|p: String| p@), j as int));
    if pars.len() == 0 {
        return Err(ParseError::Syntax);
    }
    let ghost ws = pars@.map_values(|p: String| p@);
    let mut src: Option<String> = None;
    let mut dest: Option<String> = None;
    while j < t.len() && (is_op(&t[j], OpTok::Less) || is_op(&t[j], OpTok::Greater))
        invariant
            i < j <= t.len(),
            tv == toks_view(t@),
            redir_acc(tv, words_acc(tv, i as int, seq![]).1, None, None) == redir_acc(
                tv,
                j as int,
                opt_view(src),
                opt_view(dest),
            ),
        decreases t.len() - j,
    {
        let is_in = is_op(&t[j], OpTok::Less);
        if j + 1 >= t.len() {
            return Err(ParseError::Syntax);
        }
        match &t[j + 1] {
            Tok::Word(w) => {
                if is_in {
                    if src.is_some() {
                        return Err(ParseError::Syntax);
                    }
                    src = Some(w.clone());
                } else {
                    if dest.is_some() {
                        return Err(ParseError::Syntax);
                    }
                    dest = Some(w.clone());
                }
                j = j + 2;
            },
            Tok::Op(_) => {
                return Err(ParseError::Syntax);
            },
        }
    }
    let a = Atom { pars, src, dest };
    assert(a@.pars == ws);
    Ok((a, j))
}

fn pipeline_from(t: &Vec<Tok>, i: usize) -> (r: Result<(AST, usize, bool), ParseError>)
    requires
        i <= t.len(),
    ensures
        r matches Ok((_, j, _)) ==> i < j <= t.len(),
        match (r, pipeline_at(toks_view(t@), i as int)) {
            (Ok((a, j, b)), Ok((av, jv, bv))) => a.view() == av && j == jv && b == bv,
            (Err(e), Err(ev)) => e == ev,
            _ => false,
        },
{
    let ghost tv = toks_view(t@);
    let (first, mut j) = match atom_from(t, i) {
        Ok(x) => x,
        Err(e) => {
            return Err(e);
        },
    };
    let ghost fv = first@;
    let mut atoms: Vec<Atom> = Vec::new();
    atoms.push(first);
    assert(atoms_view(atoms@) =~= seq![fv]);
    while j < t.len() && is_op(&t[j], OpTok::Pipe)
        invariant
            i < j <= t.len(),
            tv == toks_view(t@),
            atom_at(tv, i as int) matches Ok((a0, j0)) && pipe_acc(tv, j0, seq![a0]) == pipe_acc(
                tv,
                j as int,
                atoms_view(atoms@),
            ),
        decreases t.len() - j,
    {
        match atom_from(t, j + 1) {
            Ok((a, k)) => {
                let ghost before = atoms_view(atoms@);
                let ghost av = a@;
                atoms.push(a);
                assert(atoms_view(atoms@) =~= before.push(av));
                j = k;
            },
            Err(e) => {
                return Err(e);
            },
        }
    }
    if j < t.len() && is_op(&t[j], OpTok::Amp) {
        Ok((AST::Bg(atoms), j + 1, true))
    } else {
        Ok((AST::Fg(atoms), j, false))
    }
}

fn join_op_of(t: &Tok) -> (r: Option<Op>)
    ensures
        r == join_op(t@),
{
    if is_op(t, OpTok::And) {
        Some(Op::AND)
    } else if is_op(t, OpTok::Or) {
        Some(Op::OR)
    } else if is_op(t, OpTok::Semi) {
        Some(Op::SEQ)
    } else {
        None
    }
}

/// Parses a line of tokens, as [`parse`] says.
pub fn parse_tokens(t: &Vec<Tok>) -> (r: Result<AST, ParseError>)
    ensures
        match (r, parse(toks_view(t@))) {
            (Ok(a), Ok(av)) => a.view() == av,
            (Err(e), Err(ev)) => e == ev,
            _ => false,
        },
{
    let ghost tv = toks_view(t@);
    if t.len() == 0 {
        return Ok(AST::Empty);
    }
    let (mut acc, mut i, mut amp) = match pipeline_from(t, 0) {
        Ok(x) => x,
        Err(e) => {
            return Err(e);
        },
    };
    while i < t.len()
        invariant
            i <= t.len(),
            tv == toks_view(t@),
            parse(tv) == rest_acc(tv, i as int, acc.view(), amp),
        decreases t.len() - i,
    {
        let (op, k) = if amp {
            (Some(Op::SEQ), i)
        } else {
            (join_op_of(&t[i]), i + 1)
        };
        match op {
            Some(o) => match pipeline_from(t, k) {
                Ok((p, j, a)) => {
                    acc = AST::BinOp(Box::new(acc), Box::new(p), o);
                    i = j;
                    amp = a;
                },
                Err(e) => {
                    return Err(e);
                },
            },
            None => {
                return Err(ParseError::Syntax);
            },
        }
    }
    Ok(acc)
}

// ----- substitution and the whole line -----

/// The text of a word whose substitution pieces printed `outs` (one entry
/// per piece; those of literal pieces are not read).
pub open spec fn word_text(ps: Seq<PieceV>, outs: Seq<Seq<char>>) -> Seq<char>
    decreases ps.len(),
{
    if ps.len() == 0 {
        seq![]
    } else {
        word_text(ps.drop_last(), outs.drop_last()) + match ps.last() {
            PieceV::Lit(t) => t,
            PieceV::Sub(_) => outs.last(),
        }
    }
}

/// A token is a lexeme once its substitutions have run: an operator stays,
/// a word becomes its text for some output of its commands.
pub open spec fn expands_to(l: LexemeV, t: TokV) -> bool {
    match (l, t) {
        (LexemeV::Word(ps), TokV::Word(w)) => exists|outs: Seq<Seq<char>>|
            outs.len() == ps.len() && w == word_text(ps, outs),
        (LexemeV::Op(a), TokV::Op(b)) => a == b,
        _ => false,
    }
}

pub open spec fn pieces_view(ps: Seq<Piece>) -> Seq<PieceV> {
    ps.map_values(|p: Piece| p@)
}

pub open spec fn strings_view(v: Seq<String>) -> Seq<Seq<char>> {
    v.map_values(|s: String| s@)
}

/// The text of a word given what its substitution pieces printed.
pub fn fill_word(ps: &Vec<Piece>, outs: &Vec<String>) -> (r: String)
    requires
        outs.len() == ps.len(),
    ensures
        r@ == word_text(pieces_view(ps@), strings_view(outs@)),
{
    let mut r: Vec<char> = Vec::new();
    let mut i: usize = 0;
    while i < ps.len()
        invariant
            i <= ps.len(),
            outs.len() == ps.len(),
            r@ == word_text(
                pieces_view(ps@.subrange(0, i as int)),
                strings_view(outs@.subrange(0, i as int)),
            ),
        decreases ps.len() - i,
    {
        let ghost pre = r@;
        let part: Vec<char> = match &ps[i] {
            Piece::Lit(t) => t.clone(),
            Piece::Sub(_) => chars_of(outs[i].as_str()),
        };
        let mut k: usize = 0;
        while k < part.len()
            invariant
                k <= part.len(),
                r@ == pre + part@.subrange(0, k as int),
            decreases part.len() - k,
        {
            r.push(part[k]);
            k = k + 1;
        }
        proof {
            let pv = pieces_view(ps@.subrange(0, i + 1));
            let ov = strings_view(outs@.subrange(0, i + 1));
            assert(pv.drop_last() =~= pieces_view(ps@.subrange(0, i as int)));
            assert(ov.drop_last() =~= strings_view(outs@.subrange(0, i as int)));
            assert(part@.subrange(0, part@.len() as int) =~= part@);
        }
        i = i + 1;
    }
    assert(ps@.subrange(0, ps@.len() as int) =~= ps@);
    assert(outs@.subrange(0, outs@.len() as int) =~= outs@);
    string_of(&r)
}

/// `notes1` is `notes0` with more notes after it.
pub open spec fn noted(notes0: Seq<String>, notes1: Seq<String>) -> bool {
    notes0.len() <= notes1.len() && notes1.subrange(0, notes0.len() as int) == notes0
}

pub proof fn lemma_noted_trans(a: Seq<String>, b: Seq<String>, c: Seq<String>)
    requires
        noted(a, b),
        noted(b, c),
    ensures
        noted(a, c),
{
    assert(c.subrange(0, a.len() as int) =~= c.subrange(0, b.len() as int).subrange(
        0,
        a.len() as int,
    ));
}

/// Runs the substitutions of a word and returns its text; the error of each
/// substitution whose command could not be run is added to `notes`.
pub fn expand_word(ps: &Vec<Piece>, notes: &mut Vec<String>) -> (r: String)
    ensures
        exists|outs: Seq<Seq<char>>|
            outs.len() == ps@.len() && r@ == word_text(pieces_view(ps@), outs),
        noted(old(notes)@, final(notes)@),
{
    let mut outs: Vec<String> = Vec::new();
    let mut i: usize = 0;
    assert(notes@.subrange(0, notes@.len() as int) =~= notes@);
    while i < ps.len()
        invariant
            i <= ps.len(),
            outs.len() == i,
            noted(old(notes)@, notes@),
        decreases ps.len() - i,
    {
        let ghost n0 = notes@;
        match &ps[i] {
            Piece::Lit(_) => outs.push(String::new()),
            Piece::Sub(c) => {
                let t = substitute(string_of(c), notes);
                outs.push(t);
            },
        }
        proof {
            assert(notes@.subrange(0, n0.len() as int) =~= n0);
            lemma_noted_trans(old(notes)@, n0, notes@);
        }
        i = i + 1;
    }
    fill_word(ps, &outs)
}

/// Runs the substitutions of a line of lexemes; the error of each one whose
/// command could not be run is added to `notes`.
pub fn expand(ls: Vec<Lexeme>, notes: &mut Vec<String>) -> (r: Vec<Tok>)
    ensures
        r@.len() == ls@.len(),
        forall|i: int| 0 <= i < ls@.len() ==> expands_to(ls@[i]@, #[trigger] r@[i]@),
        noted(old(notes)@, final(notes)@),
{
    let mut r: Vec<Tok> = Vec::new();
    let mut i: usize = 0;
    assert(notes@.subrange(0, notes@.len() as int) =~= notes@);
    while i < ls.len()
        invariant
            i <= ls.len(),
            r@.len() == i,
            forall|k: int| 0 <= k < i ==> expands_to(ls@[k]@, #[trigger] r@[k]@),
            noted(old(notes)@, notes@),
        decreases ls.len() - i,
    {
        let ghost n0 = notes@;
        let t = match &ls[i] {
            Lexeme::Word(ps) => Tok::Word(expand_word(ps, notes)),
            Lexeme::Op(o) => Tok::Op(*o),
        };
        proof {
            if !(ls@[i as int]@ is Word) {
                assert(notes@.subrange(0, n0.len() as int) =~= n0);
            }
            lemma_noted_trans(old(notes)@, n0, notes@);
        }
        r.push(t);
        i = i + 1;
    }
    r
}

/// Parses a command line: [`lex`] it, run its substitutions, [`parse`] the
/// tokens. A line without substitutions gives exactly the tree of its
/// lexemes; with them, each substituted piece stands for what its command
/// printed. The error of each substitution that could not run is added to
/// `notes`.
pub fn parse_line(s: &str, notes: &mut Vec<String>) -> (r: Result<AST, ParseError>)
    ensures
        noted(old(notes)@, final(notes)@),
        lex(s@) matches Err(e) ==> r == Err::<AST, ParseError>(e),
        lex(s@) matches Ok(ls) ==> exists|tv: Seq<TokV>|
            #![trigger parse(tv)]
            tv.len() == ls.len() && (forall|i: int|
                0 <= i < ls.len() ==> expands_to(ls[i], #[trigger] tv[i])) && match (
                r,
                parse(tv),
            ) {
                (Ok(a), Ok(av)) => a.view() == av,
                (Err(e), Err(ev)) => e == ev,
                _ => false,
            },
{
    match lex_line(s) {
        Err(e) => {
            assert(notes@.subrange(0, notes@.len() as int) =~= notes@);
            Err(e)
        },
        Ok(ls) => {
            let ghost lv = ls@.map_values(|l: Lexeme| l@);
            let toks = expand(ls, notes);
            let r = parse_tokens(&toks);
            assert(forall|i: int|
                0 <= i < lv.len() ==> expands_to(lv[i], #[trigger] toks_view(toks@)[i]));
            r
        },
    }
}

impl ParseError {
    /// The diagnostic for this error.
    pub open spec fn text(self) -> Seq<char> {
        match self {
            ParseError::BadChar(c) => "parse error: unexpected character "@ + seq![c],
            ParseError::Unclosed(c) => "parse error: unclosed "@ + seq![c],
            ParseError::TrailingEscape => "parse error: backslash at the end of the line"@,
            ParseError::Syntax => "parse error: not pipelines joined by operators"@,
        }
    }

    /// The diagnostic for this error, as [`ParseError::text`] says.
    pub fn message(&self) -> (r: String)
        ensures
            r@ == self.text(),
    {
        let mut m = String::new();
        match self {
            ParseError::BadChar(c) => {
                push_str(&mut m, "parse error: unexpected character ");
                crate::text::push_char(&mut m, *c);
            },
            ParseError::Unclosed(c) => {
                push_str(&mut m, "parse error: unclosed ");
                crate::text::push_char(&mut m, *c);
            },
            ParseError::TrailingEscape => {
                push_str(&mut m, "parse error: backslash at the end of the line");
            },
            ParseError::Syntax => {
                push_str(&mut m, "parse error: not pipelines joined by operators");
            },
        }
        m
    }
}

/// The tree of a command line, or `Empty` when it does not parse; then the
/// diagnostic is the last note. Errors of substitutions are noted too.
pub fn ast_gen(s: String, notes: &mut Vec<String>) -> (r: AST)
    ensures
        noted(old(notes)@, final(notes)@),
        lex(s@) matches Err(e) ==> r == AST::Empty && final(notes)@.last()@ == e.text(),
        lex(s@) matches Ok(ls) ==> exists|tv: Seq<TokV>|
            #![trigger parse(tv)]
            tv.len() == ls.len() && (forall|i: int|
                0 <= i < ls.len() ==> expands_to(ls[i], #[trigger] tv[i])) && match parse(tv) {
                Ok(av) => r.view() == av,
                Err(e) => r == AST::Empty && final(notes)@.len() > old(notes)@.len()
                    && final(notes)@.last()@ == e.text(),
            },
{
    match parse_line(s.as_str(), notes) {
        Ok(a) => a,
        Err(e) => {
            let ghost n0 = notes@;
            notes.push(e.message());
            assert(notes@.subrange(0, n0.len() as int) =~= n0);
            proof {
                lemma_noted_trans(old(notes)@, n0, notes@);
            }
            AST::Empty
        },
    }
}

// ----- laws -----

/// An operator that joins or pipes commands: `|`, `&`, `&&`, `||`, `;`.
pub open spec fn is_joining(o: OpTok) -> bool {
    o == OpTok::Pipe || o == OpTok::Amp || o == OpTok::And || o == OpTok::Or || o == OpTok::Semi
}

pub open spec fn lexeme_joins(l: LexemeV) -> bool {
    l matches LexemeV::Op(o) && is_joining(o)
}

pub open spec fn tok_joins(t: TokV) -> bool {
    t matches TokV::Op(o) && is_joining(o)
}

proof fn lemma_lex_no_joining(s: Seq<char>, i: int, acc: Seq<LexemeV>)
    requires
        forall|k: int| 0 <= k < s.len() ==> s[k] != '|' && s[k] != '&' && s[k] != ';',
        forall|k: int| 0 <= k < acc.len() ==> !lexeme_joins(#[trigger] acc[k]),
    ensures
        lex_acc(s, i, acc) matches Ok(ls) ==> forall|k: int|
            0 <= k < ls.len() ==> !lexeme_joins(#[trigger] ls[k]),
    decreases s.len() - i,
{
    if i < 0 || i >= s.len() {
    } else {
        let c = s[i];
        if is_blank(c) {
            lemma_lex_no_joining(s, i + 1, acc);
        } else if c == '<' || c == '>' {
            let o = if c == '<' {
                OpTok::Less
            } else {
                OpTok::Greater
            };
            let acc2 = acc.push(LexemeV::Op(o));
            assert forall|k: int| 0 <= k < acc2.len() implies !lexeme_joins(acc2[k]) by {
                if k < acc.len() {
                    assert(acc2[k] == acc[k]);
                }
            }
            lemma_lex_no_joining(s, i + 1, acc2);
        } else if starts_piece(c) {
            match word_acc(s, i, seq![]) {
                Ok((ps, j)) => if j <= i || j > s.len() {
                } else {
                    let acc2 = acc.push(LexemeV::Word(ps));
                    assert forall|k: int| 0 <= k < acc2.len() implies !lexeme_joins(acc2[k]) by {
                        if k < acc.len() {
                            assert(acc2[k] == acc[k]);
                        }
                    }
                    lemma_lex_no_joining(s, j, acc2);
                },
                Err(_) => {},
            }
        }
    }
}

/// A line with no `|`, `&` or `;` in it, whose parse is neither an error nor
/// `Empty`, parses to a foreground pipeline of exactly one command, whatever
/// its substitutions printed.
pub proof fn lemma_plain_line_is_one_command(s: Seq<char>, tv: Seq<TokV>)
    requires
        forall|k: int| 0 <= k < s.len() ==> s[k] != '|' && s[k] != '&' && s[k] != ';',
        lex(s) matches Ok(ls) && tv.len() == ls.len() && forall|k: int|
            0 <= k < ls.len() ==> expands_to(ls[k], #[trigger] tv[k]),
        parse(tv) is Ok,
        parse(tv) != Ok::<AstV, ParseError>(AstV::Empty),
    ensures
        parse(tv) matches Ok(AstV::Fg(atoms)) && atoms.len() == 1,
{
    lemma_lex_no_joining(s, 0, seq![]);
    let ls = lex(s)->Ok_0;
    assert forall|k: int| 0 <= k < tv.len() implies !tok_joins(tv[k]) by {
        assert(expands_to(ls[k], tv[k]));
    }
    match atom_at(tv, 0) {
        Ok((a, j)) => {
            assert(pipe_acc(tv, j, seq![a]) == Ok::<(Seq<AtomV>, int), ParseError>((seq![a], j)));
            if 0 <= j < tv.len() {
                assert(join_op(tv[j]) is None);
            }
        },
        Err(_) => {},
    }
}

} // verus!
