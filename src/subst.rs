//! Command substitution: running the text of a backtick or `$( )` span as a
//! command and taking what it prints.
use crate::text::{chars_of, string_of};
use vstd::prelude::*;

verus! {

/// The text with one trailing newline taken off, and a carriage return
/// before it as well.
pub open spec fn strip_newline(s: Seq<char>) -> Seq<char> {
    if s.len() > 0 && s.last() == '\n' {
        let t = s.drop_last();
        if t.len() > 0 && t.last() == '\r' {
            t.drop_last()
        } else {
            t
        }
    } else {
        s
    }
}

/// The pieces of `s` between the occurrences of `c`, scanning from `i` with
/// `cur` the piece being read and `acc` the pieces already closed.
pub open spec fn split_acc(
    s: Seq<char>,
    c: char,
    i: int,
    cur: Seq<char>,
    acc: Seq<Seq<char>>,
) -> Seq<Seq<char>>
    decreases s.len() - i,
{
    if i >= s.len() {
        acc.push(cur)
    } else if s[i] == c {
        split_acc(s, c, i + 1, seq![], acc.push(cur))
    } else {
        split_acc(s, c, i + 1, cur.push(s[i]), acc)
    }
}

/// The pieces of `s` between the occurrences of `c`: one more piece than
/// there are occurrences, empty pieces kept.
pub open spec fn split_on(s: Seq<char>, c: char) -> Seq<Seq<char>> {
    split_acc(s, c, 0, seq![], seq![])
}

/// Splits `s` at every occurrence of `c`.
pub fn split_text(s: &str, c: char) -> (r: Vec<String>)
    ensures
        r@.map_values(|p: String| p@) == split_on(s@, c),
{
    let cs = chars_of(s);
    let mut r: Vec<String> = Vec::new();
    let mut cur: Vec<char> = Vec::new();
    let mut i: usize = 0;
    assert(r@.map_values(|p: String| p@) =~= Seq::<Seq<char>>::empty());
    assert(cur@ =~= Seq::<char>::empty());
    while i < cs.len()
        invariant
            cs@ == s@,
            i <= cs.len(),
            split_acc(s@, c, i as int, cur@, r@.map_values(|p: String| p@)) == split_on(s@, c),
        decreases cs.len() - i,
    {
        if cs[i] == c {
            let piece = string_of(&cur);
            let ghost before = r@.map_values(|p: String| p@);
            r.push(piece);
            assert(r@.map_values(|p: String| p@) =~= before.push(cur@));
            cur = Vec::new();
            assert(cur@ =~= Seq::<char>::empty());
        } else {
            cur.push(cs[i]);
        }
        i = i + 1;
    }
    let piece = string_of(&cur);
    let ghost before = r@.map_values(|p: String| p@);
    r.push(piece);
    assert(r@.map_values(|p: String| p@) =~= before.push(cur@));
    r
}

/// What a substitution yields from the captured output of its command: the
/// output without its trailing newline, or nothing when the command could not
/// be run.
pub open spec fn substitution_text(out: Option<Seq<char>>) -> Seq<char> {
    match out {
        Some(o) => strip_newline(o),
        None => seq![],
    }
}

/// What a substitution yields from the captured output of its command.
pub fn substitution_result(out: Option<String>) -> (r: String)
    ensures
        r@ == substitution_text(
            match out {
                Some(o) => Some(o@),
                None => None,
            },
        ),
{
    match out {
        Some(o) => {
            let mut cs = chars_of(o.as_str());
            if cs.len() > 0 && cs[cs.len() - 1] == '\n' {
                cs.pop();
                if cs.len() > 0 && cs[cs.len() - 1] == '\r' {
                    cs.pop();
                }
            }
            string_of(&cs)
        },
        None => String::new(),
    }
}

/// Relies on `subprocess::Exec::capture` and `CaptureData::stdout_str`: runs
/// the program `argv[0]` with the other words as its arguments, waits for it,
/// and returns its standard output; when it could not be run, the text of the
/// error. What it prints depends on the program.
#[verifier::external_body]
fn capture_stdout(argv: &Vec<String>) -> (r: Result<String, String>)
    requires
        argv.len() >= 1,
{
    match subprocess::Exec::cmd(&argv[0]).args(&argv[1..]).stdout(
        subprocess::Redirection::Pipe,
    ).capture() {
        Ok(c) => Ok(c.stdout_str()),
        Err(e) => Err(e.to_string()),
    }
}

/// Runs `s` as a command, its words separated by single spaces, and returns
/// what it printed without the trailing newline; or, when it could not be
/// run, the error.
pub fn replace_exe(s: String) -> (r: Result<String, String>)
    ensures
        r matches Ok(t) ==> exists|out: Seq<char>| t@ == strip_newline(out),
{
    let argv = split_text(s.as_str(), ' ');
    if argv.len() == 0 {
        return Err(String::new());
    }
    match capture_stdout(&argv) {
        Ok(out) => {
            let t = substitution_result(Some(out));
            Ok(t)
        },
        Err(e) => Err(e),
    }
}

/// The text of a substitution: what its command printed without the
/// trailing newline; or, when the command could not be run, nothing, and
/// the error is added to `notes`.
pub open spec fn substituted(
    r: Seq<char>,
    notes0: Seq<String>,
    notes1: Seq<String>,
) -> bool {
    ||| notes1 == notes0 && exists|out: Seq<char>| r == strip_newline(out)
    ||| notes1.len() == notes0.len() + 1 && notes1.drop_last() == notes0 && r == Seq::<char>::empty()
}

/// Runs a substitution, as [`substituted`] says.
pub fn substitute(s: String, notes: &mut Vec<String>) -> (r: String)
    ensures
        substituted(r@, old(notes)@, final(notes)@),
{
    match replace_exe(s) {
        Ok(t) => t,
        Err(e) => {
            let ghost n0 = notes@;
            notes.push(e);
            assert(notes@.drop_last() =~= n0);
            String::new()
        },
    }
}

} // verus!
