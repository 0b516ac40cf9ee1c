//! The engine's decisions: builtin commands, alias resolution, the order in
//! which the pipelines of a tree run, and the status of a pipeline.
use crate::aliases::{alias_text, alias_words, is_alias_value, set_result, value_of, Aliases};
use crate::parser::{lemma_noted_trans, noted};
use crate::job_manager::{listing_text, Job, Jobs, Status};
use crate::parser::{
    atoms_view, expand, expands_to, lex, lex_line, Atom, AtomV, AstV, Lexeme, Op, Tok, TokV, AST,
};
use crate::subst::{split_on, split_text};
use crate::text::{decimal, decimal_string, parse_u32, push_str, same_text, u32_of};
use vstd::prelude::*;

verus! {

/// The names of the commands that the shell runs itself.
pub open spec fn is_builtin_name(n: Seq<char>) -> bool {
    n == "alias"@ || n == "cd"@ || n == "jobs"@ || n == "fg"@ || n == "bg"@ || n == "exit"@
}

/// Whether `name` is a command that the shell runs itself.
pub fn is_builtin(name: &str) -> (r: bool)
    ensures
        r == is_builtin_name(name@),
{
    same_text(name, "alias") || same_text(name, "cd") || same_text(name, "jobs") || same_text(
        name,
        "fg",
    ) || same_text(name, "bg") || same_text(name, "exit")
}

/// What is left to do after a builtin command, outside the tables.
pub enum Effect {
    /// Nothing.
    Done,
    /// Print these lines on standard output.
    Print(Vec<String>),
    /// Report this message on standard error.
    Report(String),
    /// Change the working directory to this path.
    ChangeDir(String),
    /// Bring this job, taken out of the table, to the foreground: announce
    /// it, make its process the foreground group, wait for it, report how it
    /// ended.
    Resume(Job),
    /// End the shell.
    Exit,
}

pub open spec fn cd_arity_text(n: nat) -> Seq<char> {
    "cd: 1 parameter expected, "@ + decimal(n) + " given"@
}

pub open spec fn alias_arity_text(n: nat) -> Seq<char> {
    "alias: 0 or 1 argument required, "@ + decimal(n) + " received"@
}

/// The report for an alias whose value is not one or more words.
pub open spec fn alias_value_text(name: Seq<char>, v: Seq<char>) -> Seq<char> {
    "alias: "@ + name + " does not stand for a command: "@ + v
}

pub open spec fn job_not_found_text(arg: Seq<char>) -> Seq<char> {
    "fg: job not found: "@ + arg
}

/// Whether the lines are exactly `texts`.
pub open spec fn lines_are(r: Effect, texts: Seq<Seq<char>>) -> bool {
    r matches Effect::Print(ls) && ls@.len() == texts.len() && forall|i: int|
        0 <= i < texts.len() ==> #[trigger] ls@[i]@ == texts[i]
}

pub open spec fn report_is(r: Effect, text: Seq<char>) -> bool {
    r matches Effect::Report(m) && m@ == text
}

/// What `cd` does with the words `p`.
pub open spec fn cd_post(p: Seq<Seq<char>>, r: Effect) -> bool {
    if p.len() == 2 {
        r matches Effect::ChangeDir(d) && d@ == p[1]
    } else {
        report_is(r, cd_arity_text((p.len() - 1) as nat))
    }
}

/// What `alias` does with the words `p`, from table `a0` to table `a1`.
pub open spec fn alias_post(
    p: Seq<Seq<char>>,
    a0: Seq<(Seq<char>, Seq<char>)>,
    a1: Seq<(Seq<char>, Seq<char>)>,
    r: Effect,
) -> bool {
    if p.len() == 1 {
        a1 == a0 && lines_are(r, Seq::new(a0.len(), |i: int| alias_text(a0[i].0, a0[i].1)))
    } else if p.len() == 2 {
        let parts = split_on(p[1], '=');
        if parts.len() == 1 {
            a1 == a0 && lines_are(
                r,
                match value_of(a0, p[1]) {
                    Some(v) => seq![alias_text(p[1], v)],
                    None => seq![],
                },
            )
        } else if parts.len() == 2 {
            set_result(a0, a1, parts[0], parts[1]) && r is Done
        } else {
            a1 == a0 && report_is(r, "alias: more than one equal operator is detected"@)
        }
    } else {
        a1 == a0 && report_is(r, alias_arity_text((p.len() - 1) as nat))
    }
}

/// Whether the table holds a job with id `jid`.
pub open spec fn has_job(j: Jobs, jid: u32) -> bool {
    exists|i: int| 0 <= i < j.jobs@.len() && #[trigger] j.jobs@[i].jid == jid
}

/// The two tables hold the same jobs and counter.
pub open spec fn same_jobs(a: Jobs, b: Jobs) -> bool {
    a.jobs@ == b.jobs@ && a.cnt == b.cnt
}

/// What `fg` does with the words `p`, from table `j0` to table `j1`: with
/// no argument it reports that there is no current job; with the id of a
/// job it takes that job out to be waited for; else it prints that the job
/// was not found, and nothing is waited for.
pub open spec fn fg_post(p: Seq<Seq<char>>, j0: Jobs, j1: Jobs, r: Effect) -> bool {
    if p.len() == 1 {
        same_jobs(j0, j1) && report_is(r, "fg: no current job"@)
    } else {
        match u32_of(p[1]) {
            Some(id) if has_job(j0, id) => r matches Effect::Resume(job) && exists|i: int|
                0 <= i < j0.jobs@.len() && j0.jobs@[i].jid == id && job.entry()
                    == j0.entries()[i] && j1.entries() == j0.entries().remove(i) && j1.cnt
                    == j0.cnt,
            _ => same_jobs(j0, j1) && lines_are(r, seq![job_not_found_text(p[1])]),
        }
    }
}

/// What the builtin command with words `p` does, from tables `j0`, `a0` to
/// tables `j1`, `a1`, returning `r`.
pub open spec fn builtin_post(
    p: Seq<Seq<char>>,
    j0: Jobs,
    j1: Jobs,
    a0: Aliases,
    a1: Aliases,
    r: Effect,
) -> bool {
    &&& j1.wf()
    &&& a1.wf()
    &&& j1.cnt == j0.cnt
    &&& p[0] != "fg"@ ==> j1 == j0
    &&& p[0] != "alias"@ ==> a1 == a0
    &&& p[0] == "cd"@ ==> cd_post(p, r)
    &&& p[0] == "jobs"@ ==> lines_are(
        r,
        Seq::new(
            j0.jobs@.len(),
            |i: int| listing_text(j0.jobs@[i].jid, j0.jobs@[i].pid, j0.jobs@[i].cmd@),
        ),
    )
    &&& p[0] == "bg"@ ==> r is Done
    &&& p[0] == "exit"@ ==> r is Exit
    &&& p[0] == "fg"@ ==> fg_post(p, j0, j1, r)
    &&& p[0] == "alias"@ ==> alias_post(p, a0.view(), a1.view(), r)
}

/// Runs a builtin command on the tables, and returns what is left to do.
/// A wrong number of arguments is reported and nothing else is done.
pub fn builtin(atom: &Atom, jobs: &mut Jobs, aliases: &mut Aliases) -> (r: Effect)
    requires
        old(jobs).wf(),
        old(aliases).wf(),
        atom@.pars.len() >= 1,
        is_builtin_name(atom@.pars[0]),
    ensures
        builtin_post(atom@.pars, *old(jobs), *final(jobs), *old(aliases), *final(aliases), r),
{
    let ghost p = atom@.pars;
    proof {
        reveal_strlit("alias");
        reveal_strlit("cd");
        reveal_strlit("jobs");
        reveal_strlit("fg");
        reveal_strlit("bg");
        reveal_strlit("exit");
        assert("cd"@[0] != "bg"@[0] && "cd"@[0] != "fg"@[0] && "fg"@[0] != "bg"@[0]);
        assert("exit"@[0] != "jobs"@[0]);
    }
    assert(p[0] == atom.pars@[0]@);
    let name = atom.pars[0].as_str();
    let n = atom.pars.len();
    if same_text(name, "cd") {
        if n == 2 {
            assert(p[1] == atom.pars@[1]@);
            return Effect::ChangeDir(atom.pars[1].clone());
        }
        let mut m = String::new();
        push_str(&mut m, "cd: 1 parameter expected, ");
        push_str(&mut m, decimal_string((n - 1) as u64).as_str());
        push_str(&mut m, " given");
        return Effect::Report(m);
    }
    if same_text(name, "bg") {
        return Effect::Done;
    }
    if same_text(name, "exit") {
        return Effect::Exit;
    }
    if same_text(name, "jobs") {
        let ls = jobs.listing();
        assert(forall|i: int| 0 <= i < ls@.len() ==> #[trigger] ls@[i]@ == Seq::new(
            jobs.jobs@.len(),
            |i: int| listing_text(jobs.jobs@[i].jid, jobs.jobs@[i].pid, jobs.jobs@[i].cmd@),
        )[i]);
        return Effect::Print(ls);
    }
    if same_text(name, "fg") {
        if n == 1 {
            let mut m = String::new();
            push_str(&mut m, "fg: no current job");
            return Effect::Report(m);
        }
        let arg = atom.pars[1].as_str();
        assert(p[1] == arg@);
        match parse_u32(arg) {
            Some(id) => {
                let ghost j0 = *jobs;
                match jobs.remove(id) {
                    Some(job) => {
                        return Effect::Resume(job);
                    },
                    None => {
                        assert(!has_job(j0, id));
                    },
                }
            },
            None => {},
        }
        let mut m = String::new();
        push_str(&mut m, "fg: job not found: ");
        push_str(&mut m, arg);
        let mut ls: Vec<String> = Vec::new();
        ls.push(m);
        assert(ls@[0]@ == job_not_found_text(p[1]));
        return Effect::Print(ls);
    }
    // alias
    if n == 1 {
        let ls = aliases.listing();
        let ghost a0 = aliases.view();
        assert(forall|i: int| 0 <= i < ls@.len() ==> #[trigger] ls@[i]@ == Seq::new(
            a0.len(),
            |i: int| alias_text(a0[i].0, a0[i].1),
        )[i]);
        return Effect::Print(ls);
    }
    if n != 2 {
        let mut m = String::new();
        push_str(&mut m, "alias: 0 or 1 argument required, ");
        push_str(&mut m, decimal_string((n - 1) as u64).as_str());
        push_str(&mut m, " received");
        return Effect::Report(m);
    }
    let arg = atom.pars[1].as_str();
    assert(p[1] == arg@);
    let parts = split_text(arg, '=');
    let ghost pv = parts@.map_values(|s: String| s@);
    if parts.len() == 1 {
        let mut ls: Vec<String> = Vec::new();
        match aliases.get(arg) {
            Some(v) => {
                let mut line = atom.pars[1].clone();
                push_str(&mut line, "=");
                push_str(&mut line, v.as_str());
                ls.push(line);
            },
            None => {},
        }
        return Effect::Print(ls);
    }
    if parts.len() == 2 {
        assert(pv[0] == parts@[0]@ && pv[1] == parts@[1]@);
        aliases.set(parts[0].clone(), parts[1].clone());
        return Effect::Done;
    }
    let mut m = String::new();
    push_str(&mut m, "alias: more than one equal operator is detected");
    Effect::Report(m)
}

// ----- alias resolution -----

proof fn lemma_value_of_is_entry(es: Seq<(Seq<char>, Seq<char>)>, name: Seq<char>)
    ensures
        value_of(es, name) matches Some(v) ==> exists|i: int|
            0 <= i < es.len() && #[trigger] es[i].1 == v,
    decreases es.len(),
{
    if es.len() > 0 && es.last().0 != name {
        lemma_value_of_is_entry(es.drop_last(), name);
        if value_of(es, name) is Some {
            let i = choose|i: int|
                0 <= i < es.drop_last().len() && #[trigger] es.drop_last()[i].1 == value_of(
                    es,
                    name,
                )->Some_0;
            assert(es[i] == es.drop_last()[i]);
        }
    } else if es.len() > 0 {
        assert(es[es.len() - 1].1 == es.last().1);
    }
}

/// The words of a command after alias resolution: when its first word is
/// an alias, the words of the alias's value (its substitutions run) followed
/// by the other words; else the words as they are.
pub open spec fn resolved_words(
    aliases: Seq<(Seq<char>, Seq<char>)>,
    pars: Seq<Seq<char>>,
    r: Seq<Seq<char>>,
) -> bool {
    match value_of(aliases, pars[0]) {
        None => r == pars,
        Some(v) => lex(v) matches Ok(ls) && exists|ws: Seq<Seq<char>>|
            ws.len() == ls.len() && (forall|i: int|
                0 <= i < ls.len() ==> expands_to(ls[i], TokV::Word(#[trigger] ws[i]))) && r == ws
                + pars.drop_first(),
    }
}

/// Resolves the first word of a command through the alias table, one level
/// deep. An alias whose value is not one or more words is reported, and the
/// command is not run. The error of each substitution that could not run is
/// added to `notes`.
pub fn resolve(atom: Atom, aliases: &Aliases, notes: &mut Vec<String>) -> (r: Result<Atom, String>)
    requires
        atom@.pars.len() >= 1,
    ensures
        noted(old(notes)@, final(notes)@),
        resolve_post(aliases.view(), atom@, r),
{
    let ghost p = atom@.pars;
    assert(p[0] == atom.pars@[0]@);
    assert(notes@.subrange(0, notes@.len() as int) =~= notes@);
    let v = match aliases.get(atom.pars[0].as_str()) {
        None => {
            return Ok(atom);
        },
        Some(v) => v,
    };
    if !is_alias_value(v.as_str()) {
        let mut m = String::new();
        push_str(&mut m, "alias: ");
        push_str(&mut m, atom.pars[0].as_str());
        push_str(&mut m, " does not stand for a command: ");
        push_str(&mut m, v.as_str());
        return Err(m);
    }
    let ls = match lex_line(v.as_str()) {
        Ok(ls) => ls,
        Err(_) => {
            return Ok(atom);
        },
    };
    let ghost lv = ls@.map_values(|l: Lexeme| l@);
    assert(lv.len() >= 1 && forall|i: int| 0 <= i < lv.len() ==> #[trigger] lv[i] is Word);
    let toks = expand(ls, notes);
    let mut pars: Vec<String> = Vec::new();
    let mut i: usize = 0;
    while i < toks.len()
        invariant
            i <= toks.len(),
            toks@.len() == lv.len(),
            forall|k: int| 0 <= k < lv.len() ==> expands_to(lv[k], #[trigger] toks@[k]@),
            forall|k: int| 0 <= k < lv.len() ==> #[trigger] lv[k] is Word,
            pars@.len() == i,
            forall|k: int| 0 <= k < i ==> toks@[k]@ == TokV::Word(#[trigger] pars@[k]@),
        decreases toks.len() - i,
    {
        assert(expands_to(lv[i as int], toks@[i as int]@));
        match &toks[i] {
            Tok::Word(w) => {
                pars.push(w.clone());
            },
            Tok::Op(_) => {
                assert(false);
            },
        }
        i = i + 1;
    }
    let ghost ws = pars@.map_values(|s: String| s@);
    assert(forall|k: int| 0 <= k < lv.len() ==> expands_to(lv[k], TokV::Word(#[trigger] ws[k]))) by {
        assert(forall|k: int| 0 <= k < lv.len() ==> toks@[k]@ == TokV::Word(#[trigger] ws[k]));
    }
    let mut k: usize = 1;
    while k < atom.pars.len()
        invariant
            1 <= k <= atom.pars.len(),
            pars@.map_values(|s: String| s@) == ws + p.subrange(1, k as int),
            p == atom@.pars,
        decreases atom.pars.len() - k,
    {
        let ghost before = pars@.map_values(|s: String| s@);
        pars.push(atom.pars[k].clone());
        assert(pars@.map_values(|s: String| s@) =~= before.push(p[k as int]));
        assert(ws + p.subrange(1, k + 1) =~= (ws + p.subrange(1, k as int)).push(p[k as int]));
        k = k + 1;
    }
    assert(p.subrange(1, p.len() as int) =~= p.drop_first());
    Ok(Atom { pars, src: atom.src, dest: atom.dest })
}

/// What resolving `atom` through the aliases gives: the command as it is
/// when its first word is no alias; the command with resolved words, same
/// redirections, when the alias's value is one or more words; else the
/// report that the alias does not stand for a command.
pub open spec fn resolve_post(
    aliases: Seq<(Seq<char>, Seq<char>)>,
    atom: AtomV,
    r: Result<Atom, String>,
) -> bool {
    match value_of(aliases, atom.pars[0]) {
        None => r matches Ok(a) && a@ == atom,
        Some(v) => if alias_words(v) {
            r matches Ok(a) && a@.src == atom.src && a@.dest == atom.dest && a@.pars.len() >= 1
                && resolved_words(aliases, atom.pars, a@.pars)
        } else {
            r matches Err(m) && m@ == alias_value_text(atom.pars[0], v)
        },
    }
}

/// What became of one command of a pipeline.
pub enum Dispatched {
    /// It had no words.
    Skipped,
    /// It was a builtin command (or an alias that stands for no command):
    /// this is left to do.
    Effect(Effect),
    /// It is to run as a process, with these resolved words.
    Command(Atom),
}

/// What dispatching `atom` does, from tables `j0`, `a0` to `j1`, `a1`: a
/// command without words is skipped; a resolved builtin runs as
/// [`builtin_post`] says; any other resolved command is kept to run; the
/// tables change only through a builtin.
pub open spec fn dispatch_post(
    atom: AtomV,
    j0: Jobs,
    a0: Aliases,
    j1: Jobs,
    a1: Aliases,
    d: Dispatched,
) -> bool {
    if atom.pars.len() == 0 {
        d is Skipped && j1 == j0 && a1 == a0
    } else {
        match value_of(a0.view(), atom.pars[0]) {
            Some(v) if !alias_words(v) => j1 == j0 && a1 == a0 && (d matches Dispatched::Effect(
                Effect::Report(m),
            ) && m@ == alias_value_text(atom.pars[0], v)),
            _ => exists|pars: Seq<Seq<char>>|
                #![trigger resolved_words(a0.view(), atom.pars, pars)]
                pars.len() >= 1 && (value_of(a0.view(), atom.pars[0]) is None ==> pars
                    == atom.pars) && resolved_words(a0.view(), atom.pars, pars) && if is_builtin_name(
                    pars[0],
                ) {
                    d matches Dispatched::Effect(e) && builtin_post(pars, j0, j1, a0, a1, e)
                } else {
                    j1 == j0 && a1 == a0 && (d matches Dispatched::Command(c) && c@ == (AtomV {
                        pars,
                        src: atom.src,
                        dest: atom.dest,
                    }))
                },
        }
    }
}

/// Resolves one command; runs it on the tables if it is a builtin, else
/// keeps it to run, as [`dispatch_post`] says.
pub fn dispatch_one(atom: Atom, jobs: &mut Jobs, aliases: &mut Aliases, notes: &mut Vec<String>) -> (r: Dispatched)
    requires
        old(jobs).wf(),
        old(aliases).wf(),
    ensures
        final(jobs).wf(),
        final(aliases).wf(),
        noted(old(notes)@, final(notes)@),
        dispatch_post(atom@, *old(jobs), *old(aliases), *final(jobs), *final(aliases), r),
{
    if atom.pars.len() == 0 {
        assert(notes@.subrange(0, notes@.len() as int) =~= notes@);
        return Dispatched::Skipped;
    }
    let ghost av = atom@;
    let a = match resolve(atom, aliases, notes) {
        Ok(a) => a,
        Err(m) => {
            return Dispatched::Effect(Effect::Report(m));
        },
    };
    let ghost pars = a@.pars;
    let ghost a0 = *aliases;
    let ghost j0 = *jobs;
    assert(resolved_words(a0.view(), av.pars, pars));
    assert(pars.len() >= 1);
    assert(value_of(a0.view(), av.pars[0]) is None ==> pars == av.pars);
    assert(pars[0] == a.pars@[0]@);
    if is_builtin(a.pars[0].as_str()) {
        let e = builtin(&a, jobs, aliases);
        let r = Dispatched::Effect(e);
        assert(builtin_post(pars, j0, *jobs, a0, *aliases, e));
        r
    } else {
        let r = Dispatched::Command(a);
        assert(a@ == (AtomV { pars, src: av.src, dest: av.dest }));
        r
    }
}

/// Dispatches the commands of a pipeline in order, each on the tables as the
/// ones before it left them, as [`dispatch_post`] says.
pub fn dispatch(atoms: Vec<Atom>, jobs: &mut Jobs, aliases: &mut Aliases, notes: &mut Vec<String>) -> (r: Vec<Dispatched>)
    requires
        old(jobs).wf(),
        old(aliases).wf(),
    ensures
        final(jobs).wf(),
        final(aliases).wf(),
        noted(old(notes)@, final(notes)@),
        r@.len() == atoms@.len(),
        exists|js: Seq<Jobs>, als: Seq<Aliases>|
            js.len() == atoms@.len() + 1 && als.len() == atoms@.len() + 1 && js[0] == *old(jobs)
                && als[0] == *old(aliases) && js.last() == *final(jobs) && als.last()
                == *final(aliases) && forall|i: int|
                0 <= i < atoms@.len() ==> dispatch_post(
                    atoms@[i]@,
                    js[i],
                    als[i],
                    js[i + 1],
                    als[i + 1],
                    #[trigger] r@[i],
                ),
{
    let ghost orig = atoms@;
    let mut r: Vec<Dispatched> = Vec::new();
    let mut rest = atoms;
    let ghost mut js: Seq<Jobs> = seq![*jobs];
    let ghost mut als: Seq<Aliases> = seq![*aliases];
    assert(notes@.subrange(0, notes@.len() as int) =~= notes@);
    while rest.len() > 0
        invariant
            jobs.wf(),
            aliases.wf(),
            noted(old(notes)@, notes@),
            r@.len() + rest@.len() == orig.len(),
            rest@ == orig.subrange(r@.len() as int, orig.len() as int),
            js.len() == r@.len() + 1,
            als.len() == r@.len() + 1,
            js[0] == *old(jobs),
            als[0] == *old(aliases),
            js.last() == *jobs,
            als.last() == *aliases,
            forall|i: int|
                0 <= i < r@.len() ==> dispatch_post(
                    orig[i]@,
                    js[i],
                    als[i],
                    js[i + 1],
                    als[i + 1],
                    #[trigger] r@[i],
                ),
        decreases rest@.len(),
    {
        let ghost k = r@.len() as int;
        let atom = rest.remove(0);
        assert(atom == orig[k]);
        assert(rest@ =~= orig.subrange(k + 1, orig.len() as int));
        let ghost n0 = notes@;
        let d = dispatch_one(atom, jobs, aliases, notes);
        proof {
            lemma_noted_trans(old(notes)@, n0, notes@);
            js = js.push(*jobs);
            als = als.push(*aliases);
        }
        r.push(d);
    }
    r
}

// ----- the order in which pipelines run -----

/// A pending right operand: once the left side has a status, `op` decides
/// whether `right` runs.
pub struct Frame {
    pub op: Op,
    pub right: AST,
}

/// Where the walk stands.
pub enum Control {
    /// This tree is to be evaluated next.
    Eval(AST),
    /// The last part evaluated ended with this status.
    Value(Status),
    /// A pipeline was handed out; its status is awaited.
    Waiting,
}

/// The mathematical value of a [`Control`].
pub enum ControlV {
    Eval(AstV),
    Value(Status),
    Waiting,
}

/// What the walk asks for next.
pub enum Step {
    /// Run this pipeline (in the background when the flag is set), then
    /// report its status.
    Run(Vec<Atom>, bool),
    /// The tree is done, with this status.
    Finished(Status),
}

/// The mathematical value of a [`Step`].
pub enum StepV {
    Run(Seq<AtomV>, bool),
    Finished(Status),
}

impl Step {
    pub open spec fn view(&self) -> StepV {
        match self {
            Step::Run(v, b) => StepV::Run(atoms_view(v@), *b),
            Step::Finished(s) => StepV::Finished(*s),
        }
    }
}

impl Control {
    pub open spec fn view(&self) -> ControlV {
        match self {
            Control::Eval(a) => ControlV::Eval(a.view()),
            Control::Value(s) => ControlV::Value(*s),
            Control::Waiting => ControlV::Waiting,
        }
    }
}

/// The walk of a tree: evaluates it from left to right, handing out one
/// pipeline at a time.
pub struct Walker {
    pub stack: Vec<Frame>,
    pub ctl: Control,
}

pub open spec fn frames_view(s: Seq<Frame>) -> Seq<(Op, AstV)> {
    s.map_values(|f: Frame| (f.op, f.right.view()))
}

pub open spec fn ast_size(a: AstV) -> nat
    decreases a,
{
    match a {
        AstV::BinOp(l, r, _) => ast_size(*l) + ast_size(*r) + 2,
        _ => 1,
    }
}

pub open spec fn stack_size(s: Seq<(Op, AstV)>) -> nat
    decreases s.len(),
{
    if s.len() == 0 {
        0
    } else {
        stack_size(s.drop_last()) + ast_size(s.last().1) + 1
    }
}

pub open spec fn ctl_size(c: ControlV) -> nat {
    match c {
        ControlV::Eval(a) => ast_size(a),
        _ => 0,
    }
}

/// Whether the right operand of `op` runs after a left side that ended with
/// `s`: after success for `&&`, after failure for `||`, always for `;`.
pub open spec fn continues(op: Op, s: Status) -> bool {
    match op {
        Op::AND => s.is_success(),
        Op::OR => !s.is_success(),
        Op::SEQ => true,
    }
}

/// The walk from stack `st` and control `c` up to the next pipeline to run,
/// or to the end: the new stack, the new control, and what is asked for.
/// A pipeline is handed out and awaited; `Empty` ends with success; a
/// binary node evaluates its left side first. A status pops the pending
/// right operand, which runs when [`continues`] says so; else the status
/// stands for the whole node. With nothing pending the status is the end.
pub open spec fn advance(st: Seq<(Op, AstV)>, c: ControlV) -> (Seq<(Op, AstV)>, ControlV, StepV)
    decreases stack_size(st) + ctl_size(c),
{
    match c {
        ControlV::Eval(a) => match a {
            AstV::Fg(atoms) => (st, ControlV::Waiting, StepV::Run(atoms, false)),
            AstV::Bg(atoms) => (st, ControlV::Waiting, StepV::Run(atoms, true)),
            AstV::Empty => advance(st, ControlV::Value(Status::Exited(0))),
            AstV::BinOp(l, r, op) => {
                proof {
                    assert(st.push((op, *r)).drop_last() =~= st);
                }
                advance(st.push((op, *r)), ControlV::Eval(*l))
            },
        },
        ControlV::Value(s) => if st.len() == 0 {
            (st, ControlV::Value(s), StepV::Finished(s))
        } else {
            let (op, r) = st.last();
            if continues(op, s) {
                advance(st.drop_last(), ControlV::Eval(r))
            } else {
                advance(st.drop_last(), ControlV::Value(s))
            }
        },
        ControlV::Waiting => (st, ControlV::Waiting, StepV::Finished(Status::Undetermined)),
    }
}

impl Walker {
    /// The pending right operands, innermost last, and the control.
    pub open spec fn view(&self) -> (Seq<(Op, AstV)>, ControlV) {
        (frames_view(self.stack@), self.ctl.view())
    }

    /// A walk about to evaluate `ast`.
    pub fn new(ast: AST) -> (r: Walker)
        ensures
            r.view() == (Seq::<(Op, AstV)>::empty(), ControlV::Eval(ast.view())),
    {
        let r = Walker { stack: Vec::new(), ctl: Control::Eval(ast) };
        assert(frames_view(r.stack@) =~= Seq::<(Op, AstV)>::empty());
        r
    }

    /// Walks on to the next pipeline to run, or to the end, as [`advance`]
    /// says.
    pub fn next(&mut self) -> (r: Step)
        requires
            !(old(self).ctl is Waiting),
        ensures
            (final(self).view().0, final(self).view().1, r.view()) == advance(
                old(self).view().0,
                old(self).view().1,
            ),
    {
        loop
            invariant
                !(self.ctl is Waiting),
                advance(old(self).view().0, old(self).view().1) == advance(
                    self.view().0,
                    self.view().1,
                ),
            decreases stack_size(self.view().0) + ctl_size(self.view().1),
        {
            let mut c = Control::Waiting;
            std::mem::swap(&mut c, &mut self.ctl);
            let ghost st = self.view().0;
            match c {
                Control::Eval(a) => match a {
                    AST::Fg(atoms) => {
                        return Step::Run(atoms, false);
                    },
                    AST::Bg(atoms) => {
                        return Step::Run(atoms, true);
                    },
                    AST::Empty => {
                        self.ctl = Control::Value(Status::Exited(0));
                    },
                    AST::BinOp(l, r, op) => {
                        let ghost rv = (*r).view();
                        self.stack.push(Frame { op, right: *r });
                        assert(self.view().0 =~= st.push((op, rv)));
                        assert(self.view().0.drop_last() =~= st);
                        self.ctl = Control::Eval(*l);
                    },
                },
                Control::Value(s) => {
                    if self.stack.len() == 0 {
                        self.ctl = Control::Value(s);
                        return Step::Finished(s);
                    }
                    let f = self.stack.pop().unwrap();
                    assert(self.view().0 =~= st.drop_last());
                    let go = match f.op {
                        Op::AND => s.success(),
                        Op::OR => !s.success(),
                        Op::SEQ => true,
                    };
                    if go {
                        self.ctl = Control::Eval(f.right);
                    } else {
                        self.ctl = Control::Value(s);
                    }
                },
                Control::Waiting => {
                    assert(false);
                    return Step::Finished(Status::Undetermined);
                },
            }
        }
    }

    /// Hands the walk the status of the pipeline it asked for.
    pub fn report(&mut self, st: Status)
        requires
            old(self).ctl is Waiting,
        ensures
            final(self).view() == (old(self).view().0, ControlV::Value(st)),
    {
        self.ctl = Control::Value(st);
    }
}

/// `a && b`: `a` runs first; when it fails the walk ends with its status
/// and `b` never runs; when it succeeds `b` runs next.
pub proof fn lemma_and_runs_right_only_after_success(a: Seq<AtomV>, b: Seq<AtomV>, s: Status)
    ensures
        ({
            let t = AstV::BinOp(Box::new(AstV::Fg(a)), Box::new(AstV::Fg(b)), Op::AND);
            let (st1, c1, r1) = advance(seq![], ControlV::Eval(t));
            &&& r1 == StepV::Run(a, false)
            &&& c1 == ControlV::Waiting
            &&& !s.is_success() ==> advance(st1, ControlV::Value(s)).2 == StepV::Finished(s)
            &&& s.is_success() ==> advance(st1, ControlV::Value(s)).2 == StepV::Run(b, false)
        }),
{
    let t = AstV::BinOp(Box::new(AstV::Fg(a)), Box::new(AstV::Fg(b)), Op::AND);
    let e = Seq::<(Op, AstV)>::empty();
    let st1 = e.push((Op::AND, AstV::Fg(b)));
    assert(advance(e, ControlV::Eval(t)) == advance(st1, ControlV::Eval(AstV::Fg(a))));
    assert(advance(st1, ControlV::Eval(AstV::Fg(a))) == (
        st1,
        ControlV::Waiting,
        StepV::Run(a, false),
    ));
    assert(st1.drop_last() =~= e);
    assert(st1.last() == (Op::AND, AstV::Fg(b)));
    assert(advance(e, ControlV::Eval(AstV::Fg(b))) == (e, ControlV::Waiting, StepV::Run(b, false)));
    assert(advance(e, ControlV::Value(s)) == (e, ControlV::Value(s), StepV::Finished(s)));
}

/// `a || b`: `a` runs first; when it succeeds the walk ends with its status
/// and `b` never runs; when it fails `b` runs next.
pub proof fn lemma_or_runs_right_only_after_failure(a: Seq<AtomV>, b: Seq<AtomV>, s: Status)
    ensures
        ({
            let t = AstV::BinOp(Box::new(AstV::Fg(a)), Box::new(AstV::Fg(b)), Op::OR);
            let (st1, c1, r1) = advance(seq![], ControlV::Eval(t));
            &&& r1 == StepV::Run(a, false)
            &&& c1 == ControlV::Waiting
            &&& s.is_success() ==> advance(st1, ControlV::Value(s)).2 == StepV::Finished(s)
            &&& !s.is_success() ==> advance(st1, ControlV::Value(s)).2 == StepV::Run(b, false)
        }),
{
    let t = AstV::BinOp(Box::new(AstV::Fg(a)), Box::new(AstV::Fg(b)), Op::OR);
    let e = Seq::<(Op, AstV)>::empty();
    let st1 = e.push((Op::OR, AstV::Fg(b)));
    assert(advance(e, ControlV::Eval(t)) == advance(st1, ControlV::Eval(AstV::Fg(a))));
    assert(advance(st1, ControlV::Eval(AstV::Fg(a))) == (
        st1,
        ControlV::Waiting,
        StepV::Run(a, false),
    ));
    assert(st1.drop_last() =~= e);
    assert(st1.last() == (Op::OR, AstV::Fg(b)));
    assert(advance(e, ControlV::Eval(AstV::Fg(b))) == (e, ControlV::Waiting, StepV::Run(b, false)));
    assert(advance(e, ControlV::Value(s)) == (e, ControlV::Value(s), StepV::Finished(s)));
}

/// `a ; b`: `a` runs, then `b` runs whatever the status of `a`, and the
/// walk ends with the status of `b`.
pub proof fn lemma_seq_runs_both(a: Seq<AtomV>, b: Seq<AtomV>, s: Status, s2: Status)
    ensures
        ({
            let t = AstV::BinOp(Box::new(AstV::Fg(a)), Box::new(AstV::Fg(b)), Op::SEQ);
            let (st1, c1, r1) = advance(seq![], ControlV::Eval(t));
            let (st2, c2, r2) = advance(st1, ControlV::Value(s));
            &&& r1 == StepV::Run(a, false)
            &&& c1 == ControlV::Waiting
            &&& r2 == StepV::Run(b, false)
            &&& c2 == ControlV::Waiting
            &&& advance(st2, ControlV::Value(s2)).2 == StepV::Finished(s2)
        }),
{
    let t = AstV::BinOp(Box::new(AstV::Fg(a)), Box::new(AstV::Fg(b)), Op::SEQ);
    let e = Seq::<(Op, AstV)>::empty();
    let st1 = e.push((Op::SEQ, AstV::Fg(b)));
    assert(advance(e, ControlV::Eval(t)) == advance(st1, ControlV::Eval(AstV::Fg(a))));
    assert(advance(st1, ControlV::Eval(AstV::Fg(a))) == (
        st1,
        ControlV::Waiting,
        StepV::Run(a, false),
    ));
    assert(st1.drop_last() =~= e);
    assert(st1.last() == (Op::SEQ, AstV::Fg(b)));
    assert(advance(e, ControlV::Eval(AstV::Fg(b))) == (e, ControlV::Waiting, StepV::Run(b, false)));
    assert(advance(e, ControlV::Value(s)) == (e, ControlV::Value(s), StepV::Finished(s)));
    assert(advance(e, ControlV::Value(s2)) == (e, ControlV::Value(s2), StepV::Finished(s2)));
}

/// The walk from stack `st` and control `c` when each pipeline it asks
/// for ends with the next status of `outs`: the pipelines it asks for, in
/// order, and the status it ends with (none when `outs` runs out first).
pub open spec fn replay(st: Seq<(Op, AstV)>, c: ControlV, outs: Seq<Status>) -> (
    Seq<StepV>,
    Option<Status>,
)
    decreases outs.len(),
{
    let (st1, c1, step) = advance(st, c);
    match step {
        StepV::Finished(s) => (seq![], Some(s)),
        StepV::Run(_, _) => if outs.len() == 0 {
            (seq![step], None)
        } else {
            let (rest, fin) = replay(st1, ControlV::Value(outs[0]), outs.drop_first());
            (seq![step] + rest, fin)
        },
    }
}

proof fn lemma_stack_push(st: Seq<(Op, AstV)>, x: (Op, AstV))
    ensures
        stack_size(st.push(x)) == stack_size(st) + ast_size(x.1) + 1,
{
    assert(st.push(x).drop_last() =~= st);
}

/// Pending operands below the stack do not change the walk until the stack
/// is used up; then the walk goes on with them from the status reached.
proof fn lemma_advance_frame(base: Seq<(Op, AstV)>, st: Seq<(Op, AstV)>, c: ControlV)
    requires
        !(c is Waiting),
    ensures
        ({
            let (st1, c1, step) = advance(st, c);
            &&& step is Run ==> advance(base + st, c) == (base + st1, c1, step)
            &&& step matches StepV::Finished(s) ==> advance(base + st, c) == advance(
                base,
                ControlV::Value(s),
            )
        }),
    decreases stack_size(st) + ctl_size(c),
{
    match c {
        ControlV::Eval(a) => match a {
            AstV::Fg(_) => {},
            AstV::Bg(_) => {},
            AstV::Empty => {
                lemma_advance_frame(base, st, ControlV::Value(Status::Exited(0)));
            },
            AstV::BinOp(l, r, op) => {
                let x = (op, *r);
                lemma_stack_push(st, x);
                assert((base + st).push(x) =~= base + st.push(x));
                lemma_advance_frame(base, st.push(x), ControlV::Eval(*l));
            },
        },
        ControlV::Value(s) => {
            if st.len() == 0 {
                assert(base + st =~= base);
            } else {
                let (op, r) = st.last();
                assert((base + st).last() == st.last());
                assert((base + st).drop_last() =~= base + st.drop_last());
                assert(stack_size(st) == stack_size(st.drop_last()) + ast_size(r) + 1);
                if continues(op, s) {
                    lemma_advance_frame(base, st.drop_last(), ControlV::Eval(r));
                } else {
                    lemma_advance_frame(base, st.drop_last(), ControlV::Value(s));
                }
            }
        },
        ControlV::Waiting => {},
    }
}

/// A walk that ends, answered by `outs1`, does the same with pending
/// operands below it, and then goes on with them from its status.
proof fn lemma_replay_frame(
    base: Seq<(Op, AstV)>,
    st: Seq<(Op, AstV)>,
    c: ControlV,
    outs1: Seq<Status>,
    more: Seq<Status>,
    s: Status,
)
    requires
        !(c is Waiting),
        replay(st, c, outs1).1 == Some(s),
        replay(st, c, outs1).0.len() == outs1.len(),
    ensures
        replay(base + st, c, outs1 + more) == (
            replay(st, c, outs1).0 + replay(base, ControlV::Value(s), more).0,
            replay(base, ControlV::Value(s), more).1,
        ),
    decreases outs1.len(),
{
    lemma_advance_frame(base, st, c);
    let (st1, c1, step) = advance(st, c);
    match step {
        StepV::Finished(s2) => {
            assert(outs1 + more =~= more);
            assert(replay(st, c, outs1).0 + replay(base, ControlV::Value(s), more).0
                =~= replay(base, ControlV::Value(s), more).0);
        },
        StepV::Run(_, _) => {
            let all = outs1 + more;
            assert(all[0] == outs1[0]);
            assert(all.drop_first() =~= outs1.drop_first() + more);
            lemma_replay_frame(base, st1, ControlV::Value(outs1[0]), outs1.drop_first(), more, s);
            let r1 = replay(st1, ControlV::Value(outs1[0]), outs1.drop_first()).0;
            let r2 = replay(base, ControlV::Value(s), more).0;
            assert(seq![step] + (r1 + r2) =~= (seq![step] + r1) + r2);
        },
    }
}

/// `l && r`: when the walk of `l` ends in failure, that is the end, with
/// its status, and no pipeline of `r` is asked for; when it ends in success,
/// the walk of `r` follows. `outs_l` answers the pipelines of `l`, `more`
/// those after them.
pub proof fn lemma_and_general(
    l: AstV,
    r: AstV,
    outs_l: Seq<Status>,
    more: Seq<Status>,
    s: Status,
)
    requires
        replay(seq![], ControlV::Eval(l), outs_l).1 == Some(s),
        replay(seq![], ControlV::Eval(l), outs_l).0.len() == outs_l.len(),
    ensures
        ({
            let t = AstV::BinOp(Box::new(l), Box::new(r), Op::AND);
            let reqs = replay(seq![], ControlV::Eval(l), outs_l).0;
            let after = replay(seq![], ControlV::Eval(r), more);
            replay(seq![], ControlV::Eval(t), outs_l + more) == if s.is_success() {
                (reqs + after.0, after.1)
            } else {
                (reqs, Some(s))
            }
        }),
{
    lemma_binop_frame(l, r, Op::AND, outs_l, more, s);
}

/// `l || r`: when the walk of `l` ends in success, that is the end, with
/// its status, and no pipeline of `r` is asked for; when it ends in failure,
/// the walk of `r` follows.
pub proof fn lemma_or_general(
    l: AstV,
    r: AstV,
    outs_l: Seq<Status>,
    more: Seq<Status>,
    s: Status,
)
    requires
        replay(seq![], ControlV::Eval(l), outs_l).1 == Some(s),
        replay(seq![], ControlV::Eval(l), outs_l).0.len() == outs_l.len(),
    ensures
        ({
            let t = AstV::BinOp(Box::new(l), Box::new(r), Op::OR);
            let reqs = replay(seq![], ControlV::Eval(l), outs_l).0;
            let after = replay(seq![], ControlV::Eval(r), more);
            replay(seq![], ControlV::Eval(t), outs_l + more) == if !s.is_success() {
                (reqs + after.0, after.1)
            } else {
                (reqs, Some(s))
            }
        }),
{
    lemma_binop_frame(l, r, Op::OR, outs_l, more, s);
}

/// `l ; r`: the walk of `l` runs to its end, then the walk of `r` follows
/// whatever the status of `l`, and the line ends as `r` does.
pub proof fn lemma_seq_general(
    l: AstV,
    r: AstV,
    outs_l: Seq<Status>,
    more: Seq<Status>,
    s: Status,
)
    requires
        replay(seq![], ControlV::Eval(l), outs_l).1 == Some(s),
        replay(seq![], ControlV::Eval(l), outs_l).0.len() == outs_l.len(),
    ensures
        ({
            let t = AstV::BinOp(Box::new(l), Box::new(r), Op::SEQ);
            let reqs = replay(seq![], ControlV::Eval(l), outs_l).0;
            let after = replay(seq![], ControlV::Eval(r), more);
            replay(seq![], ControlV::Eval(t), outs_l + more) == (reqs + after.0, after.1)
        }),
{
    lemma_binop_frame(l, r, Op::SEQ, outs_l, more, s);
}

proof fn lemma_binop_frame(
    l: AstV,
    r: AstV,
    op: Op,
    outs_l: Seq<Status>,
    more: Seq<Status>,
    s: Status,
)
    requires
        replay(seq![], ControlV::Eval(l), outs_l).1 == Some(s),
        replay(seq![], ControlV::Eval(l), outs_l).0.len() == outs_l.len(),
    ensures
        ({
            let t = AstV::BinOp(Box::new(l), Box::new(r), op);
            let reqs = replay(seq![], ControlV::Eval(l), outs_l).0;
            let after = replay(seq![], ControlV::Eval(r), more);
            replay(seq![], ControlV::Eval(t), outs_l + more) == if continues(op, s) {
                (reqs + after.0, after.1)
            } else {
                (reqs, Some(s))
            }
        }),
{
    let e = Seq::<(Op, AstV)>::empty();
    let base = e.push((op, r));
    let t = AstV::BinOp(Box::new(l), Box::new(r), op);
    assert(advance(e, ControlV::Eval(t)) == advance(base, ControlV::Eval(l)));
    assert(replay(e, ControlV::Eval(t), outs_l + more) == replay(
        base,
        ControlV::Eval(l),
        outs_l + more,
    ));
    assert(base + e =~= base);
    lemma_replay_frame(base, e, ControlV::Eval(l), outs_l, more, s);
    assert(base.drop_last() =~= e);
    assert(base.last() == (op, r));
    if continues(op, s) {
        assert(advance(base, ControlV::Value(s)) == advance(e, ControlV::Eval(r)));
        assert(replay(base, ControlV::Value(s), more) == replay(e, ControlV::Eval(r), more));
    } else {
        assert(advance(base, ControlV::Value(s)) == advance(e, ControlV::Value(s)));
        assert(advance(e, ControlV::Value(s)) == (e, ControlV::Value(s), StepV::Finished(s)));
        let reqs = replay(e, ControlV::Eval(l), outs_l).0;
        assert(reqs + Seq::<StepV>::empty() =~= reqs);
    }
}

// ----- pipelines -----

/// Why a pipeline could not be run.
#[derive(Clone, Copy, Debug, PartialEq, Eq, Structural)]
pub enum Failure {
    /// A shared table could not be locked.
    Lock,
    /// A redirection file could not be opened or created.
    Redirect,
    /// The processes could not be started.
    Spawn,
}

/// The status that stands for a pipeline that could not be run.
pub open spec fn failure_status_of(f: Failure) -> Status {
    match f {
        Failure::Lock => Status::Exited(255),
        Failure::Redirect => Status::Exited(1),
        Failure::Spawn => Status::Exited(127),
    }
}

/// The status that stands for a pipeline that could not be run, as
/// [`failure_status_of`] says.
pub fn failure_status(f: Failure) -> (r: Status)
    ensures
        r == failure_status_of(f),
{
    match f {
        Failure::Lock => Status::Exited(255),
        Failure::Redirect => Status::Exited(1),
        Failure::Spawn => Status::Exited(127),
    }
}

/// The status of a pipeline from the statuses of its stages, in order: the
/// last stage's; success when nothing was run.
pub open spec fn pipeline_status_of(stages: Seq<Status>) -> Status {
    if stages.len() == 0 {
        Status::Exited(0)
    } else {
        stages.last()
    }
}

/// The status of a pipeline, as [`pipeline_status_of`] says; earlier
/// stages do not change it.
pub fn pipeline_status(stages: &Vec<Status>) -> (r: Status)
    ensures
        r == pipeline_status_of(stages@),
{
    if stages.len() == 0 {
        Status::Exited(0)
    } else {
        stages[stages.len() - 1]
    }
}

/// `[stage <k> exited with <status>]`: stage `k`, counted from 1, failed.
pub open spec fn stage_text(k: nat, st: Status) -> Seq<char> {
    "[stage "@ + decimal(k) + " exited with "@ + st.text() + "]"@
}

/// The diagnostics for the failed stages among the first `n`, in order.
pub open spec fn failed_stages(stages: Seq<Status>, n: int) -> Seq<Seq<char>>
    decreases n,
{
    if n <= 0 {
        seq![]
    } else {
        let rest = failed_stages(stages, n - 1);
        if stages[n - 1].is_success() {
            rest
        } else {
            rest.push(stage_text(n as nat, stages[n - 1]))
        }
    }
}

/// The diagnostics for the stages before the last that did not succeed;
/// they are reported, and do not change the pipeline's status.
pub fn stage_diagnostics(stages: &Vec<Status>) -> (r: Vec<String>)
    ensures
        r@.map_values(|l: String| l@) == failed_stages(stages@, stages@.len() - 1),
{
    let mut r: Vec<String> = Vec::new();
    let mut i: usize = 0;
    assert(r@.map_values(|l: String| l@) =~= failed_stages(stages@, 0));
    while i + 1 < stages.len()
        invariant
            i + 1 <= stages.len() || (i == 0 && stages.len() == 0),
            r@.map_values(|l: String| l@) == failed_stages(stages@, i as int),
        decreases stages.len() - i,
    {
        let st = stages[i];
        if !st.success() {
            let mut m = String::new();
            push_str(&mut m, "[stage ");
            push_str(&mut m, decimal_string((i + 1) as u64).as_str());
            push_str(&mut m, " exited with ");
            push_str(&mut m, st.describe().as_str());
            push_str(&mut m, "]");
            let ghost before = r@.map_values(|l: String| l@);
            r.push(m);
            assert(r@.map_values(|l: String| l@) =~= before.push(stage_text((i + 1) as nat, st)));
        }
        i = i + 1;
    }
    r
}

/// The words of a pipeline's commands, in order.
pub open spec fn all_words(atoms: Seq<AtomV>) -> Seq<Seq<char>>
    decreases atoms.len(),
{
    if atoms.len() == 0 {
        seq![]
    } else {
        all_words(atoms.drop_last()) + atoms.last().pars
    }
}

/// Words joined by single spaces.
pub open spec fn join_words(ws: Seq<Seq<char>>) -> Seq<char>
    decreases ws.len(),
{
    if ws.len() == 0 {
        seq![]
    } else if ws.len() == 1 {
        ws[0]
    } else {
        join_words(ws.drop_last()) + seq![' '] + ws.last()
    }
}

/// The command line shown for a background pipeline: the words of all its
/// commands joined by single spaces.
pub fn display_command(atoms: &Vec<Atom>) -> (r: String)
    ensures
        r@ == join_words(all_words(atoms_view(atoms@))),
{
    let mut ws: Vec<String> = Vec::new();
    let mut i: usize = 0;
    assert(atoms_view(atoms@).subrange(0, 0) =~= Seq::<AtomV>::empty());
    assert(ws@.map_values(|s: String| s@) =~= Seq::<Seq<char>>::empty());
    while i < atoms.len()
        invariant
            i <= atoms.len(),
            ws@.map_values(|s: String| s@) == all_words(atoms_view(atoms@).subrange(0, i as int)),
        decreases atoms.len() - i,
    {
        let ghost pre = ws@.map_values(|s: String| s@);
        let ghost p = atoms@[i as int]@.pars;
        let mut k: usize = 0;
        assert(pre + p.subrange(0, 0) =~= pre);
        while k < atoms[i].pars.len()
            invariant
                k <= atoms@[i as int].pars@.len(),
                p == atoms@[i as int]@.pars,
                i < atoms.len(),
                ws@.map_values(|s: String| s@) == pre + p.subrange(0, k as int),
            decreases atoms@[i as int].pars@.len() - k,
        {
            let ghost before = ws@.map_values(|s: String| s@);
            ws.push(atoms[i].pars[k].clone());
            assert(ws@.map_values(|s: String| s@) =~= before.push(p[k as int]));
            assert(pre + p.subrange(0, k + 1) =~= (pre + p.subrange(0, k as int)).push(p[k as int]));
            k = k + 1;
        }
        assert(p.subrange(0, p.len() as int) =~= p);
        assert(atoms_view(atoms@).subrange(0, i + 1).drop_last() =~= atoms_view(atoms@).subrange(0, i as int));
        i = i + 1;
    }
    assert(atoms_view(atoms@).subrange(0, atoms@.len() as int) =~= atoms_view(atoms@));
    let ghost wv = ws@.map_values(|s: String| s@);
    let mut r = String::new();
    let mut k: usize = 0;
    assert(wv.subrange(0, 0) =~= Seq::<Seq<char>>::empty());
    while k < ws.len()
        invariant
            k <= ws.len(),
            wv == ws@.map_values(|s: String| s@),
            r@ == join_words(wv.subrange(0, k as int)),
        decreases ws.len() - k,
    {
        assert(wv.subrange(0, k + 1).drop_last() =~= wv.subrange(0, k as int));
        if k > 0 {
            push_str(&mut r, " ");
            proof {
                reveal_strlit(" ");
            }
            assert(" "@ =~= seq![' ']);
        }
        push_str(&mut r, ws[k].as_str());
        if k == 0 {
            assert(r@ =~= wv[0]);
        }
        k = k + 1;
    }
    assert(wv.subrange(0, wv.len() as int) =~= wv);
    r
}

/// The diagnostic for a command line that did not succeed:
/// `[Process exited with <status>]`; none after success.
pub fn exit_report(st: Status) -> (r: Option<String>)
    ensures
        st.is_success() ==> r is None,
        !st.is_success() ==> (r matches Some(m) && m@ == "[Process exited with "@ + st.text()
            + "]"@),
{
    if st.success() {
        None
    } else {
        let mut m = String::new();
        push_str(&mut m, "[Process exited with ");
        push_str(&mut m, st.describe().as_str());
        push_str(&mut m, "]");
        Some(m)
    }
}

} // verus!
