use rsh::aliases::Aliases;
use rsh::job_manager::{Jobs, Status};
use rsh::parser::{parse_line, Atom, Op, AST};
use rsh::shell::{
    builtin, dispatch, display_command, exit_report, failure_status, is_builtin, pipeline_status,
    resolve, stage_diagnostics, Dispatched, Effect, Failure, Step, Walker,
};
use subprocess::Exec;

fn atom(words: &[&str]) -> Atom {
    Atom { pars: words.iter().map(|w| w.to_string()).collect(), src: None, dest: None }
}

fn printed(e: Effect) -> Vec<String> {
    match e {
        Effect::Print(ls) => ls,
        _ => panic!("expected lines to print"),
    }
}

fn reported(e: Effect) -> String {
    match e {
        Effect::Report(m) => m,
        _ => panic!("expected a report"),
    }
}

#[test]
fn builtin_names() {
    for n in ["alias", "cd", "jobs", "fg", "bg", "exit"] {
        assert!(is_builtin(n));
    }
    assert!(!is_builtin("ls"));
    assert!(!is_builtin("cdx"));
}

#[test]
fn alias_set_then_show_then_resolve() {
    let mut jobs = Jobs::new();
    let mut al = Aliases::new();
    let set = parse_line("alias ll='ls -l'", &mut Vec::new()).unwrap();
    let a = match set {
        AST::Fg(mut v) => v.remove(0),
        _ => panic!("expected one command"),
    };
    assert!(matches!(builtin(&a, &mut jobs, &mut al), Effect::Done));
    assert_eq!(printed(builtin(&atom(&["alias", "ll"]), &mut jobs, &mut al)), vec!["ll=ls -l"]);
    assert!(printed(builtin(&atom(&["alias", "zz"]), &mut jobs, &mut al)).is_empty());
    let mut notes = Vec::new();
    let r = resolve(atom(&["ll", "/tmp"]), &al, &mut notes).unwrap();
    assert_eq!(r.pars, vec!["ls", "-l", "/tmp"]);
    let plain = resolve(atom(&["ls"]), &al, &mut notes).unwrap();
    assert_eq!(plain.pars, vec!["ls"]);
    assert!(notes.is_empty());
}

#[test]
fn alias_listing_and_overwrite() {
    let mut jobs = Jobs::new();
    let mut al = Aliases::new();
    assert!(matches!(builtin(&atom(&["alias", "a=x"]), &mut jobs, &mut al), Effect::Done));
    assert!(matches!(builtin(&atom(&["alias", "b=y z"]), &mut jobs, &mut al), Effect::Done));
    assert!(matches!(builtin(&atom(&["alias", "a=w"]), &mut jobs, &mut al), Effect::Done));
    assert_eq!(printed(builtin(&atom(&["alias"]), &mut jobs, &mut al)), vec!["a=w", "b=y z"]);
}

#[test]
fn alias_errors() {
    let mut jobs = Jobs::new();
    let mut al = Aliases::new();
    assert_eq!(
        reported(builtin(&atom(&["alias", "a=b=c"]), &mut jobs, &mut al)),
        "alias: more than one equal operator is detected"
    );
    assert_eq!(
        reported(builtin(&atom(&["alias", "a", "b"]), &mut jobs, &mut al)),
        "alias: 0 or 1 argument required, 2 received"
    );
    assert!(printed(builtin(&atom(&["alias"]), &mut jobs, &mut al)).is_empty());
}

#[test]
fn alias_takes_any_value() {
    let mut jobs = Jobs::new();
    let mut al = Aliases::new();
    assert!(matches!(builtin(&atom(&["alias", "e="]), &mut jobs, &mut al), Effect::Done));
    assert!(matches!(builtin(&atom(&["alias", "p=a|b"]), &mut jobs, &mut al), Effect::Done));
    assert_eq!(printed(builtin(&atom(&["alias"]), &mut jobs, &mut al)), vec!["e=", "p=a|b"]);
    let mut notes = Vec::new();
    match resolve(atom(&["p", "x"]), &al, &mut notes) {
        Err(m) => assert_eq!(m, "alias: p does not stand for a command: a|b"),
        Ok(_) => panic!("expected a report"),
    }
    match resolve(atom(&["e"]), &al, &mut notes) {
        Err(m) => assert_eq!(m, "alias: e does not stand for a command: "),
        Ok(_) => panic!("expected a report"),
    }
    let d = dispatch(vec![atom(&["p"])], &mut jobs, &mut al, &mut notes);
    assert!(matches!(&d[0], Dispatched::Effect(Effect::Report(_))));
}

#[test]
fn cd_takes_one_argument() {
    let mut jobs = Jobs::new();
    let mut al = Aliases::new();
    match builtin(&atom(&["cd", "/tmp"]), &mut jobs, &mut al) {
        Effect::ChangeDir(p) => assert_eq!(p, "/tmp"),
        _ => panic!("expected a directory change"),
    }
    assert_eq!(reported(builtin(&atom(&["cd"]), &mut jobs, &mut al)), "cd: 1 parameter expected, 0 given");
    assert_eq!(reported(builtin(&atom(&["cd", "a", "b"]), &mut jobs, &mut al)), "cd: 1 parameter expected, 2 given");
}

#[test]
fn fg_unknown_job_waits_for_nothing() {
    let mut jobs = Jobs::new();
    let mut al = Aliases::new();
    assert_eq!(printed(builtin(&atom(&["fg", "99"]), &mut jobs, &mut al)), vec!["fg: job not found: 99"]);
    assert_eq!(printed(builtin(&atom(&["fg", "abc"]), &mut jobs, &mut al)), vec!["fg: job not found: abc"]);
    assert_eq!(reported(builtin(&atom(&["fg"]), &mut jobs, &mut al)), "fg: no current job");
    assert_eq!(jobs.cnt, 1);
}

#[test]
fn fg_takes_the_job_out() {
    let mut jobs = Jobs::new();
    let mut al = Aliases::new();
    let p = Exec::cmd("sleep").arg("5").detached().popen().unwrap();
    assert_eq!(jobs.push(p, "sleep 5".to_string()), Some(1));
    assert_eq!(printed(builtin(&atom(&["jobs"]), &mut jobs, &mut al)).len(), 1);
    match builtin(&atom(&["fg", "1"]), &mut jobs, &mut al) {
        Effect::Resume(mut j) => {
            assert_eq!(j.jid, 1);
            assert_eq!(j.cmd, "sleep 5");
            j.proc.kill().unwrap();
            j.proc.wait().unwrap();
        }
        _ => panic!("expected the job"),
    }
    assert!(jobs.jobs.is_empty());
    assert!(printed(builtin(&atom(&["jobs"]), &mut jobs, &mut al)).is_empty());
}

#[test]
fn bg_and_exit() {
    let mut jobs = Jobs::new();
    let mut al = Aliases::new();
    assert!(matches!(builtin(&atom(&["bg"]), &mut jobs, &mut al), Effect::Done));
    assert!(matches!(builtin(&atom(&["exit"]), &mut jobs, &mut al), Effect::Exit));
}

#[test]
fn dispatch_splits_builtins_from_commands() {
    let mut jobs = Jobs::new();
    let mut al = Aliases::new();
    let mut notes = Vec::new();
    let empty = Atom { pars: vec![], src: None, dest: None };
    let d = dispatch(
        vec![atom(&["alias", "l=ls -a"]), atom(&["l"]), empty, atom(&["wc"])],
        &mut jobs,
        &mut al,
        &mut notes,
    );
    assert_eq!(d.len(), 4);
    assert!(matches!(&d[0], Dispatched::Effect(Effect::Done)));
    match &d[1] {
        Dispatched::Command(a) => assert_eq!(a.pars, vec!["ls", "-a"]),
        _ => panic!("expected a command"),
    }
    assert!(matches!(&d[2], Dispatched::Skipped));
    match &d[3] {
        Dispatched::Command(a) => assert_eq!(a.pars, vec!["wc"]),
        _ => panic!("expected a command"),
    }
}

fn walk(ast: AST, statuses: &[Status]) -> (Vec<Vec<String>>, Status) {
    let mut w = Walker::new(ast);
    let mut ran = Vec::new();
    let mut k = 0;
    loop {
        match w.next() {
            Step::Run(atoms, _) => {
                ran.push(atoms[0].pars.clone());
                w.report(statuses[k]);
                k += 1;
            }
            Step::Finished(s) => return (ran, s),
        }
    }
}

fn line(a: &str, b: &str, op: Op) -> AST {
    AST::BinOp(Box::new(AST::Fg(vec![atom(&[a])])), Box::new(AST::Fg(vec![atom(&[b])])), op)
}

#[test]
fn and_skips_right_after_failure() {
    let (ran, s) = walk(line("a", "b", Op::AND), &[Status::Exited(1)]);
    assert_eq!(ran, vec![vec!["a".to_string()]]);
    assert_eq!(s, Status::Exited(1));
    let (ran, s) = walk(line("a", "b", Op::AND), &[Status::Exited(0), Status::Exited(3)]);
    assert_eq!(ran.len(), 2);
    assert_eq!(s, Status::Exited(3));
}

#[test]
fn or_skips_right_after_success() {
    let (ran, s) = walk(line("a", "b", Op::OR), &[Status::Exited(0)]);
    assert_eq!(ran, vec![vec!["a".to_string()]]);
    assert_eq!(s, Status::Exited(0));
    let (ran, _) = walk(line("a", "b", Op::OR), &[Status::Exited(1), Status::Exited(0)]);
    assert_eq!(ran.len(), 2);
}

#[test]
fn seq_runs_both() {
    let (ran, s) = walk(line("a", "b", Op::SEQ), &[Status::Exited(1), Status::Exited(0)]);
    assert_eq!(ran, vec![vec!["a".to_string()], vec!["b".to_string()]]);
    assert_eq!(s, Status::Exited(0));
}

#[test]
fn walk_of_parsed_line() {
    let ast = parse_line("false && x || y ; z", &mut Vec::new()).unwrap();
    let (ran, s) = walk(ast, &[Status::Exited(1), Status::Exited(0), Status::Exited(4)]);
    assert_eq!(ran, vec![vec!["false".to_string()], vec!["y".to_string()], vec!["z".to_string()]]);
    assert_eq!(s, Status::Exited(4));
    let (ran, s) = walk(AST::Empty, &[]);
    assert!(ran.is_empty());
    assert_eq!(s, Status::Exited(0));
}

#[test]
fn pipeline_status_is_last_stage() {
    assert_eq!(pipeline_status(&vec![Status::Exited(1), Status::Exited(0)]), Status::Exited(0));
    assert_eq!(pipeline_status(&vec![Status::Exited(0), Status::Exited(2), Status::Signaled(9)]), Status::Signaled(9));
    assert_eq!(pipeline_status(&vec![]), Status::Exited(0));
}

#[test]
fn background_command_line() {
    assert_eq!(display_command(&vec![atom(&["sleep", "1"])]), "sleep 1");
    assert_eq!(display_command(&vec![atom(&["sleep", "1"]), atom(&["cat"])]), "sleep 1 cat");
}

#[test]
fn exit_report_after_failure_only() {
    assert_eq!(exit_report(Status::Exited(0)), None);
    assert_eq!(exit_report(Status::Exited(2)), Some("[Process exited with Exited(2)]".to_string()));
}

#[test]
fn earlier_failed_stages_are_reported() {
    let st = vec![Status::Exited(1), Status::Exited(0), Status::Signaled(9), Status::Exited(2)];
    assert_eq!(
        stage_diagnostics(&st),
        vec!["[stage 1 exited with Exited(1)]", "[stage 3 exited with Signaled(9)]"]
    );
    assert_eq!(pipeline_status(&st), Status::Exited(2));
    assert!(stage_diagnostics(&vec![]).is_empty());
    assert!(stage_diagnostics(&vec![Status::Exited(5)]).is_empty());
}

#[test]
fn failure_statuses() {
    assert_eq!(failure_status(Failure::Redirect), Status::Exited(1));
    assert_eq!(failure_status(Failure::Spawn), Status::Exited(127));
    assert_eq!(failure_status(Failure::Lock), Status::Exited(255));
}
