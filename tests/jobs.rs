use rsh::job_manager::{finished_line, listing_line, reaped_line, resume_line, spawn_line, Jobs, Status};
use subprocess::{Exec, Popen};

fn start(prog: &str, arg: &str) -> Popen {
    Exec::cmd(prog).arg(arg).detached().popen().unwrap()
}

#[test]
fn status_texts() {
    assert_eq!(Status::Exited(0).describe(), "Exited(0)");
    assert_eq!(Status::Signaled(9).describe(), "Signaled(9)");
    assert_eq!(Status::Other(-3).describe(), "Other(-3)");
    assert_eq!(Status::Undetermined.describe(), "Undetermined");
    assert!(Status::Exited(0).success());
    assert!(!Status::Exited(1).success());
    assert!(!Status::Signaled(0).success());
}

#[test]
fn line_formats() {
    assert_eq!(spawn_line(1, 4242, "sleep 1"), "[1] 4242 sleep 1");
    assert_eq!(listing_line(2, 77, "cat"), "[2] (77) cat");
    assert_eq!(reaped_line(3, 12, Status::Exited(0), "true"), "[3] (12) Exited(0) true");
    assert_eq!(resume_line(1, 5, "sleep 9"), "[1] 5 running sleep 9");
    assert_eq!(finished_line(1, 5, Status::Signaled(2), "sleep 9"), "[1] 5 Signaled(2) sleep 9");
}

#[test]
fn first_job_gets_id_one() {
    let mut jobs = Jobs::new();
    let p = start("sleep", "1");
    let pid = p.pid().unwrap();
    assert_eq!(jobs.push(p, "sleep 1".to_string()), Some(1));
    assert_eq!(jobs.listing(), vec![format!("[1] ({}) sleep 1", pid)]);
    assert_eq!(spawn_line(jobs.jobs[0].jid, jobs.jobs[0].pid, &jobs.jobs[0].cmd), format!("[1] {} sleep 1", pid));
    let mut j = jobs.remove(1).unwrap();
    j.proc.kill().unwrap();
    j.proc.wait().unwrap();
}

#[test]
fn ids_are_never_reused() {
    let mut jobs = Jobs::new();
    assert_eq!(jobs.push(start("sleep", "5"), "a".to_string()), Some(1));
    assert_eq!(jobs.push(start("sleep", "5"), "b".to_string()), Some(2));
    assert_eq!(jobs.push(start("sleep", "5"), "c".to_string()), Some(3));
    let mut second = jobs.remove(2).unwrap();
    assert_eq!(second.cmd, "b");
    assert!(jobs.remove(2).is_none());
    assert_eq!(jobs.push(start("sleep", "5"), "d".to_string()), Some(4));
    let ids: Vec<u32> = jobs.jobs.iter().map(|j| j.jid).collect();
    assert_eq!(ids, vec![1, 3, 4]);
    second.proc.kill().unwrap();
    second.proc.wait().unwrap();
    for j in jobs.jobs.iter_mut() {
        j.proc.kill().unwrap();
        j.proc.wait().unwrap();
    }
}

#[test]
fn refresh_reaps_ended_jobs() {
    let mut jobs = Jobs::new();
    let quick = start("true", "x");
    let pid = quick.pid().unwrap();
    assert_eq!(jobs.push(quick, "true x".to_string()), Some(1));
    assert_eq!(jobs.push(start("sleep", "5"), "sleep 5".to_string()), Some(2));
    let mut lines = Vec::new();
    for _ in 0..200000 {
        lines = jobs.refresh();
        if !lines.is_empty() {
            break;
        }
    }
    assert_eq!(lines, vec![format!("[1] ({}) Exited(0) true x", pid)]);
    assert_eq!(jobs.jobs.len(), 1);
    assert_eq!(jobs.jobs[0].jid, 2);
    assert!(jobs.refresh().is_empty());
    let mut j = jobs.remove(2).unwrap();
    j.proc.kill().unwrap();
    j.proc.wait().unwrap();
}

#[test]
fn register_records_the_given_pid() {
    let mut jobs = Jobs::new();
    let mut p = start("sleep", "5");
    let pid = p.pid().unwrap();
    p.kill().unwrap();
    p.wait().unwrap();
    let q = start("sleep", "5");
    assert_eq!(jobs.register(p, None, "x".to_string()), None);
    assert_eq!(jobs.cnt, 1);
    assert_eq!(jobs.register(q, Some(pid), "sleep 5".to_string()), Some(1));
    assert_eq!(jobs.cnt, 2);
    assert_eq!(jobs.jobs[0].pid, pid);
    let mut j = jobs.remove(1).unwrap();
    j.proc.kill().unwrap();
    j.proc.wait().unwrap();
}

#[test]
fn prune_takes_out_ended_jobs_in_order() {
    let mut jobs = Jobs::new();
    for c in ["a", "b", "c"] {
        let mut p = start("true", "x");
        p.wait().unwrap();
        assert!(jobs.register(p, Some(100), c.to_string()).is_some());
    }
    let lines = jobs.prune(&vec![Some(Status::Exited(0)), None, Some(Status::Signaled(9))]);
    assert_eq!(lines, vec!["[1] (100) Exited(0) a", "[3] (100) Signaled(9) c"]);
    let ids: Vec<u32> = jobs.jobs.iter().map(|j| j.jid).collect();
    assert_eq!(ids, vec![2]);
    assert_eq!(jobs.cnt, 4);
}
