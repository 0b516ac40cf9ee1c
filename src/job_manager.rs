//! The table of background jobs, and the exit status of a process.
use crate::text::{decimal, decimal_string, push_str, signed_decimal, signed_decimal_string};
use subprocess::{ExitStatus, Popen};
use vstd::prelude::*;

verus! {

#[verifier::external_type_specification]
#[verifier::external_body]
pub struct ExPopen(Popen);

/// Relies on `subprocess::Popen::pid`: it returns the pid recorded for a
/// running child; nothing is promised of the value.
pub assume_specification[ Popen::pid ](p: &Popen) -> Option<u32>;

/// How a process ended.
#[derive(Clone, Copy, Debug, PartialEq, Eq, Structural)]
pub enum Status {
    /// The process exited with this code.
    Exited(u32),
    /// The process was killed by this signal.
    Signaled(u8),
    /// An end that the two cases above do not describe.
    Other(i32),
    /// The process ended, but its status is not known.
    Undetermined,
}

impl Status {
    pub open spec fn is_success(self) -> bool {
        self == Status::Exited(0)
    }

    /// Whether the process exited with code 0.
    pub fn success(&self) -> (r: bool)
        ensures
            r == self.is_success(),
    {
        match self {
            Status::Exited(c) => *c == 0,
            _ => false,
        }
    }

    /// The text of a status, as in `Exited(0)` or `Signaled(9)`.
    pub open spec fn text(self) -> Seq<char> {
        match self {
            Status::Exited(c) => "Exited("@ + decimal(c as nat) + ")"@,
            Status::Signaled(s) => "Signaled("@ + decimal(s as nat) + ")"@,
            Status::Other(o) => "Other("@ + signed_decimal(o as int) + ")"@,
            Status::Undetermined => "Undetermined"@,
        }
    }

    /// The text of a status, as in `Exited(0)` or `Signaled(9)`.
    pub fn describe(&self) -> (r: String)
        ensures
            r@ == self.text(),
    {
        let mut r = String::new();
        match self {
            Status::Exited(c) => {
                push_str(&mut r, "Exited(");
                push_str(&mut r, decimal_string(*c as u64).as_str());
                push_str(&mut r, ")");
            },
            Status::Signaled(s) => {
                push_str(&mut r, "Signaled(");
                push_str(&mut r, decimal_string(*s as u64).as_str());
                push_str(&mut r, ")");
            },
            Status::Other(o) => {
                push_str(&mut r, "Other(");
                push_str(&mut r, signed_decimal_string(*o as i64).as_str());
                push_str(&mut r, ")");
            },
            Status::Undetermined => {
                push_str(&mut r, "Undetermined");
            },
        }
        r
    }
}

/// Relies on `subprocess::Popen::poll`: it checks without blocking whether the
/// child has ended; `None` while it runs. The outcome depends on the child.
#[verifier::external_body]
fn poll_status(p: &mut Popen) -> (r: Option<Status>) {
    match p.poll() {
        Some(ExitStatus::Exited(c)) => Some(Status::Exited(c)),
        Some(ExitStatus::Signaled(s)) => Some(Status::Signaled(s)),
        Some(ExitStatus::Other(o)) => Some(Status::Other(o)),
        Some(ExitStatus::Undetermined) => Some(Status::Undetermined),
        None => None,
    }
}

/// `[<jid>] <pid> <cmd>`: a background pipeline was started.
pub open spec fn spawn_text(jid: u32, pid: u32, cmd: Seq<char>) -> Seq<char> {
    "["@ + decimal(jid as nat) + "] "@ + decimal(pid as nat) + " "@ + cmd
}

/// `[<jid>] (<pid>) <cmd>`: a line of the job listing.
pub open spec fn listing_text(jid: u32, pid: u32, cmd: Seq<char>) -> Seq<char> {
    "["@ + decimal(jid as nat) + "] ("@ + decimal(pid as nat) + ") "@ + cmd
}

/// `[<jid>] (<pid>) <status> <cmd>`: a background job was reaped.
pub open spec fn reaped_text(jid: u32, pid: u32, st: Status, cmd: Seq<char>) -> Seq<char> {
    "["@ + decimal(jid as nat) + "] ("@ + decimal(pid as nat) + ") "@ + st.text() + " "@ + cmd
}

/// `[<jid>] <pid> running <cmd>`: a job was brought to the foreground.
pub open spec fn resume_text(jid: u32, pid: u32, cmd: Seq<char>) -> Seq<char> {
    "["@ + decimal(jid as nat) + "] "@ + decimal(pid as nat) + " running "@ + cmd
}

/// `[<jid>] <pid> <status> <cmd>`: a job brought to the foreground ended.
pub open spec fn finished_text(jid: u32, pid: u32, st: Status, cmd: Seq<char>) -> Seq<char> {
    "["@ + decimal(jid as nat) + "] "@ + decimal(pid as nat) + " "@ + st.text() + " "@ + cmd
}

/// The line announcing a background pipeline.
pub fn spawn_line(jid: u32, pid: u32, cmd: &str) -> (r: String)
    ensures
        r@ == spawn_text(jid, pid, cmd@),
{
    let mut r = String::new();
    push_str(&mut r, "[");
    push_str(&mut r, decimal_string(jid as u64).as_str());
    push_str(&mut r, "] ");
    push_str(&mut r, decimal_string(pid as u64).as_str());
    push_str(&mut r, " ");
    push_str(&mut r, cmd);
    r
}

/// A line of the job listing.
pub fn listing_line(jid: u32, pid: u32, cmd: &str) -> (r: String)
    ensures
        r@ == listing_text(jid, pid, cmd@),
{
    let mut r = String::new();
    push_str(&mut r, "[");
    push_str(&mut r, decimal_string(jid as u64).as_str());
    push_str(&mut r, "] (");
    push_str(&mut r, decimal_string(pid as u64).as_str());
    push_str(&mut r, ") ");
    push_str(&mut r, cmd);
    r
}

/// The line reporting a reaped background job.
pub fn reaped_line(jid: u32, pid: u32, st: Status, cmd: &str) -> (r: String)
    ensures
        r@ == reaped_text(jid, pid, st, cmd@),
{
    let mut r = String::new();
    push_str(&mut r, "[");
    push_str(&mut r, decimal_string(jid as u64).as_str());
    push_str(&mut r, "] (");
    push_str(&mut r, decimal_string(pid as u64).as_str());
    push_str(&mut r, ") ");
    push_str(&mut r, st.describe().as_str());
    push_str(&mut r, " ");
    push_str(&mut r, cmd);
    r
}

/// The line printed when a job is brought to the foreground.
pub fn resume_line(jid: u32, pid: u32, cmd: &str) -> (r: String)
    ensures
        r@ == resume_text(jid, pid, cmd@),
{
    let mut r = String::new();
    push_str(&mut r, "[");
    push_str(&mut r, decimal_string(jid as u64).as_str());
    push_str(&mut r, "] ");
    push_str(&mut r, decimal_string(pid as u64).as_str());
    push_str(&mut r, " running ");
    push_str(&mut r, cmd);
    r
}

/// The line printed when a job brought to the foreground has ended.
pub fn finished_line(jid: u32, pid: u32, st: Status, cmd: &str) -> (r: String)
    ensures
        r@ == finished_text(jid, pid, st, cmd@),
{
    let mut r = String::new();
    push_str(&mut r, "[");
    push_str(&mut r, decimal_string(jid as u64).as_str());
    push_str(&mut r, "] ");
    push_str(&mut r, decimal_string(pid as u64).as_str());
    push_str(&mut r, " ");
    push_str(&mut r, st.describe().as_str());
    push_str(&mut r, " ");
    push_str(&mut r, cmd);
    r
}

/// A background pipeline: its id, the pid of its first process, the command
/// line shown for it, and the handle of that process.
pub struct Job {
    pub jid: u32,
    pub pid: u32,
    pub cmd: String,
    pub proc: Popen,
}

impl Job {
    /// What the table knows of a job: id, pid and command line.
    pub open spec fn entry(&self) -> (u32, u32, Seq<char>) {
        (self.jid, self.pid, self.cmd@)
    }
}

/// The entries of the jobs kept by a reap: those whose poll gave `None`.
pub open spec fn kept(js: Seq<(u32, u32, Seq<char>)>, polls: Seq<Option<Status>>) -> Seq<
    (u32, u32, Seq<char>),
>
    decreases js.len(),
{
    if js.len() == 0 {
        seq![]
    } else {
        let rest = kept(js.drop_last(), polls.drop_last());
        if polls.last() is None {
            rest.push(js.last())
        } else {
            rest
        }
    }
}

/// The report lines of a reap: one for each job whose poll gave a status.
pub open spec fn reaped(js: Seq<(u32, u32, Seq<char>)>, polls: Seq<Option<Status>>) -> Seq<
    Seq<char>,
>
    decreases js.len(),
{
    if js.len() == 0 {
        seq![]
    } else {
        let rest = reaped(js.drop_last(), polls.drop_last());
        let j = js.last();
        match polls.last() {
            Some(st) => rest.push(reaped_text(j.0, j.1, st, j.2)),
            None => rest,
        }
    }
}

/// `id` was handed out by a table that went from `before` to `after`: it is
/// the counter, which moves past it.
pub open spec fn issued(before: Jobs, after: Jobs, id: u32) -> bool {
    id == before.cnt && after.cnt == id + 1
}

/// Job ids are strictly increasing and never reused: an id handed out by a
/// push is below every id that a later push hands out, whatever was done to
/// the table in between by operations that do not lower the counter (all of
/// them: `push` raises it, `remove` and `refresh` keep it); and each new id
/// is above every id still in the table.
pub proof fn lemma_ids_never_reused(a: Jobs, b: Jobs, c: Jobs, d: Jobs, id1: u32, id2: u32)
    requires
        issued(a, b, id1),
        b.cnt <= c.cnt,
        c.wf(),
        issued(c, d, id2),
    ensures
        id1 < id2,
        forall|i: int| 0 <= i < c.jobs@.len() ==> #[trigger] c.jobs@[i].jid < id2,
{
}

/// The registry of background jobs, in the order they were started, with the
/// id that the next job will get.
pub struct Jobs {
    pub jobs: Vec<Job>,
    pub cnt: u32,
}

impl Jobs {
    /// The entries of the table, in order.
    pub open spec fn entries(&self) -> Seq<(u32, u32, Seq<char>)> {
        self.jobs@.map_values(|j: Job| j.entry())
    }

    /// Ids are positive, strictly increasing in table order, and all below the
    /// counter.
    pub open spec fn wf(&self) -> bool {
        &&& self.cnt >= 1
        &&& forall|i: int| 0 <= i < self.jobs@.len() ==> 1 <= #[trigger] self.jobs@[i].jid < self.cnt
        &&& forall|i: int, j: int|
            0 <= i < j < self.jobs@.len() ==> self.jobs@[i].jid < self.jobs@[j].jid
    }

    /// An empty table whose first job gets id 1.
    pub fn new() -> (r: Jobs)
        ensures
            r.wf(),
            r.entries() == Seq::<(u32, u32, Seq<char>)>::empty(),
            r.cnt == 1,
    {
        let r = Jobs { cnt: 1, jobs: Vec::new() };
        assert(r.entries() =~= Seq::<(u32, u32, Seq<char>)>::empty());
        r
    }

    /// The listing of the table, one `[<jid>] (<pid>) <cmd>` line per job, in
    /// order.
    pub fn listing(&self) -> (r: Vec<String>)
        ensures
            r@.len() == self.jobs@.len(),
            forall|i: int|
                0 <= i < r@.len() ==> #[trigger] r@[i]@ == listing_text(
                    self.jobs@[i].jid,
                    self.jobs@[i].pid,
                    self.jobs@[i].cmd@,
                ),
    {
        let mut r: Vec<String> = Vec::new();
        let mut i: usize = 0;
        while i < self.jobs.len()
            invariant
                i <= self.jobs@.len(),
                r@.len() == i,
                forall|k: int|
                    0 <= k < i ==> #[trigger] r@[k]@ == listing_text(
                        self.jobs@[k].jid,
                        self.jobs@[k].pid,
                        self.jobs@[k].cmd@,
                    ),
            decreases self.jobs@.len() - i,
        {
            let j = &self.jobs[i];
            r.push(listing_line(j.jid, j.pid, j.cmd.as_str()));
            i = i + 1;
        }
        r
    }

    /// Registers a started pipeline whose first process has pid `pid`, under
    /// the next id, and returns that id. Nothing is registered when the pid
    /// is not known, or when every id has been handed out. Ids are never
    /// reused: the new id is the counter, above every id in the table, and
    /// the counter only grows.
    pub fn register(&mut self, proc: Popen, pid: Option<u32>, cmd: String) -> (r: Option<u32>)
        requires
            old(self).wf(),
        ensures
            final(self).wf(),
            r == (if old(self).cnt < u32::MAX && pid is Some {
                Some(old(self).cnt)
            } else {
                None::<u32>
            }),
            r is None ==> final(self).entries() == old(self).entries() && final(self).cnt == old(
                self,
            ).cnt,
            r matches Some(id) ==> {
                &&& issued(*old(self), *final(self), id)
                &&& forall|i: int|
                    0 <= i < old(self).jobs@.len() ==> #[trigger] old(self).jobs@[i].jid < id
                &&& final(self).jobs@.len() == old(self).jobs@.len() + 1
                &&& final(self).entries().drop_last() == old(self).entries()
                &&& final(self).entries().last() == (id, pid->Some_0, cmd@)
            },
    {
        if self.cnt == u32::MAX {
            return None;
        }
        let pid = match pid {
            Some(p) => p,
            None => {
                return None;
            },
        };
        let id = self.cnt;
        let ghost before = self.entries();
        self.jobs.push(Job { jid: id, pid, cmd, proc });
        self.cnt = self.cnt + 1;
        assert(self.entries().drop_last() =~= before);
        Some(id)
    }

    /// Registers a started pipeline under the next id, with the pid that its
    /// handle reports, as [`Jobs::register`] says.
    pub fn push(&mut self, proc: Popen, cmd: String) -> (r: Option<u32>)
        requires
            old(self).wf(),
        ensures
            final(self).wf(),
            final(self).cnt >= old(self).cnt,
            old(self).cnt == u32::MAX ==> r is None,
            r is None ==> final(self).entries() == old(self).entries() && final(self).cnt == old(
                self,
            ).cnt,
            r matches Some(id) ==> {
                &&& issued(*old(self), *final(self), id)
                &&& forall|i: int|
                    0 <= i < old(self).jobs@.len() ==> #[trigger] old(self).jobs@[i].jid < id
                &&& final(self).jobs@.len() == old(self).jobs@.len() + 1
                &&& final(self).entries().drop_last() == old(self).entries()
                &&& final(self).jobs@.last().jid == id
                &&& final(self).jobs@.last().cmd@ == cmd@
            },
    {
        let pid = proc.pid();
        self.register(proc, pid, cmd)
    }

    /// Takes the job with id `jid` out of the table, if there is one; the
    /// counter is unchanged.
    pub fn remove(&mut self, jid: u32) -> (r: Option<Job>)
        requires
            old(self).wf(),
        ensures
            final(self).wf(),
            final(self).cnt == old(self).cnt,
            r is None ==> final(self).jobs@ == old(self).jobs@,
            r is None <==> forall|i: int|
                0 <= i < old(self).jobs@.len() ==> #[trigger] old(self).jobs@[i].jid != jid,
            r matches Some(j) ==> exists|i: int|
                0 <= i < old(self).jobs@.len() && #[trigger] old(self).jobs@[i].jid == jid
                    && j.entry() == old(self).entries()[i] && final(self).entries()
                    == old(self).entries().remove(i),
    {
        let mut i: usize = 0;
        while i < self.jobs.len()
            invariant
                self.jobs@ == old(self).jobs@,
                self.cnt == old(self).cnt,
                self.wf(),
                i <= self.jobs@.len(),
                forall|k: int| 0 <= k < i ==> #[trigger] self.jobs@[k].jid != jid,
            decreases self.jobs@.len() - i,
        {
            if self.jobs[i].jid == jid {
                let ghost before = self.entries();
                let ghost old_jobs = self.jobs@;
                let j = self.jobs.remove(i);
                assert(self.entries() =~= before.remove(i as int));
                assert(forall|k: int|
                    0 <= k < self.jobs@.len() ==> #[trigger] self.jobs@[k] == (if k < i {
                        old_jobs[k]
                    } else {
                        old_jobs[k + 1]
                    }));
                return Some(j);
            }
            i = i + 1;
        }
        None
    }

    /// Given what polling each job gave, in table order, takes out the jobs
    /// that have ended and returns a `[<jid>] (<pid>) <status> <cmd>` line for
    /// each of them, in table order. The jobs still running stay, in their
    /// order.
    pub fn prune(&mut self, polls: &Vec<Option<Status>>) -> (r: Vec<String>)
        requires
            old(self).wf(),
            polls@.len() == old(self).jobs@.len(),
        ensures
            final(self).wf(),
            final(self).cnt == old(self).cnt,
            final(self).entries() == kept(old(self).entries(), polls@),
            r@.map_values(|l: String| l@) == reaped(old(self).entries(), polls@),
    {
        let mut rest: Vec<Job> = Vec::new();
        std::mem::swap(&mut rest, &mut self.jobs);
        let ghost orig = rest@;
        let ghost orig_entries = old(self).entries();
        let ghost mut seen: Seq<Option<Status>> = seq![];
        let mut lines: Vec<String> = Vec::new();
        let n = rest.len();
        let mut i: usize = 0;
        assert(self.entries() =~= kept(orig_entries.subrange(0, 0), seen));
        assert(lines@.map_values(|l: String| l@) =~= reaped(orig_entries.subrange(0, 0), seen));
        while i < n
            invariant
                n == orig.len(),
                i <= n,
                orig == old(self).jobs@,
                orig_entries == old(self).entries(),
                old(self).wf(),
                rest@.len() == n - i,
                forall|k: int| 0 <= k < n - i ==> (#[trigger] rest@[k]).entry() == orig[k + i].entry(),
                seen.len() == i,
                polls@.len() == n,
                seen == polls@.subrange(0, i as int),
                self.cnt == old(self).cnt,
                self.wf(),
                self.entries() == kept(orig_entries.subrange(0, i as int), seen),
                lines@.map_values(|l: String| l@) == reaped(
                    orig_entries.subrange(0, i as int),
                    seen,
                ),
                i == 0 ==> self.jobs@.len() == 0,
                i > 0 && self.jobs@.len() > 0 ==> self.jobs@.last().jid <= orig[i - 1].jid,
            decreases n - i,
        {
            let job = rest.remove(0);
            assert(job.entry() == orig[i as int].entry());
            let p = polls[i];
            let ghost pre_entries = orig_entries.subrange(0, i as int);
            let ghost post_entries = orig_entries.subrange(0, i + 1);
            assert(post_entries.drop_last() =~= pre_entries);
            assert(post_entries.last() == job.entry());
            let ghost pre_kept = self.entries();
            let ghost pre_lines = lines@.map_values(|l: String| l@);
            match p {
                Some(st) => {
                    let line = reaped_line(job.jid, job.pid, st, job.cmd.as_str());
                    lines.push(line);
                    assert(lines@.map_values(|l: String| l@) =~= pre_lines.push(
                        reaped_text(job.jid, job.pid, st, job.cmd@),
                    ));
                },
                None => {
                    self.jobs.push(job);
                    assert(self.entries() =~= pre_kept.push(post_entries.last()));
                },
            }
            let ghost old_polls = seen;
            proof {
                seen = seen.push(p);
                assert(seen.drop_last() =~= old_polls);
                assert(seen.last() == p);
                assert(seen =~= polls@.subrange(0, i + 1));
                assert(kept(post_entries, seen) == (if p is None {
                    kept(pre_entries, old_polls).push(post_entries.last())
                } else {
                    kept(pre_entries, old_polls)
                }));
            }
            i = i + 1;
        }
        assert(orig_entries.subrange(0, n as int) =~= orig_entries);
        assert(seen =~= polls@);
        lines
    }

    /// Polls every job once without blocking, in table order, then takes out
    /// those that have ended, as [`Jobs::prune`] says with what the polls
    /// gave.
    pub fn refresh(&mut self) -> (r: Vec<String>)
        requires
            old(self).wf(),
        ensures
            final(self).wf(),
            final(self).cnt == old(self).cnt,
            exists|polls: Seq<Option<Status>>|
                #![auto]
                polls.len() == old(self).jobs@.len() && final(self).entries() == kept(
                    old(self).entries(),
                    polls,
                ) && r@.map_values(|l: String| l@) == reaped(old(self).entries(), polls),
    {
        let mut rest: Vec<Job> = Vec::new();
        std::mem::swap(&mut rest, &mut self.jobs);
        let ghost orig = rest@;
        let n = rest.len();
        let mut polls: Vec<Option<Status>> = Vec::new();
        while rest.len() > 0
            invariant
                n == orig.len(),
                orig == old(self).jobs@,
                self.cnt == old(self).cnt,
                polls@.len() == self.jobs@.len(),
                self.jobs@.len() + rest@.len() == n,
                forall|k: int|
                    0 <= k < self.jobs@.len() ==> (#[trigger] self.jobs@[k]).entry()
                        == orig[k].entry(),
                forall|k: int|
                    0 <= k < rest@.len() ==> (#[trigger] rest@[k]).entry() == orig[k
                        + self.jobs@.len()].entry(),
            decreases rest@.len(),
        {
            let mut job = rest.remove(0);
            let p = poll_status(&mut job.proc);
            polls.push(p);
            self.jobs.push(job);
        }
        assert(self.entries() =~= old(self).entries());
        self.prune(&polls)
    }
}

} // verus!
