//! One job at a time: for each document the job that holds the document,
//! and behind it the jobs that wait for it, in the order in which they
//! came.
//!
//! A job that finds its document held waits outside this library. It asks
//! again, with `granted`, whenever a job has let go of a document.

use vstd::prelude::*;
use crate::text::str_eq;

verus! {

/// A job that holds a document, or waits for it.
struct QueuedJob {
    job_id: String,
    line: u32,
}

/// The jobs of one document.
struct FileQueue {
    uri: String,
    active_job: Option<QueuedJob>,
    pending: Vec<QueuedJob>,
}

/// A job of a queue, as a mathematical value.
pub struct QueuedView {
    pub job_id: Seq<char>,
    pub line: u32,
}

/// The queue of one document, as a mathematical value: the job that holds
/// the document, and the jobs that wait, first come first.
pub struct QueueView {
    pub active: Option<QueuedView>,
    pub pending: Seq<QueuedView>,
}

impl QueuedJob {
    spec fn view(&self) -> QueuedView {
        QueuedView { job_id: self.job_id@, line: self.line }
    }
}

impl FileQueue {
    spec fn view(&self) -> QueueView {
        QueueView {
            active: match self.active_job {
                Some(job) => Some(job@),
                None => None,
            },
            pending: Seq::new(self.pending@.len(), |i: int| self.pending@[i]@),
        }
    }
}

/// The queues of the documents.
pub struct JobQueue {
    queues: Vec<FileQueue>,
}

/// The queue of a document that no job has asked for.
pub open spec fn idle() -> QueueView {
    QueueView { active: None, pending: Seq::empty() }
}

/// The queue after the job `job_id` has asked for the document: it holds
/// the document if no job held it, and waits behind the others if one did.
pub open spec fn asked(queue: QueueView, job_id: Seq<char>, line: u32) -> QueueView {
    match queue.active {
        None => QueueView { active: Some(QueuedView { job_id, line }), ..queue },
        Some(_) => QueueView { pending: queue.pending.push(QueuedView { job_id, line }), ..queue },
    }
}

/// Whether the job `job_id` holds the document.
pub open spec fn holds_document(queue: QueueView, job_id: Seq<char>) -> bool {
    queue.active matches Some(job) && job.job_id == job_id
}

/// The queue after the job `job_id` has let go of the document: the first
/// of the waiting jobs holds it next. A job that does not hold the document
/// lets go of nothing.
pub open spec fn let_go(queue: QueueView, job_id: Seq<char>) -> QueueView {
    if holds_document(queue, job_id) {
        if queue.pending.len() > 0 {
            QueueView { active: Some(queue.pending[0]), pending: queue.pending.drop_first() }
        } else {
            QueueView { active: None, pending: queue.pending }
        }
    } else {
        queue
    }
}

/// The line `line` moved by `delta` lines, counted round the line numbers:
/// a line that would lie below the first line number or above the last
/// comes round from the other end.
pub open spec fn wrapped_line(line: u32, delta: i32) -> u32 {
    if line + delta < 0 {
        (line + delta + 0x1_0000_0000) as u32
    } else if line + delta > u32::MAX {
        (line + delta - 0x1_0000_0000) as u32
    } else {
        (line + delta) as u32
    }
}

/// A waiting job after an edit at line `edit_line` that moved the text
/// below it by `delta` lines: a job below that line moves with the text.
pub open spec fn moved(job: QueuedView, edit_line: u32, delta: i32) -> QueuedView {
    if job.line > edit_line {
        QueuedView { line: wrapped_line(job.line, delta), ..job }
    } else {
        job
    }
}

/// The queue after an edit: the waiting jobs move, and the job that holds
/// the document stays.
pub open spec fn all_moved(queue: QueueView, edit_line: u32, delta: i32) -> QueueView {
    QueueView {
        active: queue.active,
        pending: Seq::new(queue.pending.len(), |i: int| moved(queue.pending[i], edit_line, delta)),
    }
}

fn wrap_line(line: u32, delta: i32) -> (r: u32)
    ensures
        r == wrapped_line(line, delta),
{
    let moved: i64 = line as i64 + delta as i64;
    if moved < 0 {
        (moved + 0x1_0000_0000) as u32
    } else if moved > 0xffff_ffff {
        (moved - 0x1_0000_0000) as u32
    } else {
        moved as u32
    }
}

impl JobQueue {
    spec fn holds(&self, i: int, uri: Seq<char>) -> bool {
        0 <= i < self.queues.len() && self.queues[i].uri@ == uri
    }

    /// Whether the queues are well formed: no document has two of them.
    pub closed spec fn wf(&self) -> bool {
        forall|i: int, j: int|
            0 <= i < j < self.queues.len() ==> self.queues[i].uri@ != self.queues[j].uri@
    }

    /// The queue of the document `uri`.
    pub closed spec fn queue(&self, uri: Seq<char>) -> QueueView {
        if exists|i: int| self.holds(i, uri) {
            self.queues[choose|i: int| self.holds(i, uri)]@
        } else {
            idle()
        }
    }

    proof fn lemma_queue_at(&self, i: int)
        requires
            self.wf(),
            0 <= i < self.queues.len(),
        ensures
            self.queue(self.queues[i].uri@) == self.queues[i]@,
    {
        let uri = self.queues[i].uri@;
        assert(self.holds(i, uri));
        let k = choose|k: int| self.holds(k, uri);
        assert(k == i);
    }

    /// The queues of all documents but the one at index `i` are the same
    /// in two values that differ in that one only.
    proof fn lemma_same_elsewhere(&self, other: &JobQueue, uri: Seq<char>)
        requires
            self.wf(),
            other.wf(),
            self.queues.len() <= other.queues.len(),
            forall|k: int|
                0 <= k < self.queues.len() ==> other.queues[k].uri@ == self.queues[k].uri@,
            forall|k: int|
                0 <= k < self.queues.len() && self.queues[k].uri@ != uri ==> other.queues[k]@
                    == self.queues[k]@,
            forall|k: int|
                self.queues.len() <= k < other.queues.len() ==> other.queues[k].uri@ == uri,
        ensures
            forall|u: Seq<char>| u != uri ==> other.queue(u) == self.queue(u),
    {
        assert forall|u: Seq<char>| u != uri implies other.queue(u) == self.queue(u) by {
            if exists|k: int| self.holds(k, u) {
                let k = choose|k: int| self.holds(k, u);
                assert(other.holds(k, u));
                self.lemma_queue_at(k);
                other.lemma_queue_at(k);
            } else {
                assert forall|k: int| !other.holds(k, u) by {
                    if other.holds(k, u) {
                        assert(self.holds(k, u));
                    }
                }
            }
        }
    }

    /// Queues in which no job holds a document or waits for one.
    pub fn new() -> (r: Self)
        ensures
            r.wf(),
            forall|uri: Seq<char>| r.queue(uri) == idle(),
    {
        JobQueue { queues: Vec::new() }
    }

    fn find(&self, uri: &str) -> (r: Option<usize>)
        ensures
            match r {
                Some(i) => self.holds(i as int, uri@),
                None => forall|i: int| !self.holds(i, uri@),
            },
    {
        let mut i: usize = 0;
        while i < self.queues.len()
            invariant
                i <= self.queues.len(),
                forall|k: int| 0 <= k < i ==> !self.holds(k, uri@),
            decreases self.queues.len() - i,
        {
            if str_eq(self.queues[i].uri.as_str(), uri) {
                return Some(i);
            }
            i += 1;
        }
        None
    }

    /// Asks for the document `uri` on behalf of the job `job_id`, which is
    /// for line `line`. Where no job holds the document, the job holds it
    /// from now on, and its line comes back. Where a job holds it, the job
    /// waits behind the others, and nothing comes back.
    pub fn acquire(&mut self, uri: &str, job_id: &str, line: u32) -> (r: Option<u32>)
        requires
            old(self).wf(),
        ensures
            final(self).wf(),
            final(self).queue(uri@) == asked(old(self).queue(uri@), job_id@, line),
            forall|u: Seq<char>| u != uri@ ==> final(self).queue(u) == old(self).queue(u),
            r == if old(self).queue(uri@).active is None {
                Some(line)
            } else {
                None::<u32>
            },
    {
        let job = QueuedJob { job_id: job_id.to_string(), line };
        match self.find(uri) {
            Some(i) => {
                proof {
                    self.lemma_queue_at(i as int);
                }
                let ghost before = self.queues[i as int]@;
                let free = self.queues[i].active_job.is_none();
                if free {
                    self.queues[i].active_job = Some(job);
                } else {
                    self.queues[i].pending.push(job);
                }
                proof {
                    assert(self.queues[i as int]@.pending =~= asked(
                        before,
                        job_id@,
                        line,
                    ).pending);
                    assert forall|k: int| 0 <= k < self.queues.len() implies self.queues[k].uri
                        == old(self).queues[k].uri by {}
                    assert(self.wf());
                    self.lemma_queue_at(i as int);
                    old(self).lemma_same_elsewhere(self, uri@);
                }
                if free {
                    Some(line)
                } else {
                    None
                }
            },
            None => {
                self.queues.push(
                    FileQueue { uri: uri.to_string(), active_job: Some(job), pending: Vec::new() },
                );
                proof {
                    let n = old(self).queues.len() as int;
                    assert forall|k: int| 0 <= k < n implies self.queues[k] == old(
                        self,
                    ).queues[k] by {}
                    assert forall|k: int| 0 <= k < n implies self.queues[k].uri@ != uri@ by {
                        assert(!old(self).holds(k, uri@));
                    }
                    assert(self.wf());
                    self.lemma_queue_at(n);
                    assert(self.queues[n]@.pending =~= asked(idle(), job_id@, line).pending);
                    old(self).lemma_same_elsewhere(self, uri@);
                }
                Some(line)
            },
        }
    }

    /// The line of the job `job_id`, if it holds the document `uri` now. A
    /// job that waits asks this whenever a job has let go of a document.
    pub fn granted(&self, uri: &str, job_id: &str) -> (r: Option<u32>)
        requires
            self.wf(),
        ensures
            match r {
                Some(line) => holds_document(self.queue(uri@), job_id@) && self.queue(
                    uri@,
                ).active.unwrap().line == line,
                None => !holds_document(self.queue(uri@), job_id@),
            },
    {
        match self.find(uri) {
            Some(i) => {
                proof {
                    self.lemma_queue_at(i as int);
                }
                match &self.queues[i].active_job {
                    Some(job) => if str_eq(job.job_id.as_str(), job_id) {
                        Some(job.line)
                    } else {
                        None
                    },
                    None => None,
                }
            },
            None => None,
        }
    }

    /// Lets go of the document `uri` on behalf of the job `job_id`, so that
    /// the first of the waiting jobs holds it next. Whether the job held the
    /// document comes back: if so, the jobs that wait are to ask again.
    pub fn release(&mut self, uri: &str, job_id: &str) -> (r: bool)
        requires
            old(self).wf(),
        ensures
            final(self).wf(),
            r == holds_document(old(self).queue(uri@), job_id@),
            final(self).queue(uri@) == let_go(old(self).queue(uri@), job_id@),
            forall|u: Seq<char>| u != uri@ ==> final(self).queue(u) == old(self).queue(u),
    {
        let i = match self.find(uri) {
            Some(i) => i,
            None => {
                return false;
            },
        };
        proof {
            self.lemma_queue_at(i as int);
        }
        let ghost before = self.queues[i as int]@;
        let is_active = match &self.queues[i].active_job {
            Some(job) => str_eq(job.job_id.as_str(), job_id),
            None => false,
        };
        if !is_active {
            return false;
        }
        if self.queues[i].pending.len() > 0 {
            let next = self.queues[i].pending.remove(0);
            self.queues[i].active_job = Some(next);
        } else {
            self.queues[i].active_job = None;
        }
        proof {
            assert(self.queues[i as int]@.pending =~= let_go(before, job_id@).pending);
            assert forall|k: int| 0 <= k < self.queues.len() implies self.queues[k].uri == old(
                self,
            ).queues[k].uri by {}
            assert(self.wf());
            self.lemma_queue_at(i as int);
            old(self).lemma_same_elsewhere(self, uri@);
        }
        true
    }

    /// Moves the jobs that wait for the document `uri` after an edit at
    /// line `edit_line` that moved the text below it by `lines_delta`
    /// lines.
    pub fn adjust_pending_lines(&mut self, uri: &str, edit_line: u32, lines_delta: i32)
        requires
            old(self).wf(),
        ensures
            final(self).wf(),
            final(self).queue(uri@) == all_moved(old(self).queue(uri@), edit_line, lines_delta),
            forall|u: Seq<char>| u != uri@ ==> final(self).queue(u) == old(self).queue(u),
    {
        let i = match self.find(uri) {
            Some(i) => i,
            None => {
                assert(all_moved(idle(), edit_line, lines_delta).pending =~= idle().pending);
                return ;
            },
        };
        proof {
            self.lemma_queue_at(i as int);
        }
        let ghost before = self.queues[i as int]@;
        let n = self.queues[i].pending.len();
        let mut k: usize = 0;
        while k < n
            invariant
                k <= n,
                i < self.queues.len(),
                self.queues.len() == old(self).queues.len(),
                n == self.queues[i as int].pending.len(),
                n == before.pending.len(),
                forall|a: int|
                    0 <= a < self.queues.len() && a != i ==> self.queues[a] == old(
                        self,
                    ).queues[a],
                self.queues[i as int].uri == old(self).queues[i as int].uri,
                self.queues[i as int]@.active == before.active,
                forall|a: int|
                    0 <= a < k ==> (#[trigger] self.queues[i as int].pending[a])@ == moved(
                        before.pending[a],
                        edit_line,
                        lines_delta,
                    ),
                forall|a: int|
                    k <= a < n ==> (#[trigger] self.queues[i as int].pending[a])@
                        == before.pending[a],
            decreases n - k,
        {
            let line = self.queues[i].pending[k].line;
            if line > edit_line {
                self.queues[i].pending[k].line = wrap_line(line, lines_delta);
            }
            k += 1;
        }
        proof {
            assert(self.queues[i as int]@.pending =~= all_moved(
                before,
                edit_line,
                lines_delta,
            ).pending);
            assert(self.wf());
            self.lemma_queue_at(i as int);
            old(self).lemma_same_elsewhere(self, uri@);
        }
    }
}

impl Default for JobQueue {
    fn default() -> (r: Self)
        ensures
            r.wf(),
            forall|uri: Seq<char>| r.queue(uri) == idle(),
    {
        JobQueue::new()
    }
}

} // verus!
