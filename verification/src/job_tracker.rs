//! The registry of the implementation jobs that are under way, by document.
//!
//! Each job is tracked at a line of its document. When the edit of another
//! job lands above it, the line moves with the text.

use vstd::prelude::*;
use crate::text::str_eq;

verus! {

/// The most jobs that may be under way on one document.
pub const MAX_CONCURRENT_JOBS_PER_FILE: usize = 10;

/// One implementation job that is under way.
#[derive(Clone, Debug)]
pub struct ActiveJob {
    pub job_id: String,
    pub original_line: u32,
    pub current_line: u32,
    pub function_signature: String,
}

/// A job, as a mathematical value.
pub struct JobView {
    pub job_id: Seq<char>,
    pub original_line: u32,
    pub current_line: u32,
    pub function_signature: Seq<char>,
}

impl View for ActiveJob {
    type V = JobView;

    open spec fn view(&self) -> JobView {
        JobView {
            job_id: self.job_id@,
            original_line: self.original_line,
            current_line: self.current_line,
            function_signature: self.function_signature@,
        }
    }
}

/// The jobs of one document.
struct FileJobs {
    uri: String,
    jobs: Vec<ActiveJob>,
}

/// The registry of active jobs.
pub struct JobTracker {
    files: Vec<FileJobs>,
}

/// The views of the jobs in `jobs`.
pub open spec fn jobs_view(jobs: Seq<ActiveJob>) -> Seq<JobView> {
    Seq::new(jobs.len(), |i: int| jobs[i]@)
}

/// Whether `jobs` holds a job with the identifier `job_id` at index `k`.
pub open spec fn is_job_at(jobs: Seq<JobView>, k: int, job_id: Seq<char>) -> bool {
    0 <= k < jobs.len() && jobs[k].job_id == job_id
}

/// Whether `jobs` holds a job with the identifier `job_id`.
pub open spec fn has_job(jobs: Seq<JobView>, job_id: Seq<char>) -> bool {
    exists|k: int| is_job_at(jobs, k, job_id)
}

/// Whether no two jobs of `jobs` have the same identifier.
pub open spec fn distinct_ids(jobs: Seq<JobView>) -> bool {
    forall|i: int, j: int| 0 <= i < j < jobs.len() ==> jobs[i].job_id != jobs[j].job_id
}

/// A job as it is when it has just been registered.
pub open spec fn new_job(job_id: Seq<char>, line: u32, signature: Seq<char>) -> JobView {
    JobView { job_id, original_line: line, current_line: line, function_signature: signature }
}

/// The jobs of a document after `job` has been registered: it takes the
/// place of the job with the same identifier, or comes last.
pub open spec fn with_job(jobs: Seq<JobView>, job: JobView) -> Seq<JobView> {
    if has_job(jobs, job.job_id) {
        jobs.update(choose|k: int| is_job_at(jobs, k, job.job_id), job)
    } else {
        jobs.push(job)
    }
}

/// The jobs of a document without the job that has the identifier `job_id`.
pub open spec fn without_job(jobs: Seq<JobView>, job_id: Seq<char>) -> Seq<JobView> {
    if has_job(jobs, job_id) {
        jobs.remove(choose|k: int| is_job_at(jobs, k, job_id))
    } else {
        jobs
    }
}

/// The line `line` moved by `delta` lines, kept within the line numbers.
pub open spec fn shifted_line(line: u32, delta: i32) -> u32 {
    if line + delta < 0 {
        0
    } else if line + delta > u32::MAX {
        u32::MAX
    } else {
        (line + delta) as u32
    }
}

/// A job after the edit of another job, whose last line was `edit_end` and
/// which moved the text below it by `delta` lines. A job below the edit
/// moves with the text; the job `excluded` and every job at or above the
/// last line of the edit stay.
pub open spec fn adjusted_job(job: JobView, edit_end: u32, delta: i32, excluded: Seq<char>) -> JobView {
    if job.job_id != excluded && job.current_line > edit_end {
        JobView { current_line: shifted_line(job.current_line, delta), ..job }
    } else {
        job
    }
}

/// The jobs of a document after the edit of one of them.
pub open spec fn adjusted_jobs(
    jobs: Seq<JobView>,
    edit_end: u32,
    delta: i32,
    excluded: Seq<char>,
) -> Seq<JobView> {
    Seq::new(jobs.len(), |i: int| adjusted_job(jobs[i], edit_end, delta, excluded))
}

/// The job of `jobs` that has the identifier `job_id`.
pub open spec fn job_in(jobs: Seq<JobView>, job_id: Seq<char>) -> JobView {
    jobs[choose|k: int| is_job_at(jobs, k, job_id)]
}

/// What the caller is told when a document has all the jobs it may have.
pub open spec fn capacity_message() -> Seq<char> {
    "Maximum concurrent implementations (10) reached for this file. Please wait."@
}

impl JobTracker {
    /// Whether the file at index `i` is the one of the document `uri`.
    spec fn holds(&self, i: int, uri: Seq<char>) -> bool {
        0 <= i < self.files.len() && self.files[i].uri@ == uri
    }

    /// Whether the registry is well formed: every document has one entry at
    /// most, and an entry has at least one job, `MAX_CONCURRENT_JOBS_PER_FILE`
    /// jobs at most, and no two jobs with the same identifier.
    pub closed spec fn wf(&self) -> bool {
        &&& forall|i: int, j: int|
            0 <= i < j < self.files.len() ==> self.files[i].uri@ != self.files[j].uri@
        &&& forall|i: int|
            0 <= i < self.files.len() ==> 0 < (#[trigger] self.files[i]).jobs.len()
                <= MAX_CONCURRENT_JOBS_PER_FILE && distinct_ids(jobs_view(self.files[i].jobs@))
    }

    /// The active jobs of the document `uri`, in the order in which they
    /// were registered. A document without jobs has the empty sequence.
    pub closed spec fn jobs(&self, uri: Seq<char>) -> Seq<JobView> {
        if exists|i: int| self.holds(i, uri) {
            jobs_view(self.files[choose|i: int| self.holds(i, uri)].jobs@)
        } else {
            Seq::empty()
        }
    }

    /// The jobs of the document of the file at index `i`.
    proof fn lemma_jobs_at(&self, i: int)
        requires
            self.wf(),
            0 <= i < self.files.len(),
        ensures
            self.jobs(self.files[i].uri@) == jobs_view(self.files[i].jobs@),
    {
        let uri = self.files[i].uri@;
        assert(self.holds(i, uri));
        let k = choose|k: int| self.holds(k, uri);
        assert(k == i);
    }

    /// The jobs of a document that has no entry.
    proof fn lemma_jobs_absent(&self, uri: Seq<char>)
        requires
            forall|i: int| !self.holds(i, uri),
        ensures
            self.jobs(uri) == Seq::<JobView>::empty(),
    {
    }

    /// A registry without jobs.
    pub fn new() -> (r: Self)
        ensures
            r.wf(),
            forall|uri: Seq<char>| r.jobs(uri) == Seq::<JobView>::empty(),
    {
        JobTracker { files: Vec::new() }
    }

    /// The jobs of every document but the one at index `i` are the same in
    /// two registries that differ in the jobs of that one only.
    proof fn lemma_same_elsewhere(&self, other: &JobTracker, i: int)
        requires
            self.wf(),
            other.wf(),
            0 <= i < self.files.len(),
            other.files.len() == self.files.len(),
            forall|k: int| 0 <= k < self.files.len() ==> other.files[k].uri@ == self.files[k].uri@,
            forall|k: int|
                0 <= k < self.files.len() && k != i ==> other.files[k].jobs@ == self.files[k].jobs@,
        ensures
            forall|u: Seq<char>| u != self.files[i].uri@ ==> other.jobs(u) == self.jobs(u),
    {
        assert forall|u: Seq<char>| u != self.files[i].uri@ implies other.jobs(u) == self.jobs(
            u,
        ) by {
            if exists|k: int| self.holds(k, u) {
                let k = choose|k: int| self.holds(k, u);
                assert(other.holds(k, u));
                self.lemma_jobs_at(k);
                other.lemma_jobs_at(k);
            } else {
                assert forall|k: int| !other.holds(k, u) by {
                    if other.holds(k, u) {
                        assert(self.holds(k, u));
                    }
                }
            }
        }
    }

    /// Registers the job `job_id` on the document `uri`, at `line`.
    ///
    /// A document that has `MAX_CONCURRENT_JOBS_PER_FILE` jobs takes no
    /// more: the registry stays as it is, and the error says so. Otherwise
    /// the job is tracked from `line` on, with its signature.
    pub fn register_job(
        &mut self,
        uri: &str,
        job_id: &str,
        line: u32,
        function_signature: String,
    ) -> (r: Result<(), String>)
        requires
            old(self).wf(),
        ensures
            final(self).wf(),
            r is Err <==> old(self).jobs(uri@).len() >= MAX_CONCURRENT_JOBS_PER_FILE,
            r matches Err(message) ==> *final(self) == *old(self) && message@
                == capacity_message(),
            r is Ok ==> final(self).jobs(uri@) == with_job(
                old(self).jobs(uri@),
                new_job(job_id@, line, function_signature@),
            ),
            forall|u: Seq<char>| u != uri@ ==> final(self).jobs(u) == old(self).jobs(u),
    {
        let ghost fresh = new_job(job_id@, line, function_signature@);
        let job = ActiveJob {
            job_id: job_id.to_string(),
            original_line: line,
            current_line: line,
            function_signature,
        };
        assert(job@ == fresh);
        match self.find_file(uri) {
            Some(i) => {
                proof {
                    self.lemma_jobs_at(i as int);
                }
                if self.files[i].jobs.len() >= MAX_CONCURRENT_JOBS_PER_FILE {
                    return Err(
                        "Maximum concurrent implementations (10) reached for this file. Please wait.".to_string(),
                    );
                }
                let ghost before = jobs_view(self.files[i as int].jobs@);
                match find_job(&self.files[i].jobs, job_id) {
                    Some(k) => {
                        proof {
                            let c = choose|c: int| is_job_at(before, c, job_id@);
                            assert(c == k);
                        }
                        self.files[i].jobs[k] = job;
                        proof {
                            let after = jobs_view(self.files[i as int].jobs@);
                            assert(after =~= before.update(k as int, fresh));
                        }
                    },
                    None => {
                        self.files[i].jobs.push(job);
                        proof {
                            let after = jobs_view(self.files[i as int].jobs@);
                            assert(after =~= before.push(fresh));
                        }
                    },
                }
                proof {
                    let after = jobs_view(self.files[i as int].jobs@);
                    assert(self.files.len() == old(self).files.len());
                    assert(self.files[i as int].uri == old(self).files[i as int].uri);
                    assert forall|a: int| 0 <= a < self.files.len() && a != i implies
                        self.files[a] == old(self).files[a] by {}
                    assert(distinct_ids(before));
                    assert(distinct_ids(after)) by {
                        assert forall|a: int, b: int| 0 <= a < b < after.len() implies after[a].job_id
                            != after[b].job_id by {
                            if a < before.len() && b < before.len() {
                                assert(before[a].job_id != before[b].job_id);
                            }
                            if a < before.len() {
                                assert(is_job_at(before, a, before[a].job_id));
                            }
                            if b < before.len() {
                                assert(is_job_at(before, b, before[b].job_id));
                            }
                        }
                    }
                    assert forall|a: int| 0 <= a < self.files.len() implies 0 < (
                    #[trigger] self.files[a]).jobs.len() <= MAX_CONCURRENT_JOBS_PER_FILE
                        && distinct_ids(jobs_view(self.files[a].jobs@)) by {
                        if a != i {
                            assert(self.files[a] == old(self).files[a]);
                        }
                    }
                    assert(self.wf());
                    self.lemma_jobs_at(i as int);
                    old(self).lemma_same_elsewhere(self, i as int);
                }
                Ok(())
            },
            None => {
                let mut jobs: Vec<ActiveJob> = Vec::new();
                jobs.push(job);
                self.files.push(FileJobs { uri: uri.to_string(), jobs });
                proof {
                    let n = old(self).files.len() as int;
                    assert(jobs_view(self.files[n].jobs@) =~= Seq::<JobView>::empty().push(fresh));
                    assert forall|a: int| 0 <= a < n implies self.files[a] == old(self).files[a] by {}
                    assert forall|a: int| 0 <= a < n implies self.files[a].uri@ != uri@ by {
                        assert(!old(self).holds(a, uri@));
                    }
                    assert forall|a: int| 0 <= a < self.files.len() implies 0 < (
                    #[trigger] self.files[a]).jobs.len() <= MAX_CONCURRENT_JOBS_PER_FILE
                        && distinct_ids(jobs_view(self.files[a].jobs@)) by {
                        if a < n {
                            assert(self.files[a] == old(self).files[a]);
                        }
                    }
                    assert(self.wf());
                    self.lemma_jobs_at(n);
                    assert(!has_job(Seq::<JobView>::empty(), job_id@));
                    assert forall|u: Seq<char>| u != uri@ implies self.jobs(u) == old(
                        self,
                    ).jobs(u) by {
                        if exists|k: int| old(self).holds(k, u) {
                            let k = choose|k: int| old(self).holds(k, u);
                            assert(self.holds(k, u));
                            old(self).lemma_jobs_at(k);
                            self.lemma_jobs_at(k);
                        } else {
                            assert forall|k: int| !self.holds(k, u) by {
                                if self.holds(k, u) {
                                    assert(old(self).holds(k, u));
                                }
                            }
                        }
                    }
                }
                Ok(())
            },
        }
    }

    /// How many jobs are under way on the document `uri`.
    pub fn active_job_count(&self, uri: &str) -> (n: usize)
        requires
            self.wf(),
        ensures
            n == self.jobs(uri@).len(),
            n <= MAX_CONCURRENT_JOBS_PER_FILE,
    {
        match self.find_file(uri) {
            Some(i) => {
                proof {
                    self.lemma_jobs_at(i as int);
                }
                self.files[i].jobs.len()
            },
            None => 0,
        }
    }

    /// Whether the job `job_id` is under way on the document `uri`.
    pub open spec fn tracks(&self, uri: Seq<char>, job_id: Seq<char>) -> bool {
        has_job(self.jobs(uri), job_id)
    }

    /// The job `job_id` of the document `uri`.
    pub open spec fn job_record(&self, uri: Seq<char>, job_id: Seq<char>) -> JobView {
        job_in(self.jobs(uri), job_id)
    }

    /// The job `job_id` of the document `uri`, if it is under way there.
    pub fn get_job(&self, uri: &str, job_id: &str) -> (r: Option<ActiveJob>)
        requires
            self.wf(),
        ensures
            match r {
                Some(job) => self.tracks(uri@, job_id@) && job@ == self.job_record(
                    uri@,
                    job_id@,
                ),
                None => !self.tracks(uri@, job_id@),
            },
    {
        let i = match self.find_file(uri) {
            Some(i) => i,
            None => {
                assert(!has_job(Seq::<JobView>::empty(), job_id@));
                return None;
            },
        };
        proof {
            self.lemma_jobs_at(i as int);
        }
        match find_job(&self.files[i].jobs, job_id) {
            Some(k) => {
                proof {
                    let jobs = jobs_view(self.files[i as int].jobs@);
                    let c = choose|c: int| is_job_at(jobs, c, job_id@);
                    assert(is_job_at(jobs, k as int, job_id@));
                    assert(c == k);
                }
                Some(
                    ActiveJob {
                        job_id: self.files[i].jobs[k].job_id.clone(),
                        original_line: self.files[i].jobs[k].original_line,
                        current_line: self.files[i].jobs[k].current_line,
                        function_signature: self.files[i].jobs[k].function_signature.clone(),
                    },
                )
            },
            None => None,
        }
    }

    /// The file, and the place in it, of the first job `job_id`.
    fn find_anywhere(&self, job_id: &str) -> (r: Option<(usize, usize)>)
        requires
            self.wf(),
        ensures
            match r {
                Some((i, k)) => i < self.files.len() && k < self.files[i as int].jobs.len()
                    && self.files[i as int].jobs[k as int].job_id@ == job_id@ && self.tracks(
                    self.files[i as int].uri@,
                    job_id@,
                ) && self.job_record(self.files[i as int].uri@, job_id@)
                    == self.files[i as int].jobs[k as int]@,
                None => forall|u: Seq<char>| !self.tracks(u, job_id@),
            },
    {
        let mut i: usize = 0;
        while i < self.files.len()
            invariant
                i <= self.files.len(),
                self.wf(),
                forall|a: int|
                    0 <= a < i ==> !has_job(jobs_view(self.files[a].jobs@), job_id@),
            decreases self.files.len() - i,
        {
            if let Some(k) = find_job(&self.files[i].jobs, job_id) {
                proof {
                    self.lemma_jobs_at(i as int);
                    let jobs = jobs_view(self.files[i as int].jobs@);
                    let c = choose|c: int| is_job_at(jobs, c, job_id@);
                    assert(is_job_at(jobs, k as int, job_id@));
                    assert(c == k);
                }
                return Some((i, k));
            }
            i += 1;
        }
        proof {
            assert forall|u: Seq<char>| !self.tracks(u, job_id@) by {
                if exists|a: int| self.holds(a, u) {
                    let a = choose|a: int| self.holds(a, u);
                    self.lemma_jobs_at(a);
                } else {
                    assert(!has_job(Seq::<JobView>::empty(), job_id@));
                }
            }
        }
        None
    }

    /// The line at which the job `job_id` is tracked now. Where the
    /// identifier is in use on several documents, the line is that of one
    /// of these jobs.
    pub fn get_current_line(&self, job_id: &str) -> (r: Option<u32>)
        requires
            self.wf(),
        ensures
            match r {
                Some(line) => exists|u: Seq<char>|
                    self.tracks(u, job_id@) && self.job_record(u, job_id@).current_line == line,
                None => forall|u: Seq<char>| !self.tracks(u, job_id@),
            },
    {
        match self.find_anywhere(job_id) {
            Some((i, k)) => Some(self.files[i].jobs[k].current_line),
            None => None,
        }
    }

    /// The signature that the job `job_id` was registered with. Where the
    /// identifier is in use on several documents, the signature is that of
    /// one of these jobs.
    pub fn get_function_signature(&self, job_id: &str) -> (r: Option<String>)
        requires
            self.wf(),
        ensures
            match r {
                Some(signature) => exists|u: Seq<char>|
                    self.tracks(u, job_id@) && self.job_record(u, job_id@).function_signature
                        == signature@,
                None => forall|u: Seq<char>| !self.tracks(u, job_id@),
            },
    {
        match self.find_anywhere(job_id) {
            Some((i, k)) => Some(self.files[i].jobs[k].function_signature.clone()),
            None => None,
        }
    }

    /// Moves the jobs of the document `uri` after an edit that ended on
    /// line `edit_end_line` and moved the text below it by `lines_delta`
    /// lines. Every job below the edit, but the job `excluding_job_id`,
    /// moves by as many lines; its line stays within the line numbers. A
    /// job at or above the last line of the edit stays where it is, also
    /// one inside the edit: it is found again by its signature.
    pub fn adjust_lines_for_edit(
        &mut self,
        uri: &str,
        edit_start_line: u32,
        edit_end_line: u32,
        lines_delta: i32,
        excluding_job_id: &str,
    )
        requires
            old(self).wf(),
        ensures
            final(self).wf(),
            final(self).jobs(uri@) == adjusted_jobs(
                old(self).jobs(uri@),
                edit_end_line,
                lines_delta,
                excluding_job_id@,
            ),
            forall|u: Seq<char>| u != uri@ ==> final(self).jobs(u) == old(self).jobs(u),
    {
        let i = match self.find_file(uri) {
            Some(i) => i,
            None => {
                assert(adjusted_jobs(
                    Seq::<JobView>::empty(),
                    edit_end_line,
                    lines_delta,
                    excluding_job_id@,
                ) =~= Seq::<JobView>::empty());
                return ;
            },
        };
        let ghost before = jobs_view(self.files[i as int].jobs@);
        proof {
            self.lemma_jobs_at(i as int);
        }
        let n = self.files[i].jobs.len();
        let mut k: usize = 0;
        while k < n
            invariant
                k <= n,
                i < self.files.len(),
                self.files.len() == old(self).files.len(),
                n == self.files[i as int].jobs.len(),
                n == before.len(),
                forall|a: int|
                    0 <= a < self.files.len() && a != i ==> self.files[a] == old(self).files[a],
                self.files[i as int].uri == old(self).files[i as int].uri,
                forall|a: int|
                    0 <= a < k ==> (#[trigger] self.files[i as int].jobs[a])@ == adjusted_job(
                        before[a],
                        edit_end_line,
                        lines_delta,
                        excluding_job_id@,
                    ),
                forall|a: int|
                    k <= a < n ==> (#[trigger] self.files[i as int].jobs[a])@ == before[a],
            decreases n - k,
        {
            let excluded = str_eq(self.files[i].jobs[k].job_id.as_str(), excluding_job_id);
            let current = self.files[i].jobs[k].current_line;
            if !excluded && current > edit_end_line {
                self.files[i].jobs[k].current_line = shift_line(current, lines_delta);
            }
            k += 1;
        }
        proof {
            let after = jobs_view(self.files[i as int].jobs@);
            assert(after =~= adjusted_jobs(
                before,
                edit_end_line,
                lines_delta,
                excluding_job_id@,
            ));
            assert(distinct_ids(before));
            assert(distinct_ids(after)) by {
                assert forall|a: int, b: int| 0 <= a < b < after.len() implies after[a].job_id
                    != after[b].job_id by {
                    assert(before[a].job_id != before[b].job_id);
                }
            }
            assert forall|a: int| 0 <= a < self.files.len() implies 0 < (
            #[trigger] self.files[a]).jobs.len() <= MAX_CONCURRENT_JOBS_PER_FILE && distinct_ids(
                jobs_view(self.files[a].jobs@),
            ) by {
                if a != i {
                    assert(self.files[a] == old(self).files[a]);
                }
            }
            assert(self.wf());
            self.lemma_jobs_at(i as int);
            old(self).lemma_same_elsewhere(self, i as int);
        }
    }

    /// Ends the tracking of the job `job_id` of the document `uri`. A
    /// document whose last job ends has no entry any more.
    pub fn complete_job(&mut self, uri: &str, job_id: &str)
        requires
            old(self).wf(),
        ensures
            final(self).wf(),
            final(self).jobs(uri@) == without_job(old(self).jobs(uri@), job_id@),
            forall|u: Seq<char>| u != uri@ ==> final(self).jobs(u) == old(self).jobs(u),
    {
        let i = match self.find_file(uri) {
            Some(i) => i,
            None => {
                assert(!has_job(Seq::<JobView>::empty(), job_id@));
                return ;
            },
        };
        let ghost before = jobs_view(self.files[i as int].jobs@);
        proof {
            self.lemma_jobs_at(i as int);
        }
        let k = match find_job(&self.files[i].jobs, job_id) {
            Some(k) => k,
            None => {
                return ;
            },
        };
        proof {
            let c = choose|c: int| is_job_at(before, c, job_id@);
            assert(c == k);
        }
        self.files[i].jobs.remove(k);
        let ghost after = jobs_view(self.files[i as int].jobs@);
        proof {
            assert(after =~= before.remove(k as int));
            assert(distinct_ids(after)) by {
                assert forall|a: int, b: int| 0 <= a < b < after.len() implies after[a].job_id
                    != after[b].job_id by {
                    let a0 = if a < k { a } else { a + 1 };
                    let b0 = if b < k { b } else { b + 1 };
                    assert(before[a0].job_id != before[b0].job_id);
                }
            }
            assert forall|a: int| 0 <= a < self.files.len() && a != i implies self.files[a] == old(
                self,
            ).files[a] by {}
        }
        if self.files[i].jobs.len() == 0 {
            self.files.remove(i);
            proof {
                assert forall|a: int| 0 <= a < self.files.len() implies self.files[a] == old(
                    self,
                ).files[if a < i { a } else { a + 1 }] by {}
                assert forall|a: int| 0 <= a < self.files.len() implies 0 < (
                #[trigger] self.files[a]).jobs.len() <= MAX_CONCURRENT_JOBS_PER_FILE
                    && distinct_ids(jobs_view(self.files[a].jobs@)) by {
                    let a0 = if a < i { a } else { a + 1 };
                    assert(self.files[a] == old(self).files[a0]);
                }
                assert(self.wf());
                assert forall|a: int| !self.holds(a, uri@) by {
                    if self.holds(a, uri@) {
                        let a0 = if a < i { a } else { a + 1 };
                        assert(old(self).holds(a0, uri@));
                        assert(old(self).holds(i as int, uri@));
                    }
                }
                assert(after =~= Seq::<JobView>::empty());
                assert forall|u: Seq<char>| u != uri@ implies self.jobs(u) == old(self).jobs(
                    u,
                ) by {
                    if exists|a: int| old(self).holds(a, u) {
                        let a0 = choose|a: int| old(self).holds(a, u);
                        let a = if a0 < i { a0 } else { a0 - 1 };
                        assert(self.holds(a, u));
                        old(self).lemma_jobs_at(a0);
                        self.lemma_jobs_at(a);
                    } else {
                        assert forall|a: int| !self.holds(a, u) by {
                            if self.holds(a, u) {
                                let a0 = if a < i { a } else { a + 1 };
                                assert(old(self).holds(a0, u));
                            }
                        }
                    }
                }
            }
        } else {
            proof {
                assert forall|a: int| 0 <= a < self.files.len() implies 0 < (
                #[trigger] self.files[a]).jobs.len() <= MAX_CONCURRENT_JOBS_PER_FILE
                    && distinct_ids(jobs_view(self.files[a].jobs@)) by {
                    if a != i {
                        assert(self.files[a] == old(self).files[a]);
                    }
                }
                assert(self.wf());
                self.lemma_jobs_at(i as int);
                old(self).lemma_same_elsewhere(self, i as int);
            }
        }
    }

    /// The identifier and the current line of every job of the document
    /// `uri`, in the order in which the jobs were registered.
    pub fn get_active_jobs(&self, uri: &str) -> (r: Vec<(String, u32)>)
        requires
            self.wf(),
        ensures
            r.len() == self.jobs(uri@).len(),
            forall|k: int|
                0 <= k < r.len() ==> (#[trigger] r[k]).0@ == self.jobs(uri@)[k].job_id && r[k].1
                    == self.jobs(uri@)[k].current_line,
    {
        let mut out: Vec<(String, u32)> = Vec::new();
        let i = match self.find_file(uri) {
            Some(i) => i,
            None => {
                return out;
            },
        };
        proof {
            self.lemma_jobs_at(i as int);
        }
        let mut k: usize = 0;
        while k < self.files[i].jobs.len()
            invariant
                i < self.files.len(),
                k <= self.files[i as int].jobs.len(),
                out.len() == k,
                forall|a: int|
                    0 <= a < k ==> (#[trigger] out[a]).0@ == self.files[i as int].jobs[a].job_id@
                        && out[a].1 == self.files[i as int].jobs[a].current_line,
            decreases self.files[i as int].jobs.len() - k,
        {
            out.push((self.files[i].jobs[k].job_id.clone(), self.files[i].jobs[k].current_line));
            k += 1;
        }
        out
    }

    fn find_file(&self, uri: &str) -> (r: Option<usize>)
        ensures
            match r {
                Some(i) => self.holds(i as int, uri@),
                None => forall|i: int| !self.holds(i, uri@),
            },
    {
        let mut i: usize = 0;
        while i < self.files.len()
            invariant
                i <= self.files.len(),
                forall|k: int| 0 <= k < i ==> !self.holds(k, uri@),
            decreases self.files.len() - i,
        {
            if str_eq(self.files[i].uri.as_str(), uri) {
                return Some(i);
            }
            i += 1;
        }
        None
    }
}

/// The line `line` moved by `delta` lines, kept within the line numbers.
fn shift_line(line: u32, delta: i32) -> (r: u32)
    ensures
        r == shifted_line(line, delta),
{
    let moved: i64 = line as i64 + delta as i64;
    if moved < 0 {
        0
    } else if moved > 0xffff_ffff {
        0xffff_ffff
    } else {
        moved as u32
    }
}

impl Default for JobTracker {
    fn default() -> (r: Self)
        ensures
            r.wf(),
            forall|uri: Seq<char>| r.jobs(uri) == Seq::<JobView>::empty(),
    {
        JobTracker::new()
    }
}

fn find_job(jobs: &Vec<ActiveJob>, job_id: &str) -> (r: Option<usize>)
    ensures
        match r {
            Some(k) => is_job_at(jobs_view(jobs@), k as int, job_id@) && forall|j: int|
                0 <= j < k ==> !is_job_at(jobs_view(jobs@), j, job_id@),
            None => !has_job(jobs_view(jobs@), job_id@),
        },
{
    let mut k: usize = 0;
    while k < jobs.len()
        invariant
            k <= jobs.len(),
            forall|j: int| 0 <= j < k ==> !is_job_at(jobs_view(jobs@), j, job_id@),
        decreases jobs.len() - k,
    {
        if str_eq(jobs[k].job_id.as_str(), job_id) {
            return Some(k);
        }
        k += 1;
    }
    None
}

// ---------------------------------------------------------------------------
// What holds of the registry
// ---------------------------------------------------------------------------

/// No document ever has more jobs under way than
/// `MAX_CONCURRENT_JOBS_PER_FILE`, and no two of them have the same
/// identifier.
pub proof fn lemma_capacity(tracker: JobTracker, uri: Seq<char>)
    requires
        tracker.wf(),
    ensures
        tracker.jobs(uri).len() <= MAX_CONCURRENT_JOBS_PER_FILE,
        distinct_ids(tracker.jobs(uri)),
{
    if exists|i: int| tracker.holds(i, uri) {
        let i = choose|i: int| tracker.holds(i, uri);
        tracker.lemma_jobs_at(i);
    }
}

/// Where no two jobs have the same identifier, the job with the identifier
/// `job_id` is the one at the index at which that identifier stands:
/// registering a job with it replaces that one, and ending it removes that
/// one.
pub proof fn lemma_job_at(jobs: Seq<JobView>, k: int, job: JobView)
    requires
        distinct_ids(jobs),
        is_job_at(jobs, k, job.job_id),
    ensures
        has_job(jobs, job.job_id),
        job_in(jobs, job.job_id) == jobs[k],
        with_job(jobs, job) == jobs.update(k, job),
        without_job(jobs, job.job_id) == jobs.remove(k),
{
    let c = choose|c: int| is_job_at(jobs, c, job.job_id);
    assert(c == k);
}

/// Where a job identifier is in use on one document only, a job that is
/// found by that identifier is the job of that document.
pub proof fn lemma_found_on_its_document(
    tracker: JobTracker,
    uri: Seq<char>,
    job_id: Seq<char>,
    line: u32,
)
    requires
        forall|u: Seq<char>| tracker.tracks(u, job_id) ==> u == uri,
        exists|u: Seq<char>|
            tracker.tracks(u, job_id) && tracker.job_record(u, job_id).current_line == line,
    ensures
        tracker.tracks(uri, job_id),
        tracker.job_record(uri, job_id).current_line == line,
{
}

/// What the edit of one job does to the job at index `k` of its document.
///
/// A job below the edit, other than the job whose edit it is, moves by
/// `delta` lines, where that line is a line number. A job at or above the
/// last line of the edit, and so every job inside the edit, stays as it is,
/// and so does the job whose edit it is. No job changes its identifier, the
/// line it was registered at, or its signature.
pub proof fn lemma_adjusted(
    jobs: Seq<JobView>,
    edit_start: u32,
    edit_end: u32,
    delta: i32,
    excluded: Seq<char>,
    k: int,
)
    requires
        0 <= k < jobs.len(),
    ensures
        adjusted_jobs(jobs, edit_end, delta, excluded).len() == jobs.len(),
        jobs[k].job_id != excluded && jobs[k].current_line > edit_end && 0
            <= jobs[k].current_line + delta <= u32::MAX ==> adjusted_jobs(
            jobs,
            edit_end,
            delta,
            excluded,
        )[k].current_line == jobs[k].current_line + delta,
        jobs[k].current_line <= edit_end ==> adjusted_jobs(jobs, edit_end, delta, excluded)[k]
            == jobs[k],
        edit_start <= jobs[k].current_line <= edit_end ==> adjusted_jobs(
            jobs,
            edit_end,
            delta,
            excluded,
        )[k] == jobs[k],
        jobs[k].job_id == excluded ==> adjusted_jobs(jobs, edit_end, delta, excluded)[k]
            == jobs[k],
        adjusted_jobs(jobs, edit_end, delta, excluded)[k].job_id == jobs[k].job_id,
        adjusted_jobs(jobs, edit_end, delta, excluded)[k].original_line
            == jobs[k].original_line,
        adjusted_jobs(jobs, edit_end, delta, excluded)[k].function_signature
            == jobs[k].function_signature,
{
}

} // verus!
