//! The job store: durable rows for jobs, users and contests, with the
//! queries the dispatcher, the judger and the ranklist engine make.
//!
//! Ids are dense: job and user ids start at 0, contest ids at 1 (0 is the
//! global pseudo-contest), and every id equals its row's position. The store
//! is an in-memory value; the surrounding application persists snapshots of
//! it.

use vstd::prelude::*;

use crate::error::{Error, Reason};
use crate::jobs::{Job, JobResult, JobStatus};

verus! {

/// A registered user.
#[derive(Debug)]
pub struct User {
    pub id: u32,
    pub user_name: String,
}

impl Clone for User {
    fn clone(&self) -> (r: Self)
        ensures
            r == *self,
    {
        User { id: self.id, user_name: self.user_name.clone() }
    }
}

/// A request to create or rename a user: with an id it renames that user,
/// without one it creates a user under the next free id.
#[derive(Debug)]
pub struct UserForm {
    pub id: Option<u32>,
    pub user_name: String,
}

/// A contest: a time window, the users allowed into it, the problems posed in
/// it, and a per-problem submission allowance. Times are UTC microseconds.
#[derive(Debug)]
pub struct Contest {
    pub id: u32,
    pub name: String,
    pub from: i64,
    pub to: i64,
    pub problem_ids: Vec<u32>,
    pub user_ids: Vec<u32>,
    pub submission_limit: u32,
}

/// Two contests that agree on every field, `Vec` fields compared by contents.
pub open spec fn contest_eqv(a: Contest, b: Contest) -> bool {
    &&& a.id == b.id
    &&& a.name == b.name
    &&& a.from == b.from
    &&& a.to == b.to
    &&& a.problem_ids@ == b.problem_ids@
    &&& a.user_ids@ == b.user_ids@
    &&& a.submission_limit == b.submission_limit
}

impl Clone for Contest {
    fn clone(&self) -> (r: Self)
        ensures
            contest_eqv(r, *self),
    {
        let problem_ids = self.problem_ids.clone();
        let user_ids = self.user_ids.clone();
        proof {
            assert(problem_ids@ =~= self.problem_ids@);
            assert(user_ids@ =~= self.user_ids@);
        }
        Contest {
            id: self.id,
            name: self.name.clone(),
            from: self.from,
            to: self.to,
            problem_ids,
            user_ids,
            submission_limit: self.submission_limit,
        }
    }
}

/// The optional conditions of a job query; they are AND-combined.
/// `from` and `to` bound `created_time` inclusively.
#[derive(Debug)]
pub struct JobFilter {
    pub user_id: Option<u32>,
    pub user_name: Option<String>,
    pub contest_id: Option<u32>,
    pub problem_id: Option<u32>,
    pub language: Option<String>,
    pub from: Option<i64>,
    pub to: Option<i64>,
    pub state: Option<JobStatus>,
    pub result: Option<JobResult>,
}

impl Default for JobFilter {
    /// The filter with no conditions: it matches every job.
    fn default() -> (r: Self)
        ensures
            r.user_id is None,
            r.user_name is None,
            r.contest_id is None,
            r.problem_id is None,
            r.language is None,
            r.from is None,
            r.to is None,
            r.state is None,
            r.result is None,
    {
        JobFilter {
            user_id: None,
            user_name: None,
            contest_id: None,
            problem_id: None,
            language: None,
            from: None,
            to: None,
            state: None,
            result: None,
        }
    }
}

/// Whether `v` holds `x`.
pub fn contains_u32(v: &Vec<u32>, x: u32) -> (r: bool)
    ensures
        r == v@.contains(x),
{
    let mut i: usize = 0;
    while i < v.len()
        invariant
            i <= v.len(),
            forall|j: int| 0 <= j < i ==> v@[j] != x,
        decreases v.len() - i,
    {
        if v[i] == x {
            return true;
        }
        i = i + 1;
    }
    false
}

/// The id of the first user with the given name, if any.
pub open spec fn spec_id_by_username(users: Seq<User>, name: Seq<char>) -> Option<u32>
    decreases users.len(),
{
    if users.len() == 0 {
        None
    } else if users[0].user_name@ == name {
        Some(users[0].id)
    } else {
        spec_id_by_username(users.drop_first(), name)
    }
}

/// One unfolding of `spec_id_by_username` along a suffix of the user list.
proof fn lemma_id_by_username_step(users: Seq<User>, name: Seq<char>, i: int)
    requires
        0 <= i < users.len(),
    ensures
        spec_id_by_username(users.skip(i), name) == if users[i].user_name@ == name {
            Some(users[i].id)
        } else {
            spec_id_by_username(users.skip(i + 1), name)
        },
{
    assert(users.skip(i)[0] == users[i]);
    assert(users.skip(i).drop_first() =~= users.skip(i + 1));
}

/// A name that resolves to an id names an actual user row.
proof fn lemma_id_by_username_member(users: Seq<User>, name: Seq<char>)
    ensures
        match spec_id_by_username(users, name) {
            Some(u) => exists|k: int|
                0 <= k < users.len() && (#[trigger] users[k]).id == u && users[k].user_name@
                    == name,
            None => true,
        },
    decreases users.len(),
{
    if users.len() > 0 {
        if users[0].user_name@ == name {
            assert(users[0].id == spec_id_by_username(users, name)->Some_0);
        } else {
            lemma_id_by_username_member(users.drop_first(), name);
            match spec_id_by_username(users.drop_first(), name) {
                Some(u) => {
                    let k = choose|k: int|
                        0 <= k < users.drop_first().len() && (#[trigger] users.drop_first()[
                            k
                        ]).id == u && users.drop_first()[k].user_name@ == name;
                    assert(users[k + 1] == users.drop_first()[k]);
                },
                None => {},
            }
        }
    }
}

/// Whether a job carries the given user, problem and contest.
pub open spec fn triple_matches(j: Job, uid: u32, pid: u32, cid: u32) -> bool {
    &&& j.submission.user_id == uid
    &&& j.submission.problem_id == pid
    &&& j.submission.contest_id == cid
}

/// Whether a job passes every condition of a filter. A `user_name` naming no
/// user matches nothing.
pub open spec fn filter_matches(j: Job, f: JobFilter, users: Seq<User>) -> bool {
    &&& (f.user_id matches Some(u) ==> j.submission.user_id == u)
    &&& (f.user_name matches Some(n) ==> match spec_id_by_username(users, n@) {
        Some(u) => j.submission.user_id == u,
        None => false,
    })
    &&& (f.contest_id matches Some(c) ==> j.submission.contest_id == c)
    &&& (f.problem_id matches Some(p) ==> j.submission.problem_id == p)
    &&& (f.language matches Some(l) ==> j.submission.language@ == l@)
    &&& (f.from matches Some(t) ==> j.created_time >= t)
    &&& (f.to matches Some(t) ==> j.created_time <= t)
    &&& (f.state matches Some(s) ==> j.state == s)
    &&& (f.result matches Some(r) ==> j.result == r)
}

/// `a` is a more recent submission than `b`: created later, or created at the
/// same instant but stored under a smaller id.
pub open spec fn latest_pref(a: Job, b: Job) -> bool {
    ||| a.created_time > b.created_time
    ||| (a.created_time == b.created_time && a.id < b.id)
}

/// `a` is a better-scoring submission than `b`: higher score; among equal
/// scores, created earlier; then stored under a smaller id.
pub open spec fn highest_pref(a: Job, b: Job) -> bool {
    ||| a.score > b.score
    ||| (a.score == b.score && a.created_time < b.created_time)
    ||| (a.score == b.score && a.created_time == b.created_time && a.id < b.id)
}

/// The store: every job, user and contest, each at the row its id names.
#[derive(Debug)]
pub struct JobStore {
    pub jobs: Vec<Job>,
    pub users: Vec<User>,
    pub contests: Vec<Contest>,
}

impl JobStore {
    /// Ids are dense and within range: job and user ids equal their row
    /// positions, contest ids their row positions plus one.
    pub open spec fn wf(&self) -> bool {
        &&& self.jobs.len() <= u32::MAX
        &&& (forall|i: int| 0 <= i < self.jobs.len() ==> (#[trigger] self.jobs@[i]).id == i)
        &&& self.users.len() <= u32::MAX
        &&& (forall|i: int| 0 <= i < self.users.len() ==> (#[trigger] self.users@[i]).id == i)
        &&& self.contests.len() <= u32::MAX
        &&& (forall|i: int|
            0 <= i < self.contests.len() ==> (#[trigger] self.contests@[i]).id == i + 1)
    }

    /// An empty store.
    pub fn new() -> (r: JobStore)
        ensures
            r.wf(),
            r.jobs@ == Seq::<Job>::empty(),
            r.users@ == Seq::<User>::empty(),
            r.contests@ == Seq::<Contest>::empty(),
    {
        JobStore { jobs: Vec::new(), users: Vec::new(), contests: Vec::new() }
    }

    /// Whether the store is well-formed: run over data loaded from outside
    /// before the store's operations are used on it.
    pub fn check_wf(&self) -> (r: bool)
        ensures
            r == self.wf(),
    {
        if self.jobs.len() > (u32::MAX as usize) {
            return false;
        }
        if self.users.len() > (u32::MAX as usize) {
            return false;
        }
        if self.contests.len() > (u32::MAX as usize) {
            return false;
        }
        let mut i: usize = 0;
        while i < self.jobs.len()
            invariant
                i <= self.jobs.len(),
                self.jobs.len() <= u32::MAX,
                self.users.len() <= u32::MAX,
                self.contests.len() <= u32::MAX,
                forall|k: int| 0 <= k < i ==> (#[trigger] self.jobs@[k]).id == k,
            decreases self.jobs.len() - i,
        {
            if self.jobs[i].id != (i as u32) {
                return false;
            }
            i = i + 1;
        }
        let mut i: usize = 0;
        while i < self.users.len()
            invariant
                i <= self.users.len(),
                self.jobs.len() <= u32::MAX,
                self.users.len() <= u32::MAX,
                self.contests.len() <= u32::MAX,
                forall|k: int| 0 <= k < self.jobs.len() ==> (#[trigger] self.jobs@[k]).id == k,
                forall|k: int| 0 <= k < i ==> (#[trigger] self.users@[k]).id == k,
            decreases self.users.len() - i,
        {
            if self.users[i].id != (i as u32) {
                return false;
            }
            i = i + 1;
        }
        let mut i: usize = 0;
        while i < self.contests.len()
            invariant
                i <= self.contests.len(),
                self.jobs.len() <= u32::MAX,
                self.users.len() <= u32::MAX,
                self.contests.len() <= u32::MAX,
                forall|k: int| 0 <= k < self.jobs.len() ==> (#[trigger] self.jobs@[k]).id == k,
                forall|k: int| 0 <= k < self.users.len() ==> (#[trigger] self.users@[k]).id == k,
                forall|k: int| 0 <= k < i ==> (#[trigger] self.contests@[k]).id == k + 1,
            decreases self.contests.len() - i,
        {
            if self.contests[i].id != ((i + 1) as u32) {
                return false;
            }
            i = i + 1;
        }
        true
    }

    /// The number of jobs, which is also the next free job id.
    pub fn jobs_count(&self) -> (r: u32)
        requires
            self.wf(),
        ensures
            r == self.jobs.len(),
    {
        self.jobs.len() as u32
    }

    /// Whether a job with this id exists.
    pub fn does_job_exist(&self, jid: u32) -> (r: bool)
        requires
            self.wf(),
        ensures
            r == (jid < self.jobs.len()),
    {
        (jid as usize) < self.jobs.len()
    }

    /// Insert a job; its id must be the next free one.
    pub fn new_job(&mut self, job: Job)
        requires
            old(self).wf(),
            old(self).jobs.len() < u32::MAX,
            job.id == old(self).jobs.len(),
        ensures
            final(self).wf(),
            final(self).jobs@ == old(self).jobs@.push(job),
            final(self).users == old(self).users,
            final(self).contests == old(self).contests,
    {
        self.jobs.push(job);
    }

    /// Read a job by id.
    pub fn get_job(&self, jid: u32) -> (r: Result<&Job, Error>)
        requires
            self.wf(),
        ensures
            match r {
                Ok(j) => jid < self.jobs.len() && *j == self.jobs@[jid as int],
                Err(e) => {
                    &&& jid >= self.jobs.len()
                    &&& e.reason == Reason::NotFound
                    &&& e.code == crate::error::code_of(Reason::NotFound)
                    &&& e.message@ == "Job not found."@
                },
            },
    {
        if (jid as usize) < self.jobs.len() {
            Ok(&self.jobs[jid as usize])
        } else {
            Err(Error::new(Reason::NotFound, "Job not found.".to_owned()))
        }
    }

    /// Replace the job row with the given job's id.
    pub fn update_job(&mut self, job: Job) -> (r: Result<(), Error>)
        requires
            old(self).wf(),
        ensures
            final(self).wf(),
            final(self).users == old(self).users,
            final(self).contests == old(self).contests,
            match r {
                Ok(()) => job.id < old(self).jobs.len() && final(self).jobs@ == old(
                    self,
                ).jobs@.update(job.id as int, job),
                Err(e) => {
                    &&& job.id >= old(self).jobs.len()
                    &&& final(self).jobs == old(self).jobs
                    &&& e.reason == Reason::NotFound
                    &&& e.code == crate::error::code_of(Reason::NotFound)
                    &&& e.message@ == "Job not found."@
                },
            },
    {
        let jid = job.id;
        if (jid as usize) < self.jobs.len() {
            self.jobs.set(jid as usize, job);
            Ok(())
        } else {
            Err(Error::new(Reason::NotFound, "Job not found.".to_owned()))
        }
    }

    /// Whether one job passes every condition of a filter, `resolved` being
    /// the id the filter's `user_name` resolves to.
    fn job_matches(j: &Job, f: &JobFilter, resolved: &Option<u32>, users: Ghost<Seq<User>>) -> (r:
        bool)
        requires
            match f.user_name {
                Some(n) => *resolved == spec_id_by_username(users@, n@),
                None => true,
            },
        ensures
            r == filter_matches(*j, *f, users@),
    {
        let mut ok = true;
        match f.user_id {
            Some(u) => {
                if j.submission.user_id != u {
                    ok = false;
                }
            },
            None => {},
        }
        match &f.user_name {
            Some(_) => {
                match resolved {
                    Some(u) => {
                        if j.submission.user_id != *u {
                            ok = false;
                        }
                    },
                    None => {
                        ok = false;
                    },
                }
            },
            None => {},
        }
        match f.contest_id {
            Some(c) => {
                if j.submission.contest_id != c {
                    ok = false;
                }
            },
            None => {},
        }
        match f.problem_id {
            Some(p) => {
                if j.submission.problem_id != p {
                    ok = false;
                }
            },
            None => {},
        }
        match &f.language {
            Some(l) => {
                if !(j.submission.language == *l) {
                    ok = false;
                }
            },
            None => {},
        }
        match f.from {
            Some(t) => {
                if j.created_time < t {
                    ok = false;
                }
            },
            None => {},
        }
        match f.to {
            Some(t) => {
                if j.created_time > t {
                    ok = false;
                }
            },
            None => {},
        }
        match f.state {
            Some(s) => {
                if j.state != s {
                    ok = false;
                }
            },
            None => {},
        }
        match f.result {
            Some(res) => {
                if j.result != res {
                    ok = false;
                }
            },
            None => {},
        }
        ok
    }

    /// The jobs that pass every condition of the filter, in id order.
    pub fn get_jobs(&self, f: &JobFilter) -> (r: Vec<&Job>)
        requires
            self.wf(),
        ensures
            r@.map_values(|j: &Job| *j) == self.jobs@.filter(
                |j: Job| filter_matches(j, *f, self.users@),
            ),
    {
        let ghost pred = |j: Job| filter_matches(j, *f, self.users@);
        let resolved: Option<u32> = match &f.user_name {
            Some(n) => self.get_id_by_username(n),
            None => None,
        };
        let mut out: Vec<&Job> = Vec::new();
        proof {
            assert(out@.map_values(|j: &Job| *j) =~= self.jobs@.take(0).filter(pred));
        }
        let mut i: usize = 0;
        while i < self.jobs.len()
            invariant
                i <= self.jobs.len(),
                self.wf(),
                match f.user_name {
                    Some(n) => resolved == spec_id_by_username(self.users@, n@),
                    None => true,
                },
                pred == (|j: Job| filter_matches(j, *f, self.users@)),
                out@.map_values(|j: &Job| *j) == self.jobs@.take(i as int).filter(pred),
            decreases self.jobs.len() - i,
        {
            proof {
                reveal(Seq::filter);
                assert(self.jobs@.take(i + 1).drop_last() =~= self.jobs@.take(i as int));
                assert(self.jobs@.take(i + 1).last() == self.jobs@[i as int]);
            }
            if Self::job_matches(&self.jobs[i], f, &resolved, Ghost(self.users@)) {
                out.push(&self.jobs[i]);
            }
            proof {
                assert(out@.map_values(|j: &Job| *j) =~= self.jobs@.take(i + 1).filter(pred));
            }
            i = i + 1;
        }
        proof {
            assert(self.jobs@.take(self.jobs.len() as int) =~= self.jobs@);
        }
        out
    }

    /// The most recent submission of a user on a problem in a contest: the
    /// job with the greatest `created_time` among those matching, ties going
    /// to the smallest id.
    pub fn get_latest_submission(&self, uid: u32, pid: u32, cid: u32) -> (r: Option<&Job>)
        requires
            self.wf(),
        ensures
            match r {
                None => forall|i: int|
                    0 <= i < self.jobs.len() ==> !triple_matches(
                        #[trigger] self.jobs@[i],
                        uid,
                        pid,
                        cid,
                    ),
                Some(j) => {
                    &&& j.id < self.jobs.len()
                    &&& *j == self.jobs@[j.id as int]
                    &&& triple_matches(*j, uid, pid, cid)
                    &&& forall|i: int|
                        0 <= i < self.jobs.len() && triple_matches(
                            #[trigger] self.jobs@[i],
                            uid,
                            pid,
                            cid,
                        ) ==> !latest_pref(self.jobs@[i], *j)
                },
            },
    {
        let mut best: Option<usize> = None;
        let mut i: usize = 0;
        while i < self.jobs.len()
            invariant
                i <= self.jobs.len(),
                self.wf(),
                match best {
                    None => forall|k: int|
                        0 <= k < i ==> !triple_matches(#[trigger] self.jobs@[k], uid, pid, cid),
                    Some(b) => {
                        &&& b < i
                        &&& triple_matches(self.jobs@[b as int], uid, pid, cid)
                        &&& forall|k: int|
                            0 <= k < i && triple_matches(
                                #[trigger] self.jobs@[k],
                                uid,
                                pid,
                                cid,
                            ) ==> !latest_pref(self.jobs@[k], self.jobs@[b as int])
                    },
                },
            decreases self.jobs.len() - i,
        {
            let j = &self.jobs[i];
            if j.submission.user_id == uid && j.submission.problem_id == pid
                && j.submission.contest_id == cid {
                match best {
                    None => {
                        best = Some(i);
                    },
                    Some(b) => {
                        let bj = &self.jobs[b];
                        if j.created_time > bj.created_time || (j.created_time == bj.created_time
                            && j.id < bj.id) {
                            best = Some(i);
                        }
                    },
                }
            }
            i = i + 1;
        }
        match best {
            None => None,
            Some(b) => Some(&self.jobs[b]),
        }
    }

    /// The best submission of a user on a problem in a contest: the job with
    /// the highest score among those matching, ties going to the earliest
    /// `created_time` and then to the smallest id.
    pub fn get_highest_submission(&self, uid: u32, pid: u32, cid: u32) -> (r: Option<&Job>)
        requires
            self.wf(),
        ensures
            match r {
                None => forall|i: int|
                    0 <= i < self.jobs.len() ==> !triple_matches(
                        #[trigger] self.jobs@[i],
                        uid,
                        pid,
                        cid,
                    ),
                Some(j) => {
                    &&& j.id < self.jobs.len()
                    &&& *j == self.jobs@[j.id as int]
                    &&& triple_matches(*j, uid, pid, cid)
                    &&& forall|i: int|
                        0 <= i < self.jobs.len() && triple_matches(
                            #[trigger] self.jobs@[i],
                            uid,
                            pid,
                            cid,
                        ) ==> !highest_pref(self.jobs@[i], *j)
                },
            },
    {
        let mut best: Option<usize> = None;
        let mut i: usize = 0;
        while i < self.jobs.len()
            invariant
                i <= self.jobs.len(),
                self.wf(),
                match best {
                    None => forall|k: int|
                        0 <= k < i ==> !triple_matches(#[trigger] self.jobs@[k], uid, pid, cid),
                    Some(b) => {
                        &&& b < i
                        &&& triple_matches(self.jobs@[b as int], uid, pid, cid)
                        &&& forall|k: int|
                            0 <= k < i && triple_matches(
                                #[trigger] self.jobs@[k],
                                uid,
                                pid,
                                cid,
                            ) ==> !highest_pref(self.jobs@[k], self.jobs@[b as int])
                    },
                },
            decreases self.jobs.len() - i,
        {
            let j = &self.jobs[i];
            if j.submission.user_id == uid && j.submission.problem_id == pid
                && j.submission.contest_id == cid {
                match best {
                    None => {
                        best = Some(i);
                    },
                    Some(b) => {
                        let bj = &self.jobs[b];
                        if j.score > bj.score || (j.score == bj.score && (j.created_time
                            < bj.created_time || (j.created_time == bj.created_time && j.id
                            < bj.id))) {
                            best = Some(i);
                        }
                    },
                }
            }
            i = i + 1;
        }
        match best {
            None => None,
            Some(b) => Some(&self.jobs[b]),
        }
    }

    /// How many submissions a user has made on a problem in a contest.
    pub fn get_submission_count(&self, uid: u32, pid: u32, cid: u32) -> (r: u64)
        requires
            self.wf(),
        ensures
            r == self.jobs@.filter(|j: Job| triple_matches(j, uid, pid, cid)).len(),
    {
        let ghost pred = |j: Job| triple_matches(j, uid, pid, cid);
        let mut count: u64 = 0;
        proof {
            assert(self.jobs@.take(0).filter(pred) =~= Seq::<Job>::empty());
        }
        let mut i: usize = 0;
        while i < self.jobs.len()
            invariant
                i <= self.jobs.len(),
                self.wf(),
                pred == (|j: Job| triple_matches(j, uid, pid, cid)),
                count == self.jobs@.take(i as int).filter(pred).len(),
                count <= i,
            decreases self.jobs.len() - i,
        {
            proof {
                reveal(Seq::filter);
                assert(self.jobs@.take(i + 1).drop_last() =~= self.jobs@.take(i as int));
                assert(self.jobs@.take(i + 1).last() == self.jobs@[i as int]);
            }
            let j = &self.jobs[i];
            if j.submission.user_id == uid && j.submission.problem_id == pid
                && j.submission.contest_id == cid {
                count = count + 1;
            }
            i = i + 1;
        }
        proof {
            assert(self.jobs@.take(self.jobs.len() as int) =~= self.jobs@);
        }
        count
    }

    /// The number of users, which is also the next free user id.
    pub fn user_count(&self) -> (r: u32)
        requires
            self.wf(),
        ensures
            r == self.users.len(),
    {
        self.users.len() as u32
    }

    /// Whether a user with this id exists.
    pub fn does_user_exist(&self, uid: u32) -> (r: bool)
        requires
            self.wf(),
        ensures
            r == (uid < self.users.len()),
    {
        (uid as usize) < self.users.len()
    }

    /// Read a user by id.
    pub fn get_user(&self, uid: u32) -> (r: Result<&User, Error>)
        requires
            self.wf(),
        ensures
            match r {
                Ok(u) => uid < self.users.len() && *u == self.users@[uid as int],
                Err(e) => {
                    &&& uid >= self.users.len()
                    &&& e.reason == Reason::NotFound
                    &&& e.code == crate::error::code_of(Reason::NotFound)
                    &&& e.message@ == "User not found."@
                },
            },
    {
        if (uid as usize) < self.users.len() {
            Ok(&self.users[uid as usize])
        } else {
            Err(Error::new(Reason::NotFound, "User not found.".to_owned()))
        }
    }

    /// All users, in id order.
    pub fn get_users(&self) -> (r: &Vec<User>)
        ensures
            r@ == self.users@,
    {
        &self.users
    }

    /// The users whose ids are listed, in id order.
    pub fn get_some_users(&self, ids: &Vec<u32>) -> (r: Vec<&User>)
        requires
            self.wf(),
        ensures
            r@.map_values(|u: &User| *u) == self.users@.filter(|u: User| ids@.contains(u.id)),
    {
        let ghost pred = |u: User| ids@.contains(u.id);
        let mut out: Vec<&User> = Vec::new();
        proof {
            assert(out@.map_values(|u: &User| *u) =~= self.users@.take(0).filter(pred));
        }
        let mut i: usize = 0;
        while i < self.users.len()
            invariant
                i <= self.users.len(),
                self.wf(),
                pred == (|u: User| ids@.contains(u.id)),
                out@.map_values(|u: &User| *u) == self.users@.take(i as int).filter(pred),
            decreases self.users.len() - i,
        {
            proof {
                reveal(Seq::filter);
                assert(self.users@.take(i + 1).drop_last() =~= self.users@.take(i as int));
                assert(self.users@.take(i + 1).last() == self.users@[i as int]);
            }
            if contains_u32(ids, self.users[i].id) {
                out.push(&self.users[i]);
            }
            proof {
                assert(out@.map_values(|u: &User| *u) =~= self.users@.take(i + 1).filter(pred));
            }
            i = i + 1;
        }
        proof {
            assert(self.users@.take(self.users.len() as int) =~= self.users@);
        }
        out
    }

    /// The id of the first user with the given name, if any.
    pub fn get_id_by_username(&self, name: &String) -> (r: Option<u32>)
        ensures
            r == spec_id_by_username(self.users@, name@),
    {
        proof {
            assert(self.users@.skip(0) =~= self.users@);
        }
        let mut i: usize = 0;
        while i < self.users.len()
            invariant
                i <= self.users.len(),
                spec_id_by_username(self.users@, name@) == spec_id_by_username(
                    self.users@.skip(i as int),
                    name@,
                ),
            decreases self.users.len() - i,
        {
            proof {
                lemma_id_by_username_step(self.users@, name@, i as int);
            }
            if self.users[i].user_name == *name {
                return Some(self.users[i].id);
            }
            i = i + 1;
        }
        proof {
            assert(self.users@.skip(i as int).len() == 0);
        }
        None
    }

    /// Create or rename a user.
    ///
    /// A name already carried by a different user is refused. With an id, the
    /// user under that id is renamed; without one, a user is created under
    /// the next free id. The affected user is returned.
    pub fn update_user(&mut self, form: UserForm) -> (r: Result<User, Error>)
        requires
            old(self).wf(),
            old(self).users.len() < u32::MAX,
        ensures
            final(self).wf(),
            final(self).jobs == old(self).jobs,
            final(self).contests == old(self).contests,
            match r {
                Ok(u) => {
                    &&& u.user_name == form.user_name
                    &&& match spec_id_by_username(old(self).users@, form.user_name@) {
                        Some(other) => form.id == Some(other),
                        None => true,
                    }
                    &&& match form.id {
                        Some(uid) => {
                            &&& uid < old(self).users.len()
                            &&& u.id == uid
                            &&& final(self).users@ == old(self).users@.update(
                                uid as int,
                                (User { id: uid, user_name: form.user_name }),
                            )
                        },
                        None => {
                            &&& u.id == old(self).users.len()
                            &&& final(self).users@ == old(self).users@.push(
                                (User { id: u.id, user_name: form.user_name }),
                            )
                        },
                    }
                },
                Err(e) => {
                    &&& final(self).users == old(self).users
                    &&& match spec_id_by_username(old(self).users@, form.user_name@) {
                        Some(other) => {
                            &&& form.id != Some(other)
                            &&& e.reason == Reason::InvalidArgument
                            &&& e.code == crate::error::code_of(Reason::InvalidArgument)
                            &&& e.message@ == "Username already exists."@
                        },
                        None => {
                            &&& form.id matches Some(uid) && uid >= old(self).users.len()
                            &&& e.reason == Reason::NotFound
                            &&& e.code == crate::error::code_of(Reason::NotFound)
                            &&& e.message@ == "User not found."@
                        },
                    }
                },
            },
    {
        // A name already in use is allowed only when it is the named user's
        // own.
        proof {
            lemma_id_by_username_member(self.users@, form.user_name@);
        }
        let existing = self.get_id_by_username(&form.user_name);
        match existing {
            Some(other) => {
                let same = match form.id {
                    Some(uid) => uid == other,
                    None => false,
                };
                if !same {
                    return Err(
                        Error::new(Reason::InvalidArgument, "Username already exists.".to_owned()),
                    );
                }
            },
            None => {},
        }
        match form.id {
            Some(uid) => {
                if (uid as usize) < self.users.len() {
                    let user = User { id: uid, user_name: form.user_name };
                    let copy = user.clone();
                    self.users.set(uid as usize, user);
                    Ok(copy)
                } else {
                    Err(Error::new(Reason::NotFound, "User not found.".to_owned()))
                }
            },
            None => {
                let uid = self.users.len() as u32;
                let user = User { id: uid, user_name: form.user_name };
                let copy = user.clone();
                self.users.push(user);
                Ok(copy)
            },
        }
    }

    /// The number of contests; the next free contest id is one more.
    pub fn contests_count(&self) -> (r: u32)
        requires
            self.wf(),
        ensures
            r == self.contests.len(),
    {
        self.contests.len() as u32
    }

    /// Whether a contest with this id exists.
    pub fn does_contest_exist(&self, cid: u32) -> (r: bool)
        requires
            self.wf(),
        ensures
            r == (1 <= cid && cid <= self.contests.len()),
    {
        1 <= cid && (cid as usize) <= self.contests.len()
    }

    /// Read a contest by id.
    pub fn get_contest(&self, cid: u32) -> (r: Result<&Contest, Error>)
        requires
            self.wf(),
        ensures
            match r {
                Ok(c) => 1 <= cid <= self.contests.len() && *c == self.contests@[cid - 1],
                Err(e) => {
                    &&& !(1 <= cid <= self.contests.len())
                    &&& e.reason == Reason::NotFound
                    &&& e.code == crate::error::code_of(Reason::NotFound)
                    &&& e.message@ == "Contest not found."@
                },
            },
    {
        if 1 <= cid && (cid as usize) <= self.contests.len() {
            Ok(&self.contests[(cid - 1) as usize])
        } else {
            Err(Error::new(Reason::NotFound, "Contest not found.".to_owned()))
        }
    }

    /// All contests, in id order.
    pub fn get_contests(&self) -> (r: &Vec<Contest>)
        ensures
            r@ == self.contests@,
    {
        &self.contests
    }

    /// Insert a contest; its id must be the next free one.
    pub fn new_contest(&mut self, contest: Contest)
        requires
            old(self).wf(),
            contest.id == old(self).contests.len() + 1,
        ensures
            final(self).wf(),
            final(self).contests@ == old(self).contests@.push(contest),
            final(self).jobs == old(self).jobs,
            final(self).users == old(self).users,
    {
        self.contests.push(contest);
    }

    /// Replace the contest row with the given contest's id.
    pub fn update_contest(&mut self, contest: Contest) -> (r: Result<(), Error>)
        requires
            old(self).wf(),
        ensures
            final(self).wf(),
            final(self).jobs == old(self).jobs,
            final(self).users == old(self).users,
            match r {
                Ok(()) => {
                    &&& 1 <= contest.id <= old(self).contests.len()
                    &&& final(self).contests@ == old(self).contests@.update(
                        contest.id - 1,
                        contest,
                    )
                },
                Err(e) => {
                    &&& !(1 <= contest.id <= old(self).contests.len())
                    &&& final(self).contests == old(self).contests
                    &&& e.reason == Reason::NotFound
                    &&& e.code == crate::error::code_of(Reason::NotFound)
                    &&& e.message@ == "Contest not found."@
                },
            },
    {
        let cid = contest.id;
        if 1 <= cid && (cid as usize) <= self.contests.len() {
            self.contests.set((cid - 1) as usize, contest);
            Ok(())
        } else {
            Err(Error::new(Reason::NotFound, "Contest not found.".to_owned()))
        }
    }
}

/// A job inserted under the next free id is read back unchanged: pushing it
/// onto a well-formed store keeps the store well-formed, and the row its id
/// names holds exactly the job that went in.
pub proof fn lemma_job_round_trip(pre: JobStore, post: JobStore, job: Job)
    requires
        pre.wf(),
        pre.jobs@.len() < u32::MAX,
        job.id == pre.jobs@.len(),
        post.jobs@ == pre.jobs@.push(job),
        post.users == pre.users,
        post.contests == pre.contests,
    ensures
        post.wf(),
        job.id < post.jobs@.len(),
        post.jobs@[job.id as int] == job,
{
    assert(forall|i: int|
        0 <= i < pre.jobs@.len() ==> post.jobs@[i] == (#[trigger] pre.jobs@[i]));
}

} // verus!
