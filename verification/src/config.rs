//! The problem and language registry, read-only after startup.

use vstd::prelude::*;

verus! {

/// Where the HTTP front end binds.
#[derive(Clone, Debug)]
pub struct Server {
    pub bind_address: String,
    pub bind_port: u16,
}

/// The bind address used when the configuration names none.
pub fn get_default_address() -> (r: String)
    ensures
        r@ == "127.0.0.1"@,
{
    "127.0.0.1".to_owned()
}

/// The bind port used when the configuration names none.
pub fn get_default_port() -> (r: u16)
    ensures
        r == 12345,
{
    12345
}

/// One test case of a problem. `time_limit` is in microseconds, 0 meaning no
/// limit. `memory_limit` is accepted but never enforced.
#[derive(Clone, Debug)]
pub struct Case {
    pub score: u64,
    pub input_file: String,
    pub answer_file: String,
    pub time_limit: u32,
    pub memory_limit: u32,
}

/// How a submission's output is compared against the expected answer.
#[derive(Clone, Copy, Debug, PartialEq, Eq, Structural)]
pub enum ProblemType {
    Standard,
    Strict,
    Spj,
    DynamicRanking,
}

/// A problem: its cases in judging order.
#[derive(Clone, Debug)]
pub struct Problem {
    pub id: u32,
    pub name: String,
    pub typ: ProblemType,
    pub cases: Vec<Case>,
}

/// The sum of the scores of `cases[..n]`.
pub open spec fn score_total_prefix(cases: Seq<Case>, n: int) -> int
    decreases n,
{
    if n <= 0 {
        0
    } else {
        score_total_prefix(cases, n - 1) + cases[n - 1].score
    }
}

/// The full score of a problem: the sum of its case scores.
pub open spec fn score_total(cases: Seq<Case>) -> int {
    score_total_prefix(cases, cases.len() as int)
}

/// A well-formed problem: its case count and full score stay within machine
/// bounds, so a job's score (a sum of case scores) always fits.
pub open spec fn problem_wf(p: Problem) -> bool {
    &&& p.cases.len() < u32::MAX
    &&& score_total(p.cases@) <= u64::MAX
}

/// An available programming language: the source file name the judge writes
/// and the compile command, where the tokens `%INPUT%` and `%OUTPUT%` stand
/// for the source path and the executable path.
#[derive(Clone, Debug)]
pub struct Language {
    pub name: String,
    pub file_name: String,
    pub command: Vec<String>,
}

/// The startup configuration: the problem and language registry.
#[derive(Clone, Debug)]
pub struct Config {
    pub server: Server,
    pub problems: Vec<Problem>,
    pub languages: Vec<Language>,
}

/// A problem's total score stays within `len` times the largest case score.
proof fn lemma_score_total_bounded(cases: Seq<Case>, n: int)
    requires
        0 <= n,
    ensures
        0 <= score_total_prefix(cases, n) <= n * 0xffff_ffff_ffff_ffff,
    decreases n,
{
    if n > 0 {
        lemma_score_total_bounded(cases, n - 1);
    }
}

impl Problem {
    /// Whether the problem is well-formed: run over a configuration loaded
    /// from outside before it is judged against.
    pub fn check_wf(&self) -> (r: bool)
        ensures
            r == problem_wf(*self),
    {
        if !(self.cases.len() < (u32::MAX as usize)) {
            return false;
        }
        let mut total: u128 = 0;
        let mut i: usize = 0;
        while i < self.cases.len()
            invariant
                i <= self.cases.len(),
                total == score_total_prefix(self.cases@, i as int),
            decreases self.cases.len() - i,
        {
            proof {
                lemma_score_total_bounded(self.cases@, i as int);
            }
            total = total + (self.cases[i].score as u128);
            i = i + 1;
        }
        total <= (u64::MAX as u128)
    }
}

/// A well-formed configuration: every problem is well-formed.
pub open spec fn config_wf(c: Config) -> bool {
    forall|i: int| 0 <= i < c.problems.len() ==> problem_wf(#[trigger] c.problems@[i])
}

impl Config {
    /// Whether the configuration is well-formed: every problem is.
    pub fn check_wf(&self) -> (r: bool)
        ensures
            r == config_wf(*self),
    {
        let mut i: usize = 0;
        while i < self.problems.len()
            invariant
                i <= self.problems.len(),
                forall|k: int| 0 <= k < i ==> problem_wf(#[trigger] self.problems@[k]),
            decreases self.problems.len() - i,
        {
            if !self.problems[i].check_wf() {
                return false;
            }
            i = i + 1;
        }
        true
    }
}

/// A problem found by id is one of the configured problems.
pub proof fn lemma_get_problem_member(problems: Seq<Problem>, id: u32)
    ensures
        match spec_get_problem(problems, id) {
            Some(p) => p.id == id && exists|k: int|
                0 <= k < problems.len() && #[trigger] problems[k] == p,
            None => true,
        },
    decreases problems.len(),
{
    if problems.len() > 0 {
        if problems[0].id == id {
            assert(problems[0] == spec_get_problem(problems, id)->Some_0);
        } else {
            lemma_get_problem_member(problems.drop_first(), id);
            match spec_get_problem(problems.drop_first(), id) {
                Some(p) => {
                    let k = choose|k: int|
                        0 <= k < problems.drop_first().len() && #[trigger] problems.drop_first()[k]
                            == p;
                    assert(problems[k + 1] == problems.drop_first()[k]);
                },
                None => {},
            }
        }
    }
}

/// The first language with the given name, if any.
pub open spec fn spec_get_lang(langs: Seq<Language>, name: Seq<char>) -> Option<Language>
    decreases langs.len(),
{
    if langs.len() == 0 {
        None
    } else if langs[0].name@ == name {
        Some(langs[0])
    } else {
        spec_get_lang(langs.drop_first(), name)
    }
}

/// The first problem with the given id, if any.
pub open spec fn spec_get_problem(problems: Seq<Problem>, id: u32) -> Option<Problem>
    decreases problems.len(),
{
    if problems.len() == 0 {
        None
    } else if problems[0].id == id {
        Some(problems[0])
    } else {
        spec_get_problem(problems.drop_first(), id)
    }
}

/// One unfolding of `spec_get_lang` along a suffix of the language list.
proof fn lemma_get_lang_step(langs: Seq<Language>, name: Seq<char>, i: int)
    requires
        0 <= i < langs.len(),
    ensures
        spec_get_lang(langs.skip(i), name) == if langs[i].name@ == name {
            Some(langs[i])
        } else {
            spec_get_lang(langs.skip(i + 1), name)
        },
{
    assert(langs.skip(i)[0] == langs[i]);
    assert(langs.skip(i).drop_first() =~= langs.skip(i + 1));
}

/// One unfolding of `spec_get_problem` along a suffix of the problem list.
proof fn lemma_get_problem_step(problems: Seq<Problem>, id: u32, i: int)
    requires
        0 <= i < problems.len(),
    ensures
        spec_get_problem(problems.skip(i), id) == if problems[i].id == id {
            Some(problems[i])
        } else {
            spec_get_problem(problems.skip(i + 1), id)
        },
{
    assert(problems.skip(i)[0] == problems[i]);
    assert(problems.skip(i).drop_first() =~= problems.skip(i + 1));
}

impl Config {
    /// Look up a language by name.
    pub fn get_lang(&self, lang: &String) -> (r: Option<&Language>)
        ensures
            match r {
                Some(l) => spec_get_lang(self.languages@, lang@) == Some(*l),
                None => spec_get_lang(self.languages@, lang@) is None,
            },
    {
        proof {
            assert(self.languages@.skip(0) =~= self.languages@);
        }
        let mut i: usize = 0;
        while i < self.languages.len()
            invariant
                i <= self.languages.len(),
                spec_get_lang(self.languages@, lang@) == spec_get_lang(
                    self.languages@.skip(i as int),
                    lang@,
                ),
            decreases self.languages.len() - i,
        {
            proof {
                lemma_get_lang_step(self.languages@, lang@, i as int);
            }
            if self.languages[i].name == *lang {
                return Some(&self.languages[i]);
            }
            i = i + 1;
        }
        proof {
            assert(self.languages@.skip(i as int).len() == 0);
        }
        None
    }

    /// Look up a problem by id.
    pub fn get_problem(&self, id: u32) -> (r: Option<&Problem>)
        ensures
            match r {
                Some(p) => spec_get_problem(self.problems@, id) == Some(*p),
                None => spec_get_problem(self.problems@, id) is None,
            },
    {
        proof {
            assert(self.problems@.skip(0) =~= self.problems@);
        }
        let mut i: usize = 0;
        while i < self.problems.len()
            invariant
                i <= self.problems.len(),
                spec_get_problem(self.problems@, id) == spec_get_problem(
                    self.problems@.skip(i as int),
                    id,
                ),
            decreases self.problems.len() - i,
        {
            proof {
                lemma_get_problem_step(self.problems@, id, i as int);
            }
            if self.problems[i].id == id {
                return Some(&self.problems[i]);
            }
            i = i + 1;
        }
        proof {
            assert(self.problems@.skip(i as int).len() == 0);
        }
        None
    }
}

} // verus!
