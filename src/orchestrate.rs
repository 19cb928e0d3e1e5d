//! The decisions of the pull, build and clean passes. The caller runs the
//! processes and reports how they ended; these types say what comes next.
use vstd::prelude::*;
use crate::config::{RemaConfig, RepoSettings, strs};
use crate::text::{has_prefix, split_words, starts_with, words};

verus! {

// ---------------------------------------------------------------- pull

/// What `git pull` prints first when there was nothing to fetch.
pub const UP_TO_DATE: &'static str = "Already up to date.";

/// A pull brought new content: it exited successfully and its output does not
/// begin with the up-to-date marker.
pub open spec fn has_new_content(success: bool, output: Seq<char>) -> bool {
    success && !has_prefix(output, UP_TO_DATE@)
}

/// How a pull ended.
#[derive(Clone, Copy, Debug, PartialEq, Eq, Structural)]
pub enum PullOutcome {
    UpToDate,
    NewContent,
}

/// Classifies a pull by its exit status and captured output.
pub fn classify_pull(success: bool, output: &str) -> (r: PullOutcome)
    ensures
        (r == PullOutcome::NewContent) == has_new_content(success, output@),
{
    if success && !starts_with(output, UP_TO_DATE) {
        PullOutcome::NewContent
    } else {
        PullOutcome::UpToDate
    }
}

/// What to do with a repository after its pull.
#[derive(Clone, Copy, Debug, PartialEq, Eq, Structural)]
pub enum PullAction {
    /// Nothing new, or nothing left to do.
    Nothing,
    /// Build it now.
    Build,
    /// Keep it for the next `update`.
    Pending,
}

pub open spec fn pull_action(new_content: bool, autoupdate: bool) -> PullAction {
    if !new_content {
        PullAction::Nothing
    } else if autoupdate {
        PullAction::Build
    } else {
        PullAction::Pending
    }
}

/// The pending set after one repository's pull, and what to do with it.
pub open spec fn pull_step(pending: Seq<Seq<char>>, s: RepoSettings, success: bool, output: Seq<char>) -> (
    Seq<Seq<char>>,
    PullAction,
) {
    let a = pull_action(has_new_content(success, output), s.autoupdate);
    (if a == PullAction::Pending {
        pending.push(s.path)
    } else {
        pending
    }, a)
}

impl RemaConfig {
    /// What follows this repository's pull, given how it ended.
    pub fn pull(&self, success: bool, output: &str) -> (r: PullAction)
        ensures
            r == pull_action(has_new_content(success, output@), self.autoupdate),
    {
        match classify_pull(success, output) {
            PullOutcome::UpToDate => PullAction::Nothing,
            PullOutcome::NewContent => if self.autoupdate {
                PullAction::Build
            } else {
                PullAction::Pending
            },
        }
    }
}

/// The pull pass: collects the repositories that brought new content and are
/// left for a later `update`.
#[derive(Clone, Debug, PartialEq, Eq)]
pub struct PullPhase {
    /// Paths of the pending repositories, in the order of their pulls.
    pub pending: Vec<String>,
}

impl PullPhase {
    pub fn new() -> (r: PullPhase)
        ensures
            r.pending@.len() == 0,
    {
        PullPhase { pending: Vec::new() }
    }

    /// Records the pull of the repository of `cfg` and says what to do next.
    pub fn record(&mut self, cfg: &RemaConfig, success: bool, output: &str) -> (r: PullAction)
        ensures
            (strs(final(self).pending@), r) == pull_step(strs(old(self).pending@), cfg@, success, output@),
    {
        let a = cfg.pull(success, output);
        if a == PullAction::Pending {
            let ghost before = self.pending@;
            self.pending.push(cfg.path.clone());
            assert(strs(self.pending@) =~= strs(before).push(cfg.path@));
        }
        a
    }
}

/// A repository that pulled new content and builds on its own is never left
/// pending, and is built at once.
pub proof fn lemma_autoupdate_not_pending(
    pending: Seq<Seq<char>>,
    s: RepoSettings,
    success: bool,
    output: Seq<char>,
)
    requires
        s.autoupdate,
        has_new_content(success, output),
    ensures
        pull_step(pending, s, success, output) == (pending, PullAction::Build),
{
}

/// Output that begins with the up-to-date marker is up to date whatever the
/// exit status; other output of a successful pull is new content.
pub proof fn lemma_pull_detection(success: bool, output: Seq<char>)
    ensures
        has_prefix(output, UP_TO_DATE@) ==> !has_new_content(success, output),
        !has_prefix(output, UP_TO_DATE@) && success ==> has_new_content(success, output),
{
}


// ---------------------------------------------------------------- commands

/// A program and its arguments.
#[derive(Clone, Debug, PartialEq, Eq)]
pub struct CommandLine {
    pub program: String,
    pub args: Vec<String>,
}

/// The program and arguments of a command line: its whitespace-separated
/// words, the first naming the program; `None` for a blank line. Quotes have
/// no meaning.
pub open spec fn command_of(line: Seq<char>) -> Option<(Seq<char>, Seq<Seq<char>>)> {
    let w = words(line);
    if w.len() == 0 {
        None
    } else {
        Some((w[0], w.drop_first()))
    }
}

/// Splits a command line into its program and arguments.
pub fn split_command_line(line: &str) -> (r: Option<CommandLine>)
    ensures
        match command_of(line@) {
            None => r is None,
            Some((p, a)) => r is Some && r->0.program@ == p && strs(r->0.args@) == a,
        },
{
    let mut w = split_words(line);
    if w.len() == 0 {
        return None;
    }
    let ghost all = w@;
    let program = w.remove(0);
    assert(strs(w@) =~= strs(all).drop_first());
    Some(CommandLine { program, args: w })
}

/// A copy of a list of lines.
fn copy_lines(v: &Vec<String>, out: &mut Vec<String>)
    ensures
        strs(final(out)@) == strs(old(out)@) + strs(v@),
{
    let ghost start = out@;
    let mut i: usize = 0;
    while i < v.len()
        invariant
            i <= v@.len(),
            strs(out@) =~= strs(start) + strs(v@.take(i as int)),
        decreases v.len() - i,
    {
        let ghost before = out@;
        out.push(v[i].clone());
        assert(strs(out@) =~= strs(before).push(v@[i as int]@));
        assert(strs(v@.take(i + 1)) =~= strs(v@.take(i as int)).push(v@[i as int]@));
        i = i + 1;
    }
    assert(v@.take(i as int) =~= v@);
}

/// The lines a build runs: the build lines, then, with autoclean, the clean
/// lines.
pub open spec fn build_plan(s: RepoSettings) -> Seq<Seq<char>> {
    if s.autoclean {
        s.build + s.clean
    } else {
        s.build
    }
}

/// The lines a clean runs, whatever the flags.
pub open spec fn clean_plan(s: RepoSettings) -> Seq<Seq<char>> {
    s.clean
}

/// The lines started when each started command exits as `ok` says, in
/// order: up to and including the first that fails.
pub open spec fn invoked(lines: Seq<Seq<char>>, ok: Seq<bool>) -> Seq<Seq<char>>
    decreases lines.len(),
{
    if lines.len() == 0 || ok.len() == 0 {
        seq![]
    } else if ok[0] {
        seq![lines[0]] + invoked(lines.drop_first(), ok.drop_first())
    } else {
        seq![lines[0]]
    }
}

/// Exit statuses where only the last may be a failure start exactly as many
/// lines.
pub proof fn lemma_invoked_prefix(lines: Seq<Seq<char>>, ok: Seq<bool>)
    requires
        ok.len() <= lines.len(),
        forall|i: int| 0 <= i < ok.len() - 1 ==> ok[i],
    ensures
        invoked(lines, ok) == lines.take(ok.len() as int),
    decreases lines.len(),
{
    if ok.len() == 0 {
        assert(lines.take(0) =~= seq![]);
    } else if ok[0] {
        let rest = ok.drop_first();
        assert forall|i: int| 0 <= i < rest.len() - 1 implies rest[i] by {
            assert(rest[i] == ok[i + 1]);
        }
        lemma_invoked_prefix(lines.drop_first(), rest);
        assert(seq![lines[0]] + lines.drop_first().take(rest.len() as int) =~= lines.take(
            ok.len() as int,
        ));
    } else {
        assert(ok.len() == 1);
        assert(lines.take(1) =~= seq![lines[0]]);
    }
}

/// A failure stops the run: what follows it is never started.
pub proof fn lemma_invoked_stops(lines: Seq<Seq<char>>, ok: Seq<bool>, k: int)
    requires
        0 <= k < ok.len(),
        k < lines.len(),
        !ok[k],
        forall|i: int| 0 <= i < k ==> ok[i],
    ensures
        invoked(lines, ok) == lines.take(k + 1),
    decreases lines.len(),
{
    if k == 0 {
        assert(lines.take(1) =~= seq![lines[0]]);
    } else {
        let rest = ok.drop_first();
        assert forall|i: int| 0 <= i < k - 1 implies rest[i] by {
            assert(rest[i] == ok[i + 1]);
        }
        lemma_invoked_stops(lines.drop_first(), rest, k - 1);
        assert(seq![lines[0]] + lines.drop_first().take(k) =~= lines.take(k + 1));
    }
}

/// When every command succeeds, every line is started, in order.
pub proof fn lemma_invoked_all(lines: Seq<Seq<char>>, ok: Seq<bool>)
    requires
        lines.len() <= ok.len(),
        forall|i: int| 0 <= i < lines.len() ==> ok[i],
    ensures
        invoked(lines, ok) == lines,
    decreases lines.len(),
{
    if lines.len() > 0 {
        let rest = ok.drop_first();
        assert forall|i: int| 0 <= i < lines.len() - 1 implies rest[i] by {
            assert(rest[i] == ok[i + 1]);
        }
        lemma_invoked_all(lines.drop_first(), rest);
        assert(seq![lines[0]] + lines.drop_first() =~= lines);
    }
}

/// With autoclean, a build whose commands all succeed is followed at once by
/// the clean lines, in order.
pub proof fn lemma_autoclean_follows_build(s: RepoSettings, ok: Seq<bool>)
    requires
        s.autoclean,
        build_plan(s).len() <= ok.len(),
        forall|i: int| 0 <= i < build_plan(s).len() ==> ok[i],
    ensures
        invoked(build_plan(s), ok) == s.build + s.clean,
{
    lemma_invoked_all(build_plan(s), ok);
}

/// When the first build line fails, nothing else of the build, and none of
/// the clean lines, is started.
pub proof fn lemma_first_failure_stops_build(s: RepoSettings, ok: Seq<bool>)
    requires
        s.build.len() >= 1,
        ok.len() >= 1,
        !ok[0],
    ensures
        invoked(build_plan(s), ok) == seq![s.build[0]],
{
    lemma_invoked_stops(build_plan(s), ok, 0);
    assert(build_plan(s).take(1) =~= seq![s.build[0]]);
}

/// A clean run starts the clean lines alone, whatever the flags and the
/// build lines; run again with the same exit statuses, it starts the same
/// commands.
pub proof fn lemma_clean_repeats(a: RepoSettings, b: RepoSettings, ok: Seq<bool>)
    requires
        a.clean == b.clean,
    ensures
        invoked(clean_plan(a), ok) == invoked(clean_plan(b), ok),
        invoked(clean_plan(a), ok).len() <= a.clean.len(),
{
    lemma_invoked_len(clean_plan(a), ok);
}

proof fn lemma_invoked_len(lines: Seq<Seq<char>>, ok: Seq<bool>)
    ensures
        invoked(lines, ok).len() <= lines.len(),
    decreases lines.len(),
{
    if lines.len() > 0 && ok.len() > 0 && ok[0] {
        lemma_invoked_len(lines.drop_first(), ok.drop_first());
    }
}


// ---------------------------------------------------------------- runs

/// What the caller does next in a run.
#[derive(Clone, Debug, PartialEq, Eq)]
pub enum RunStep {
    /// Start line `index` as this command in the run's directory, wait for
    /// it, and report how it exited.
    Run(usize, CommandLine),
    /// Every line ran and succeeded.
    Done,
    /// Line `index` failed (or was blank); the lines after it are not run.
    Failed(usize),
}

/// A run of command lines, one at a time, in order, in one working directory,
/// stopping at the first that fails.
pub struct CommandRun {
    /// Working directory of every command.
    pub dir: String,
    pub lines: Vec<String>,
    /// The line to start next.
    pub next: usize,
    /// The line that failed, if one did.
    pub failed: Option<usize>,
    /// The exit statuses reported so far.
    pub reported: Ghost<Seq<bool>>,
}

impl CommandRun {
    /// The run is consistent: every status reported is a success but the last
    /// one of a failed run.
    pub open spec fn wf(&self) -> bool {
        &&& self.next <= self.lines@.len()
        &&& match self.failed {
            None => self.reported@.len() == self.next && forall|i: int|
                0 <= i < self.next ==> self.reported@[i],
            Some(k) => k == self.next && k < self.lines@.len() && self.reported@.len() == k + 1
                && !self.reported@[k as int] && forall|i: int| 0 <= i < k ==> self.reported@[i],
        }
    }

    /// A run of `lines` in `dir`, nothing started yet.
    pub fn new(dir: &str, lines: Vec<String>) -> (r: CommandRun)
        ensures
            r.wf(),
            r.dir@ == dir@,
            r.lines@ == lines@,
            r.next == 0,
            r.failed is None,
            r.reported@ == Seq::<bool>::empty(),
    {
        CommandRun {
            dir: dir.to_owned(),
            lines,
            next: 0,
            failed: None,
            reported: Ghost(Seq::empty()),
        }
    }

    /// The next thing to do. A blank line counts as a failed command.
    pub fn next_step(&mut self) -> (r: RunStep)
        requires
            old(self).wf(),
        ensures
            final(self).wf(),
            final(self).dir == old(self).dir,
            final(self).lines == old(self).lines,
            match old(self).failed {
                Some(k) => r == RunStep::Failed(k) && *final(self) == *old(self),
                None => if old(self).next == old(self).lines@.len() {
                    r == RunStep::Done && *final(self) == *old(self)
                } else {
                    let k = old(self).next;
                    match command_of(old(self).lines@[k as int]@) {
                        None => r == RunStep::Failed(k) && final(self).failed == Some(k)
                            && final(self).next == k
                            && final(self).reported@ == old(self).reported@.push(false),
                        Some((p, a)) => r is Run && r->Run_0 == k && r->Run_1.program@ == p
                            && strs(r->Run_1.args@) == a && *final(self) == *old(self),
                    }
                }
            },
            r is Done ==> invoked(strs(final(self).lines@), final(self).reported@) == strs(
                final(self).lines@,
            ),
            r matches RunStep::Failed(k) ==> k < final(self).lines@.len() && invoked(
                strs(final(self).lines@),
                final(self).reported@,
            ) == strs(final(self).lines@).take(k + 1),
    {
        proof {
            lemma_invoked_prefix(strs(self.lines@), self.reported@);
        }
        if let Some(k) = self.failed {
            return RunStep::Failed(k);
        }
        if self.next == self.lines.len() {
            assert(strs(self.lines@).take(self.next as int) =~= strs(self.lines@));
            return RunStep::Done;
        }
        let k = self.next;
        match split_command_line(self.lines[k].as_str()) {
            None => {
                self.failed = Some(k);
                self.reported = Ghost(self.reported@.push(false));
                proof {
                    lemma_invoked_prefix(strs(self.lines@), self.reported@);
                }
                RunStep::Failed(k)
            },
            Some(c) => RunStep::Run(k, c),
        }
    }

    /// Reports how the command last handed out exited.
    pub fn report(&mut self, success: bool)
        requires
            old(self).wf(),
            old(self).failed is None,
            old(self).next < old(self).lines@.len(),
        ensures
            final(self).wf(),
            final(self).dir == old(self).dir,
            final(self).lines == old(self).lines,
            final(self).reported@ == old(self).reported@.push(success),
            success ==> final(self).next == old(self).next + 1 && final(self).failed is None,
            !success ==> final(self).next == old(self).next && final(self).failed == Some(
                old(self).next,
            ),
    {
        self.reported = Ghost(self.reported@.push(success));
        let n = self.lines.len();
        if success {
            assert(self.next < n);
            self.next = self.next + 1;
        } else {
            self.failed = Some(self.next);
        }
    }

    /// Working directory of every command of the run.
    pub fn dir(&self) -> (r: &str)
        ensures
            r@ == self.dir@,
    {
        self.dir.as_str()
    }
}

impl RemaConfig {
    /// A build of this repository: the build lines, then the clean lines when
    /// autoclean is set, in its working tree.
    pub fn build(&self) -> (r: CommandRun)
        ensures
            r.wf(),
            r.dir@ == self.path@,
            strs(r.lines@) == build_plan(self@),
            r.next == 0,
            r.failed is None,
            r.reported@ == Seq::<bool>::empty(),
    {
        let mut lines: Vec<String> = Vec::new();
        assert(strs(lines@) =~= seq![]);
        copy_lines(&self.build, &mut lines);
        if self.autoclean {
            copy_lines(&self.clean, &mut lines);
        }
        proof {
            assert(seq![] + strs(self.build@) =~= strs(self.build@));
        }
        CommandRun::new(self.path.as_str(), lines)
    }

    /// A clean of this repository: the clean lines, whatever the flags, in
    /// its working tree. The settings are left as they are.
    pub fn clean(&self) -> (r: CommandRun)
        ensures
            r.wf(),
            r.dir@ == self.path@,
            strs(r.lines@) == clean_plan(self@),
            r.next == 0,
            r.failed is None,
            r.reported@ == Seq::<bool>::empty(),
    {
        let mut lines: Vec<String> = Vec::new();
        assert(strs(lines@) =~= seq![]);
        copy_lines(&self.clean, &mut lines);
        assert(seq![] + strs(self.clean@) =~= strs(self.clean@));
        CommandRun::new(self.path.as_str(), lines)
    }
}

} // verus!
