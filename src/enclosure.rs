//! One sandbox instance: its name, its configuration, the endpoints it
//! created, and the decisions of its lifecycle.

use vstd::prelude::*;

use crate::config::{env_with, names_unique, BoxxyConfig};
use crate::fs::FsDriver;
use crate::paths::{append_all, joined_all, views_of};
use crate::rule::{pairs_view, Rule, RuleMode, RuleView, rules_view};

verus! {

/// The variables that a `.env` text defines, in the order of their names,
/// or none when it does not parse.
pub uninterp spec fn dotenv_entries(text: Seq<char>) -> Option<Seq<(Seq<char>, Seq<char>)>>;

/// Relies on `dotenv_parser::parse_dotenv`: its result depends on the text
/// alone; an error is mapped to `None`, the map's entries are handed out in
/// its order.
#[verifier::external_body]
fn parse_dotenv_text(text: &str) -> (r: Option<Vec<(String, String)>>)
    ensures
        match r {
            Some(v) => dotenv_entries(text@) == Some(pairs_view(v@)),
            None => dotenv_entries(text@) is None,
        },
{
    match dotenv_parser::parse_dotenv(text) {
        Ok(map) => Some(map.into_iter().collect()),
        Err(_) => None,
    }
}

/// Relies on `haikunator::Haikunator::haikunate` with its default settings:
/// a random name; nothing is assumed of it.
#[verifier::external_body]
fn random_name() -> (r: String) {
    haikunator::Haikunator::default().haikunate()
}

/// `env` with each of `vars` set in turn.
pub open spec fn env_after(env: Seq<(Seq<char>, Seq<char>)>, vars: Seq<(Seq<char>, Seq<char>)>) -> Seq<
    (Seq<char>, Seq<char>),
>
    decreases vars.len(),
{
    if vars.len() == 0 {
        env
    } else {
        env_after(env_with(env, vars[0].0, vars[0].1), vars.drop_first())
    }
}

/// The variables of every rule, rule after rule.
pub open spec fn rules_env(rules: Seq<RuleView>) -> Seq<(Seq<char>, Seq<char>)>
    decreases rules.len(),
{
    if rules.len() == 0 {
        Seq::empty()
    } else {
        rules[0].env + rules_env(rules.drop_first())
    }
}

proof fn lemma_env_after_concat(
    env: Seq<(Seq<char>, Seq<char>)>,
    a: Seq<(Seq<char>, Seq<char>)>,
    b: Seq<(Seq<char>, Seq<char>)>,
)
    ensures
        env_after(env, a + b) == env_after(env_after(env, a), b),
    decreases a.len(),
{
    if a.len() == 0 {
        assert(a + b =~= b);
    } else {
        assert((a + b).drop_first() =~= a.drop_first() + b);
        lemma_env_after_concat(env_with(env, a[0].0, a[0].1), a.drop_first(), b);
    }
}

proof fn lemma_env_with_unique(env: Seq<(Seq<char>, Seq<char>)>, k: Seq<char>, v: Seq<char>)
    requires
        names_unique(env),
    ensures
        names_unique(env_with(env, k, v)),
{
}

/// What the caller does so that an endpoint exists.
#[derive(Clone, Debug)]
pub enum EndpointAction {
    /// It exists already.
    Keep,
    /// Create the missing parent directories, then an empty file.
    CreateFile(String),
    /// Create the directory and its parents.
    CreateDirectory(String),
}

/// The endpoints that a setup creates, in order, when `existing` exist
/// beforehand: each missing one, once.
pub open spec fn created_by(existing: Set<Seq<char>>, eps: Seq<(Seq<char>, RuleMode)>) -> Seq<
    (Seq<char>, RuleMode),
>
    decreases eps.len(),
{
    if eps.len() == 0 {
        Seq::empty()
    } else if existing.contains(eps[0].0) {
        created_by(existing, eps.drop_first())
    } else {
        seq![eps[0]] + created_by(existing.insert(eps[0].0), eps.drop_first())
    }
}

/// The paths that exist after a setup from `existing`.
pub open spec fn existing_after(existing: Set<Seq<char>>, eps: Seq<(Seq<char>, RuleMode)>) -> Set<
    Seq<char>,
>
    decreases eps.len(),
{
    if eps.len() == 0 {
        existing
    } else {
        existing_after(existing.insert(eps[0].0), eps.drop_first())
    }
}

proof fn lemma_after_holds_all(existing: Set<Seq<char>>, eps: Seq<(Seq<char>, RuleMode)>)
    ensures
        existing.subset_of(existing_after(existing, eps)),
        forall|k: int| 0 <= k < eps.len() ==> existing_after(existing, eps).contains(#[trigger] eps[k].0),
    decreases eps.len(),
{
    if eps.len() > 0 {
        lemma_after_holds_all(existing.insert(eps[0].0), eps.drop_first());
        assert forall|k: int| 0 <= k < eps.len() implies existing_after(existing, eps).contains(
            #[trigger] eps[k].0,
        ) by {
            if k > 0 {
                assert(eps[k] == eps.drop_first()[k - 1]);
            }
        }
    }
}

proof fn lemma_nothing_missing(later: Set<Seq<char>>, eps: Seq<(Seq<char>, RuleMode)>)
    requires
        forall|k: int| 0 <= k < eps.len() ==> later.contains(#[trigger] eps[k].0),
    ensures
        created_by(later, eps) == Seq::<(Seq<char>, RuleMode)>::empty(),
    decreases eps.len(),
{
    if eps.len() > 0 {
        assert(later.contains(eps[0].0));
        assert forall|k: int| 0 <= k < eps.drop_first().len() implies later.contains(
            #[trigger] eps.drop_first()[k].0,
        ) by {
            assert(eps.drop_first()[k] == eps[k + 1]);
        }
        lemma_nothing_missing(later, eps.drop_first());
    }
}

/// Setting up the same endpoints a second time creates nothing: whatever
/// exists after the first setup, and anything created since, leaves no
/// endpoint missing.
pub proof fn lemma_setup_twice_creates_nothing(
    existing: Set<Seq<char>>,
    eps: Seq<(Seq<char>, RuleMode)>,
    later: Set<Seq<char>>,
)
    requires
        existing_after(existing, eps).subset_of(later),
    ensures
        created_by(later, eps) == Seq::<(Seq<char>, RuleMode)>::empty(),
{
    lemma_after_holds_all(existing, eps);
    lemma_nothing_missing(later, eps);
}

/// The result of a wait for the child after it was let go.
#[derive(Clone, Copy, Debug, PartialEq, Eq, Structural)]
pub enum WaitOutcome {
    /// The child exited with this status.
    Exited(i32),
    /// There is no child to wait for any more.
    NoChild,
    /// Anything else: a stop, a signal, an interrupted wait.
    Other,
}

/// What to do after a wait.
#[derive(Clone, Copy, Debug, PartialEq, Eq, Structural)]
pub enum WaitStep {
    /// Stop waiting with this exit status, after a short pause so that the
    /// child's output drains when `pause` is set.
    Finish { status: i32, pause: bool },
    /// Pause briefly and wait again.
    Retry,
}

/// A step of entering the container, in the order they are taken.
#[derive(Clone, Debug)]
pub enum EntryStep {
    /// Change the root to this directory with `chroot`.
    Chroot(String),
    /// Enter this directory, pivot the root onto it and detach the old root.
    PivotRoot(String),
    /// Change the working directory back to this path.
    ChangeDir(String),
    /// Remount the new root read-only.
    RemountRootReadOnly,
    /// Ask to be traced and stop until the parent lets the child go.
    AwaitParent,
    /// Run the command and wait for it.
    RunCommand,
}

/// The default stack size of the cloned child: 8 MiB.
pub const DEFAULT_STACK_SIZE: u64 = 8388608;

/// The stack size of the cloned child: the soft stack limit, or the default
/// when it cannot be read.
pub fn stack_size(soft_limit: Option<u64>) -> (r: u64)
    ensures
        r == match soft_limit {
            Some(s) => s,
            None => DEFAULT_STACK_SIZE,
        },
{
    match soft_limit {
        Some(s) => s,
        None => DEFAULT_STACK_SIZE,
    }
}

/// What to do after the wait that returned `outcome`, when `last` is the
/// exit status seen so far.
pub fn next_wait_step(last: i32, outcome: WaitOutcome) -> (r: WaitStep)
    ensures
        r == match outcome {
            WaitOutcome::Exited(s) => WaitStep::Finish { status: s, pause: false },
            WaitOutcome::NoChild => WaitStep::Finish { status: last, pause: true },
            WaitOutcome::Other => WaitStep::Retry,
        },
{
    match outcome {
        WaitOutcome::Exited(s) => WaitStep::Finish { status: s, pause: false },
        WaitOutcome::NoChild => WaitStep::Finish { status: last, pause: true },
        WaitOutcome::Other => WaitStep::Retry,
    }
}

/// Why the enclosure could not go on.
#[derive(Clone, Copy, Debug, PartialEq, Eq, Structural)]
pub enum EnclosureError {
    /// The `.env` file does not parse.
    UnparsableDotenv,
}

/// One sandbox instance.
pub struct Enclosure {
    pub config: BoxxyConfig,
    pub fs: FsDriver,
    pub name: String,
    pub child_exit_status: i32,
    pub created_files: Vec<String>,
    pub created_directories: Vec<String>,
}

impl Enclosure {
    /// The environment given to the command.
    pub open spec fn env_view(&self) -> Seq<(Seq<char>, Seq<char>)> {
        pairs_view(self.config.command.env@)
    }

    /// A new instance with a random name, nothing created yet.
    pub fn new(config: BoxxyConfig) -> (r: Self)
        ensures
            r.config == config,
            r.child_exit_status == -1,
            r.created_files@.len() == 0,
            r.created_directories@.len() == 0,
    {
        Self::with_name(config, random_name())
    }

    /// A new instance called `name`, nothing created yet.
    pub fn with_name(config: BoxxyConfig, name: String) -> (r: Self)
        ensures
            r.config == config,
            r.name == name,
            r.child_exit_status == -1,
            r.created_files@.len() == 0,
            r.created_directories@.len() == 0,
    {
        Enclosure {
            config,
            fs: FsDriver::new(),
            name,
            child_exit_status: -1,
            created_files: Vec::new(),
            created_directories: Vec::new(),
        }
    }

    /// The root directory of this instance.
    pub fn container_root(&self) -> (r: String)
        ensures
            r@ == joined_all("/tmp/boxxy-containers"@, seq![self.name@]),
    {
        self.fs.container_root(self.name.as_str())
    }

    /// Where the target `expanded_target` lies inside the container.
    pub fn container_target(&self, expanded_target: &str) -> (r: String)
        ensures
            r@ == joined_all(
                joined_all("/tmp/boxxy-containers"@, seq![self.name@]),
                seq![expanded_target@],
            ),
    {
        let root = self.container_root();
        let parts: Vec<&str> = vec![expanded_target];
        assert(views_of(parts@) =~= seq![expanded_target@]);
        append_all(root.as_str(), parts)
    }

    /// Records that the endpoint `path` is needed as a `mode` entry, which
    /// `existed` tells whether it exists, and says what to do so that it
    /// does. A missing endpoint is recorded for removal after the run.
    pub fn note_endpoint(&mut self, path: String, mode: RuleMode, existed: bool) -> (r: EndpointAction)
        ensures
            final(self).config == old(self).config,
            final(self).name == old(self).name,
            existed ==> {
                &&& r is Keep
                &&& final(self).created_files@ == old(self).created_files@
                &&& final(self).created_directories@ == old(self).created_directories@
            },
            !existed && mode == RuleMode::File ==> {
                &&& (r matches EndpointAction::CreateFile(p) && p@ == path@)
                &&& final(self).created_files@ == old(self).created_files@.push(path)
                &&& final(self).created_directories@ == old(self).created_directories@
            },
            !existed && mode == RuleMode::Directory ==> {
                &&& (r matches EndpointAction::CreateDirectory(p) && p@ == path@)
                &&& final(self).created_files@ == old(self).created_files@
                &&& final(self).created_directories@ == old(self).created_directories@.push(path)
            },
    {
        if existed {
            return EndpointAction::Keep;
        }
        let p = path.clone();
        match mode {
            RuleMode::File => {
                self.created_files.push(path);
                EndpointAction::CreateFile(p)
            },
            RuleMode::Directory => {
                self.created_directories.push(path);
                EndpointAction::CreateDirectory(p)
            },
        }
    }

    /// Sets each of `vars` in turn in the command's environment.
    pub fn inject_env(&mut self, vars: &Vec<(String, String)>)
        requires
            names_unique(old(self).env_view()),
        ensures
            names_unique(final(self).env_view()),
            final(self).env_view() == env_after(old(self).env_view(), pairs_view(vars@)),
            final(self).name == old(self).name,
            final(self).created_files == old(self).created_files,
            final(self).created_directories == old(self).created_directories,
    {
        let ghost all = pairs_view(vars@);
        let n = vars.len();
        assert(all.subrange(0, n as int) =~= all);
        let mut i: usize = 0;
        while i < n
            invariant
                n == all.len(),
                all == pairs_view(vars@),
                i <= n,
                names_unique(self.env_view()),
                env_after(old(self).env_view(), all) == env_after(
                    self.env_view(),
                    all.subrange(i as int, n as int),
                ),
                self.name == old(self).name,
                self.created_files == old(self).created_files,
                self.created_directories == old(self).created_directories,
            decreases n - i,
        {
            assert(all.subrange(i as int, n as int).drop_first() =~= all.subrange(i as int + 1, n as int));
            let k = vars[i].0.clone();
            let v = vars[i].1.clone();
            self.config.command.set_env(k, v);
            i = i + 1;
        }
        assert(all.subrange(n as int, n as int) =~= Seq::<(Seq<char>, Seq<char>)>::empty());
    }

    /// Sets the variables of each rule, rule after rule.
    pub fn inject_rule_env(&mut self, rules: &[Rule])
        requires
            names_unique(old(self).env_view()),
        ensures
            names_unique(final(self).env_view()),
            final(self).env_view() == env_after(old(self).env_view(), rules_env(rules_view(rules@))),
            final(self).name == old(self).name,
            final(self).created_files == old(self).created_files,
            final(self).created_directories == old(self).created_directories,
    {
        let ghost all = rules_view(rules@);
        let n = rules.len();
        assert(all.subrange(0, n as int) =~= all);
        let mut i: usize = 0;
        while i < n
            invariant
                n == all.len(),
                all == rules_view(rules@),
                i <= n,
                names_unique(self.env_view()),
                env_after(old(self).env_view(), rules_env(all)) == env_after(
                    self.env_view(),
                    rules_env(all.subrange(i as int, n as int)),
                ),
                self.name == old(self).name,
                self.created_files == old(self).created_files,
                self.created_directories == old(self).created_directories,
            decreases n - i,
        {
            let ghost here = all.subrange(i as int, n as int);
            assert(here.drop_first() =~= all.subrange(i as int + 1, n as int));
            let ghost cur = self.env_view();
            proof {
                lemma_env_after_concat(cur, here[0].env, rules_env(here.drop_first()));
            }
            self.inject_env(&rules[i].env);
            i = i + 1;
        }
        assert(all.subrange(n as int, n as int) =~= Seq::<RuleView>::empty());
    }

    /// Sets the variables of the `.env` text `text` when the configuration
    /// asks for it, and says how many there were.
    pub fn apply_dotenv(&mut self, text: &str) -> (r: Result<usize, EnclosureError>)
        requires
            names_unique(old(self).env_view()),
        ensures
            names_unique(final(self).env_view()),
            !old(self).config.dotenv ==> r == Ok::<usize, EnclosureError>(0) && final(self).env_view()
                == old(self).env_view(),
            old(self).config.dotenv ==> match dotenv_entries(text@) {
                None => r == Err::<usize, EnclosureError>(EnclosureError::UnparsableDotenv)
                    && final(self).env_view() == old(self).env_view(),
                Some(vars) => r == Ok::<usize, EnclosureError>(vars.len() as usize)
                    && final(self).env_view() == env_after(old(self).env_view(), vars),
            },
    {
        if !self.config.dotenv {
            return Ok(0);
        }
        match parse_dotenv_text(text) {
            None => Err(EnclosureError::UnparsableDotenv),
            Some(vars) => {
                self.inject_env(&vars);
                Ok(vars.len())
            },
        }
    }

    /// The steps of entering the container from the working directory
    /// `cwd`: a plain `chroot` when tracing, else a pivot of the root; then
    /// back to `cwd`, the read-only remount when the root is immutable, the
    /// handshake with the parent, and the command.
    pub fn entry_steps(&self, cwd: &str) -> (r: Vec<EntryStep>)
        ensures
            r@.len() == if self.config.immutable_root { 5int } else { 4int },
            self.config.trace ==> (r@[0] matches EntryStep::Chroot(p) && p@ == joined_all(
                "/tmp/boxxy-containers"@,
                seq![self.name@],
            )),
            !self.config.trace ==> (r@[0] matches EntryStep::PivotRoot(p) && p@ == joined_all(
                "/tmp/boxxy-containers"@,
                seq![self.name@],
            )),
            (r@[1] matches EntryStep::ChangeDir(p) && p@ == cwd@),
            self.config.immutable_root ==> r@[2] is RemountRootReadOnly,
            r@[r@.len() - 2] is AwaitParent,
            r@[r@.len() - 1] is RunCommand,
    {
        let root = self.container_root();
        let mut steps: Vec<EntryStep> = Vec::new();
        if self.config.trace {
            steps.push(EntryStep::Chroot(root));
        } else {
            steps.push(EntryStep::PivotRoot(root));
        }
        steps.push(EntryStep::ChangeDir(cwd.to_owned()));
        if self.config.immutable_root {
            steps.push(EntryStep::RemountRootReadOnly);
        }
        steps.push(EntryStep::AwaitParent);
        steps.push(EntryStep::RunCommand);
        steps
    }
}

} // verus!
