//! The container root, tilde expansion and bounded symlink resolution.

use vstd::prelude::*;

use crate::paths::{append_all, joined_all, views_of};

verus! {

/// A resolution follows at most `MAX_SYMLINK_DEPTH + 1` links; a chain that
/// goes on beyond them is given up.
pub const MAX_SYMLINK_DEPTH: u32 = 10;

/// `path` with a leading `~`, alone or before a `/`, replaced by `home`
/// when there is one.
pub open spec fn tilde_expanded(path: Seq<char>, home: Option<Seq<char>>) -> Seq<char> {
    if path.len() > 0 && path[0] == '~' && (path.len() == 1 || path[1] == '/') {
        match home {
            Some(h) => h + path.drop_first(),
            None => path,
        }
    } else {
        path
    }
}

pub open spec fn str_opt_view(o: Option<&str>) -> Option<Seq<char>> {
    match o {
        Some(s) => Some(s@),
        None => None,
    }
}

/// Relies on `shellexpand::tilde_with_context`: a leading `~` that stands
/// alone or before `/` is replaced by the home directory that the closure
/// gives; any other input, or no home directory, leaves the input as it is.
#[verifier::external_body]
fn tilde_with_home(path: &str, home: Option<&str>) -> (r: String)
    ensures
        r@ == tilde_expanded(path@, str_opt_view(home)),
{
    shellexpand::tilde_with_context(path, || home).into_owned()
}

/// Stateless helper for the paths of sandbox instances.
pub struct FsDriver {}

impl FsDriver {
    pub fn new() -> (r: Self) {
        FsDriver {}
    }

    /// The directory that holds the roots of all sandbox instances.
    pub fn all_containers_root(&self) -> (r: String)
        ensures
            r@ == "/tmp/boxxy-containers"@,
    {
        let r = "/tmp/boxxy-containers".to_owned();
        r
    }

    /// The root directory of the instance `name`.
    pub fn container_root(&self, name: &str) -> (r: String)
        ensures
            r@ == joined_all("/tmp/boxxy-containers"@, seq![name@]),
    {
        let base = self.all_containers_root();
        let parts: Vec<&str> = vec![name];
        assert(views_of(parts@) =~= seq![name@]);
        append_all(base.as_str(), parts)
    }

    /// `path` with a leading `~` expanded to `home`; see [`tilde_expanded`].
    pub fn expand_tilde(&self, path: &str, home: Option<&str>) -> (r: String)
        ensures
            r@ == tilde_expanded(path@, str_opt_view(home)),
    {
        tilde_with_home(path, home)
    }
}

/// Where `p` leads when the symlinks of `links` are followed from position
/// `i` of the chain: the first path that is no link, or an error once the
/// chain goes on past position `MAX_SYMLINK_DEPTH + 1`.
pub open spec fn resolve_model(links: Map<Seq<char>, Seq<char>>, p: Seq<char>, i: nat) -> Result<
    Seq<char>,
    (),
>
    decreases (MAX_SYMLINK_DEPTH + 1) - i,
{
    if !links.dom().contains(p) {
        Ok(p)
    } else if i >= MAX_SYMLINK_DEPTH + 1 {
        Err(())
    } else {
        resolve_model(links, links[p], i + 1)
    }
}

/// How a symlink resolution ended.
#[derive(Clone, Debug)]
pub enum SymlinkOutcome {
    /// The path reached, which is no link.
    Resolved(String),
    /// The chain was too long; the path at which it gave up.
    TooManyLinks(String),
}

pub enum OutcomeView {
    Resolved(Seq<char>),
    TooManyLinks(Seq<char>),
}

/// A symlink resolution in progress. The caller inspects [`current`]
/// and answers with the target of the link there, or `None` when it is no
/// link, until an outcome is reached.
///
/// [`current`]: SymlinkWalk::current
pub struct SymlinkWalk {
    current: String,
    depth: u32,
    outcome: Option<SymlinkOutcome>,
}

pub struct WalkView {
    pub current: Seq<char>,
    pub depth: nat,
    pub outcome: Option<OutcomeView>,
}

pub open spec fn outcome_view(o: Option<SymlinkOutcome>) -> Option<OutcomeView> {
    match o {
        Some(SymlinkOutcome::Resolved(p)) => Some(OutcomeView::Resolved(p@)),
        Some(SymlinkOutcome::TooManyLinks(p)) => Some(OutcomeView::TooManyLinks(p@)),
        None => None,
    }
}

/// The walk after one answer about `current` at position `depth`.
pub open spec fn walk_after(w: WalkView, target: Option<Seq<char>>) -> WalkView {
    match target {
        None => WalkView { outcome: Some(OutcomeView::Resolved(w.current)), ..w },
        Some(t) => if w.depth >= MAX_SYMLINK_DEPTH + 1 {
            WalkView { outcome: Some(OutcomeView::TooManyLinks(t)), ..w }
        } else {
            WalkView { current: t, depth: w.depth + 1, outcome: None }
        },
    }
}

/// The answer that `links` gives about `p`.
pub open spec fn link_answer(links: Map<Seq<char>, Seq<char>>, p: Seq<char>) -> Option<Seq<char>> {
    if links.dom().contains(p) {
        Some(links[p])
    } else {
        None
    }
}

/// What a walk still to go, or ended, stands for.
pub open spec fn walk_result(links: Map<Seq<char>, Seq<char>>, w: WalkView) -> Result<Seq<char>, ()> {
    match w.outcome {
        Some(OutcomeView::Resolved(p)) => Ok(p),
        Some(OutcomeView::TooManyLinks(_)) => Err(()),
        None => resolve_model(links, w.current, w.depth),
    }
}

impl View for SymlinkWalk {
    type V = WalkView;

    closed spec fn view(&self) -> WalkView {
        WalkView {
            current: self.current@,
            depth: self.depth as nat,
            outcome: outcome_view(self.outcome),
        }
    }
}

impl SymlinkWalk {
    /// The walk is consistent: an unfinished walk is within the bound.
    pub closed spec fn wf(&self) -> bool {
        self.depth <= MAX_SYMLINK_DEPTH + 1
    }

    /// A walk that starts at `path`.
    pub fn new(path: String) -> (r: Self)
        ensures
            r.wf(),
            r@ == (WalkView { current: path@, depth: 0, outcome: None }),
    {
        SymlinkWalk { current: path, depth: 0, outcome: None }
    }

    /// The path to inspect next.
    pub fn current(&self) -> (r: &String)
        ensures
            r@ == self@.current,
    {
        &self.current
    }

    /// The outcome, once there is one.
    pub fn outcome(&self) -> (r: Option<SymlinkOutcome>)
        ensures
            outcome_view(r) == self@.outcome,
    {
        match &self.outcome {
            Some(SymlinkOutcome::Resolved(p)) => Some(SymlinkOutcome::Resolved(p.clone())),
            Some(SymlinkOutcome::TooManyLinks(p)) => Some(SymlinkOutcome::TooManyLinks(p.clone())),
            None => None,
        }
    }

    /// Answers the inspection of the current path: `target` is where the
    /// link there leads, or `None` when it is no link. Each answer that does
    /// not end the walk moves one position further, and the position never
    /// exceeds `MAX_SYMLINK_DEPTH + 1`, so a walk ends after at most
    /// `MAX_SYMLINK_DEPTH + 2` answers.
    pub fn answer(&mut self, target: Option<String>)
        requires
            old(self).wf(),
            old(self)@.outcome is None,
        ensures
            final(self).wf(),
            final(self)@ == walk_after(old(self)@, str_view(target)),
            final(self)@.outcome is None ==> final(self)@.depth == old(self)@.depth + 1,
    {
        match target {
            None => {
                let p = self.current.clone();
                self.outcome = Some(SymlinkOutcome::Resolved(p));
            },
            Some(t) => {
                if self.depth >= MAX_SYMLINK_DEPTH + 1 {
                    self.outcome = Some(SymlinkOutcome::TooManyLinks(t));
                } else {
                    self.current = t;
                    self.depth = self.depth + 1;
                }
            },
        }
    }
}

pub open spec fn str_view(o: Option<String>) -> Option<Seq<char>> {
    match o {
        Some(s) => Some(s@),
        None => None,
    }
}

/// Answering a walk as `links` would keeps what it stands for: a walk
/// driven by the filesystem ends with what `resolve_model` gives.
pub proof fn lemma_walk_step_agrees(links: Map<Seq<char>, Seq<char>>, w: WalkView)
    requires
        w.outcome is None,
        w.depth <= MAX_SYMLINK_DEPTH + 1,
    ensures
        walk_result(links, walk_after(w, link_answer(links, w.current))) == walk_result(links, w),
{
}

/// The walk from `w` to its end, each answer given by `links`.
pub open spec fn run_walk(links: Map<Seq<char>, Seq<char>>, w: WalkView) -> WalkView
    decreases (MAX_SYMLINK_DEPTH + 2) - w.depth, if w.outcome is None {
        1int
    } else {
        0int
    },
{
    if w.outcome is Some || w.depth > MAX_SYMLINK_DEPTH + 1 {
        w
    } else {
        run_walk(links, walk_after(w, link_answer(links, w.current)))
    }
}

/// How many answers the walk from `w` takes to its end.
pub open spec fn walk_answers(links: Map<Seq<char>, Seq<char>>, w: WalkView) -> nat
    decreases (MAX_SYMLINK_DEPTH + 2) - w.depth, if w.outcome is None {
        1int
    } else {
        0int
    },
{
    if w.outcome is Some || w.depth > MAX_SYMLINK_DEPTH + 1 {
        0
    } else {
        1 + walk_answers(links, walk_after(w, link_answer(links, w.current)))
    }
}

proof fn lemma_run_walk(links: Map<Seq<char>, Seq<char>>, w: WalkView)
    requires
        w.depth <= MAX_SYMLINK_DEPTH + 1,
    ensures
        run_walk(links, w).outcome is Some || w.outcome is Some,
        walk_result(links, run_walk(links, w)) == walk_result(links, w),
        w.outcome is None ==> walk_answers(links, w) <= (MAX_SYMLINK_DEPTH + 2) - w.depth,
    decreases (MAX_SYMLINK_DEPTH + 2) - w.depth, if w.outcome is None {
        1int
    } else {
        0int
    },
{
    if w.outcome is None {
        let next = walk_after(w, link_answer(links, w.current));
        lemma_walk_step_agrees(links, w);
        lemma_run_walk(links, next);
        if next.outcome is Some {
            assert(walk_answers(links, next) == 0);
        } else {
            assert(next.depth == w.depth + 1);
        }
        assert(walk_answers(links, w) == 1 + walk_answers(links, next));
    }
}

/// A walk whose answers come from the links of a filesystem ends after at
/// most `MAX_SYMLINK_DEPTH + 2` answers, with the outcome that
/// `resolve_model` gives: the path reached, or too many links.
pub proof fn lemma_walk_resolves(links: Map<Seq<char>, Seq<char>>, start: Seq<char>)
    ensures
        ({
            let w = WalkView { current: start, depth: 0, outcome: None };
            &&& walk_answers(links, w) <= MAX_SYMLINK_DEPTH + 2
            &&& match run_walk(links, w).outcome {
                Some(OutcomeView::Resolved(p)) => resolve_model(links, start, 0) == Ok::<Seq<char>, ()>(p),
                Some(OutcomeView::TooManyLinks(_)) => resolve_model(links, start, 0) is Err,
                None => false,
            }
        }),
{
    let w = WalkView { current: start, depth: 0, outcome: None };
    lemma_run_walk(links, w);
}

/// A path on a cycle of links never resolves: the resolution fails once
/// the bound is passed.
pub proof fn lemma_symlink_cycle_fails(links: Map<Seq<char>, Seq<char>>, cycle: Seq<Seq<char>>)
    requires
        cycle.len() >= 1,
        forall|k: int|
            0 <= k < cycle.len() ==> links.dom().contains(#[trigger] cycle[k]) && links[cycle[k]]
                == cycle[(k + 1) % (cycle.len() as int)],
    ensures
        resolve_model(links, cycle[0], 0) is Err,
{
    lemma_cycle_at(links, cycle, 0, 0);
}

proof fn lemma_cycle_at(links: Map<Seq<char>, Seq<char>>, cycle: Seq<Seq<char>>, k: int, i: nat)
    requires
        cycle.len() >= 1,
        0 <= k < cycle.len(),
        i <= MAX_SYMLINK_DEPTH + 1,
        forall|j: int|
            0 <= j < cycle.len() ==> links.dom().contains(#[trigger] cycle[j]) && links[cycle[j]]
                == cycle[(j + 1) % (cycle.len() as int)],
    ensures
        resolve_model(links, cycle[k], i) is Err,
    decreases (MAX_SYMLINK_DEPTH + 1) - i,
{
    assert(links.dom().contains(cycle[k]));
    if i < MAX_SYMLINK_DEPTH + 1 {
        let n = cycle.len() as int;
        let next = (k + 1) % n;
        assert(links[cycle[k]] == cycle[next]);
        lemma_cycle_at(links, cycle, next, i + 1);
    }
}

} // verus!
