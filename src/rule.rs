//! Rules and the predicates that decide which of them apply to a command.
//!
//! Whatever the matching needs from the filesystem (canonical paths, symlink
//! targets, `$PATH` lookups) is gathered by the caller and handed in as a
//! probe; the decisions below are made on those values alone.

use vstd::prelude::*;
use vstd::string::*;

use crate::paths::{file_name, file_name_of, is_path_prefix, path_starts_with, same_text};
use crate::text::strings_view;

verus! {

/// Whether a rule redirects a regular file or a directory.
#[derive(Clone, Copy, Debug, PartialEq, Eq, Structural)]
pub enum RuleMode {
    File,
    Directory,
}

/// A named redirection: the child sees `rewrite` where it looks for
/// `target`.
#[derive(Clone, Debug)]
pub struct Rule {
    /// The name of this rule.
    pub name: String,
    /// The path that is shadowed.
    pub target: String,
    /// The path to shadow the target with.
    pub rewrite: String,
    /// Whether the endpoints are files or directories.
    pub mode: RuleMode,
    /// Directories below which the rule is in context; empty means everywhere.
    pub context: Vec<String>,
    /// Programs the rule applies to; empty means every program.
    pub only: Vec<String>,
    /// Environment variables injected into the command when the rule applies.
    pub env: Vec<(String, String)>,
}

/// An ordered list of rules.
#[derive(Clone, Debug)]
pub struct BoxxyRules {
    pub rules: Vec<Rule>,
}

pub struct RuleView {
    pub name: Seq<char>,
    pub target: Seq<char>,
    pub rewrite: Seq<char>,
    pub mode: RuleMode,
    pub context: Seq<Seq<char>>,
    pub only: Seq<Seq<char>>,
    pub env: Seq<(Seq<char>, Seq<char>)>,
}

pub open spec fn pairs_view(v: Seq<(String, String)>) -> Seq<(Seq<char>, Seq<char>)> {
    v.map_values(|e: (String, String)| (e.0@, e.1@))
}

pub open spec fn opt_view(o: Option<String>) -> Option<Seq<char>> {
    match o {
        Some(s) => Some(s@),
        None => None,
    }
}

impl View for Rule {
    type V = RuleView;

    open spec fn view(&self) -> RuleView {
        RuleView {
            name: self.name@,
            target: self.target@,
            rewrite: self.rewrite@,
            mode: self.mode,
            context: strings_view(self.context@),
            only: strings_view(self.only@),
            env: pairs_view(self.env@),
        }
    }
}

pub open spec fn rules_view(v: Seq<Rule>) -> Seq<RuleView> {
    v.map_values(|r: Rule| r@)
}

impl View for BoxxyRules {
    type V = Seq<RuleView>;

    open spec fn view(&self) -> Seq<RuleView> {
        rules_view(self.rules@)
    }
}

/// A copy of a list of strings.
pub fn copy_strings(v: &Vec<String>) -> (r: Vec<String>)
    ensures
        strings_view(r@) == strings_view(v@),
{
    let mut r: Vec<String> = Vec::new();
    let mut i: usize = 0;
    while i < v.len()
        invariant
            i <= v@.len(),
            r@.len() == i,
            forall|j: int| 0 <= j < i ==> r@[j]@ == v@[j]@,
        decreases v.len() - i,
    {
        let c = v[i].clone();
        assert(c@ == v@[i as int]@);
        r.push(c);
        i = i + 1;
    }
    assert(strings_view(r@) =~= strings_view(v@));
    r
}

/// A copy of a list of pairs of strings.
pub fn copy_pairs(v: &Vec<(String, String)>) -> (r: Vec<(String, String)>)
    ensures
        pairs_view(r@) == pairs_view(v@),
{
    let mut r: Vec<(String, String)> = Vec::new();
    let mut i: usize = 0;
    while i < v.len()
        invariant
            i <= v@.len(),
            r@.len() == i,
            forall|j: int| 0 <= j < i ==> r@[j].0@ == v@[j].0@ && r@[j].1@ == v@[j].1@,
        decreases v.len() - i,
    {
        let k = v[i].0.clone();
        let val = v[i].1.clone();
        r.push((k, val));
        i = i + 1;
    }
    assert(pairs_view(r@) =~= pairs_view(v@));
    r
}

/// Why a rule could not be decided.
#[derive(Clone, Copy, Debug, PartialEq, Eq, Structural)]
pub enum RuleError {
    /// A context directory could not be resolved.
    ContextUnresolved,
    /// The command's program could not be resolved.
    ProgramUnresolved,
    /// An entry of `only` could not be resolved.
    EntryUnresolved,
    /// Fewer or more probes were given than there are items to decide.
    MissingProbe,
}

/// What the filesystem says about one `only` entry and the command's program.
/// `None` stands for a lookup that failed.
#[derive(Clone, Debug)]
pub struct BinaryProbe {
    /// The program, tilde-expanded, canonicalized and symlink-resolved.
    pub expanded_program: Option<String>,
    /// The entry, canonicalized.
    pub canonical_entry: Option<String>,
    /// The canonical entry, symlink-resolved.
    pub resolved_entry: Option<String>,
    /// The expanded program, symlink-resolved.
    pub resolved_program: Option<String>,
    /// Where `$PATH` finds the entry.
    pub which_entry: Option<String>,
    /// Where `$PATH` finds the program.
    pub which_program: Option<String>,
}

pub struct ProbeView {
    pub expanded_program: Option<Seq<char>>,
    pub canonical_entry: Option<Seq<char>>,
    pub resolved_entry: Option<Seq<char>>,
    pub resolved_program: Option<Seq<char>>,
    pub which_entry: Option<Seq<char>>,
    pub which_program: Option<Seq<char>>,
}

impl View for BinaryProbe {
    type V = ProbeView;

    open spec fn view(&self) -> ProbeView {
        ProbeView {
            expanded_program: opt_view(self.expanded_program),
            canonical_entry: opt_view(self.canonical_entry),
            resolved_entry: opt_view(self.resolved_entry),
            resolved_program: opt_view(self.resolved_program),
            which_entry: opt_view(self.which_entry),
            which_program: opt_view(self.which_program),
        }
    }
}

/// What the filesystem says about one rule: its context directories, resolved,
/// and one probe per `only` entry.
#[derive(Clone, Debug)]
pub struct RuleProbe {
    pub contexts: Vec<Option<String>>,
    pub binaries: Vec<BinaryProbe>,
}

pub open spec fn opts_view(v: Seq<Option<String>>) -> Seq<Option<Seq<char>>> {
    v.map_values(|o: Option<String>| opt_view(o))
}

pub open spec fn probes_view(v: Seq<BinaryProbe>) -> Seq<ProbeView> {
    v.map_values(|p: BinaryProbe| p@)
}

pub struct RuleProbeView {
    pub contexts: Seq<Option<Seq<char>>>,
    pub binaries: Seq<ProbeView>,
}

impl View for RuleProbe {
    type V = RuleProbeView;

    open spec fn view(&self) -> RuleProbeView {
        RuleProbeView { contexts: opts_view(self.contexts@), binaries: probes_view(self.binaries@) }
    }
}

pub open spec fn rule_probes_view(v: Seq<RuleProbe>) -> Seq<RuleProbeView> {
    v.map_values(|p: RuleProbe| p@)
}

/// The context entries from the first on: the first resolved directory that
/// holds `cwd` decides; an unresolved one before it is an error.
pub open spec fn context_scan(contexts: Seq<Option<Seq<char>>>, cwd: Seq<char>) -> Result<
    bool,
    RuleError,
>
    decreases contexts.len(),
{
    if contexts.len() == 0 {
        Ok(false)
    } else {
        match contexts[0] {
            None => Err(RuleError::ContextUnresolved),
            Some(dir) => if is_path_prefix(dir, cwd) {
                Ok(true)
            } else {
                context_scan(contexts.drop_first(), cwd)
            },
        }
    }
}

/// Whether the working directory `cwd` is in the context of `rule`.
pub open spec fn context_outcome(rule: RuleView, contexts: Seq<Option<Seq<char>>>, cwd: Seq<char>) -> Result<bool, RuleError> {
    if rule.context.len() == 0 {
        Ok(true)
    } else if contexts.len() != rule.context.len() {
        Err(RuleError::MissingProbe)
    } else {
        context_scan(contexts, cwd)
    }
}

/// The criteria that need the filesystem: the canonical entry equals the
/// expanded program, or both resolve to the same file; an entry that cannot
/// be canonicalized is compared with the resolved program's file name, or,
/// lacking one, with the resolved program itself.
pub open spec fn resolved_match(entry: Seq<char>, expanded: Seq<char>, p: ProbeView) -> Result<
    bool,
    RuleError,
> {
    match p.canonical_entry {
        Some(canonical) => if canonical == expanded {
            Ok(true)
        } else {
            match p.resolved_entry {
                None => Err(RuleError::EntryUnresolved),
                Some(a) => match p.resolved_program {
                    None => Err(RuleError::ProgramUnresolved),
                    Some(b) => Ok(a == b),
                },
            }
        },
        None => match p.resolved_program {
            None => Err(RuleError::ProgramUnresolved),
            Some(rp) => Ok(
                match file_name_of(rp) {
                    Some(f) => f == entry,
                    None => entry == rp,
                },
            ),
        },
    }
}

/// Whether `program` is the `only` entry `entry`, by the first criterion that
/// holds: the entry's file name is the program; the entry is the program;
/// the filesystem criteria of [`resolved_match`]; both are found at the same
/// place on `$PATH`.
pub open spec fn binary_match(program: Seq<char>, entry: Seq<char>, p: ProbeView) -> Result<
    bool,
    RuleError,
> {
    if file_name_of(entry) == Some(program) {
        Ok(true)
    } else if entry == program {
        Ok(true)
    } else {
        match p.expanded_program {
            None => Err(RuleError::ProgramUnresolved),
            Some(expanded) => match resolved_match(entry, expanded, p) {
                Err(e) => Err(e),
                Ok(true) => Ok(true),
                Ok(false) => Ok(p.which_entry is Some && p.which_entry == p.which_program),
            },
        }
    }
}

/// The `only` entries from the first on: the first that matches decides.
pub open spec fn binary_scan(program: Seq<char>, entries: Seq<Seq<char>>, probes: Seq<ProbeView>) -> Result<bool, RuleError>
    decreases entries.len(),
{
    if entries.len() == 0 || probes.len() == 0 {
        Ok(false)
    } else {
        match binary_match(program, entries[0], probes[0]) {
            Err(e) => Err(e),
            Ok(true) => Ok(true),
            Ok(false) => binary_scan(program, entries.drop_first(), probes.drop_first()),
        }
    }
}

/// Whether `rule` applies to `program`.
pub open spec fn binary_outcome(rule: RuleView, program: Seq<char>, probes: Seq<ProbeView>) -> Result<bool, RuleError> {
    if rule.only.len() == 0 {
        Ok(true)
    } else if probes.len() != rule.only.len() {
        Err(RuleError::MissingProbe)
    } else {
        binary_scan(program, rule.only, probes)
    }
}

/// The rules that apply, in order. The context of each rule is decided first
/// and its errors count, but a rule applies whenever it applies to the
/// program, in context or not.
pub open spec fn selection(
    rules: Seq<RuleView>,
    probes: Seq<RuleProbeView>,
    cwd: Seq<char>,
    program: Seq<char>,
) -> Result<Seq<RuleView>, RuleError>
    decreases rules.len(),
{
    if rules.len() == 0 || probes.len() == 0 {
        Ok(Seq::empty())
    } else {
        match context_outcome(rules[0], probes[0].contexts, cwd) {
            Err(e) => Err(e),
            Ok(_) => match binary_outcome(rules[0], program, probes[0].binaries) {
                Err(e) => Err(e),
                Ok(applies) => match selection(rules.drop_first(), probes.drop_first(), cwd, program) {
                    Err(e) => Err(e),
                    Ok(rest) => Ok(if applies { seq![rules[0]] + rest } else { rest }),
                },
            },
        }
    }
}

/// The outcome for the whole ruleset: one probe per rule is needed.
pub open spec fn applicable_outcome(
    rules: Seq<RuleView>,
    probes: Seq<RuleProbeView>,
    cwd: Seq<char>,
    program: Seq<char>,
) -> Result<Seq<RuleView>, RuleError> {
    if probes.len() != rules.len() {
        Err(RuleError::MissingProbe)
    } else {
        selection(rules, probes, cwd, program)
    }
}

/// `kept` followed by what `r` selects, or the error of `r`.
pub open spec fn prefixed(kept: Seq<RuleView>, r: Result<Seq<RuleView>, RuleError>) -> Result<
    Seq<RuleView>,
    RuleError,
> {
    match r {
        Ok(rest) => Ok(kept + rest),
        Err(e) => Err(e),
    }
}

/// Whether the two optional strings are equal.
pub fn opt_same(a: &Option<String>, b: &Option<String>) -> (r: bool)
    ensures
        r == (opt_view(*a) == opt_view(*b)),
{
    match (a, b) {
        (Some(x), Some(y)) => same_text(x.as_str(), y.as_str()),
        (None, None) => true,
        _ => false,
    }
}

fn resolved_check(entry: &str, expanded: &String, p: &BinaryProbe) -> (r: Result<bool, RuleError>)
    ensures
        r == resolved_match(entry@, expanded@, p@),
{
    match &p.canonical_entry {
        Some(canonical) => {
            if same_text(canonical.as_str(), expanded.as_str()) {
                Ok(true)
            } else {
                match (&p.resolved_entry, &p.resolved_program) {
                    (None, _) => Err(RuleError::EntryUnresolved),
                    (Some(_), None) => Err(RuleError::ProgramUnresolved),
                    (Some(a), Some(b)) => Ok(same_text(a.as_str(), b.as_str())),
                }
            }
        },
        None => match &p.resolved_program {
            None => Err(RuleError::ProgramUnresolved),
            Some(rp) => match file_name(rp.as_str()) {
                Some(f) => Ok(same_text(f.as_str(), entry)),
                None => Ok(same_text(entry, rp.as_str())),
            },
        },
    }
}

impl Rule {
    /// A rule names a target and a rewrite.
    pub open spec fn wf(&self) -> bool {
        self.target@.len() > 0 && self.rewrite@.len() > 0
    }

    /// Whether this rule names a target and a rewrite.
    pub fn is_well_formed(&self) -> (r: bool)
        ensures
            r == self.wf(),
    {
        self.target.as_str().unicode_len() > 0 && self.rewrite.as_str().unicode_len() > 0
    }

    /// A copy of this rule.
    pub fn duplicate(&self) -> (r: Rule)
        ensures
            r@ == self@,
    {
        Rule {
            name: self.name.clone(),
            target: self.target.clone(),
            rewrite: self.rewrite.clone(),
            mode: self.mode,
            context: copy_strings(&self.context),
            only: copy_strings(&self.only),
            env: copy_pairs(&self.env),
        }
    }

    /// Whether `program` is the `only` entry `entry`; see [`binary_match`].
    pub fn test_program(&self, program: &str, entry: &str, probe: &BinaryProbe) -> (r: Result<
        bool,
        RuleError,
    >)
        ensures
            r == binary_match(program@, entry@, probe@),
    {
        match file_name(entry) {
            Some(f) => {
                if same_text(f.as_str(), program) {
                    return Ok(true);
                }
            },
            None => {},
        }
        if same_text(entry, program) {
            return Ok(true);
        }
        let expanded = match &probe.expanded_program {
            None => {
                return Err(RuleError::ProgramUnresolved);
            },
            Some(e) => e,
        };
        match resolved_check(entry, expanded, probe) {
            Err(e) => Err(e),
            Ok(true) => Ok(true),
            Ok(false) => Ok(probe.which_entry.is_some() && opt_same(&probe.which_entry, &probe.which_program)),
        }
    }

    /// Whether this rule applies to `program`, given one probe per `only`
    /// entry; see [`binary_outcome`].
    pub fn applies_to_binary(&self, program: &str, probes: &Vec<BinaryProbe>) -> (r: Result<
        bool,
        RuleError,
    >)
        ensures
            r == binary_outcome(self@, program@, probes_view(probes@)),
    {
        let n = self.only.len();
        if n == 0 {
            return Ok(true);
        }
        if probes.len() != n {
            return Err(RuleError::MissingProbe);
        }
        let ghost es = self@.only;
        let ghost ps = probes_view(probes@);
        assert(es.subrange(0, n as int) =~= es);
        assert(ps.subrange(0, n as int) =~= ps);
        let mut k: usize = 0;
        while k < n
            invariant
                n == es.len(),
                n == ps.len(),
                es == self@.only,
                ps == probes_view(probes@),
                k <= n,
                binary_scan(program@, es, ps) == binary_scan(
                    program@,
                    es.subrange(k as int, n as int),
                    ps.subrange(k as int, n as int),
                ),
            decreases n - k,
        {
            let r = self.test_program(program, self.only[k].as_str(), &probes[k]);
            assert(es.subrange(k as int, n as int).drop_first() =~= es.subrange(k as int + 1, n as int));
            assert(ps.subrange(k as int, n as int).drop_first() =~= ps.subrange(k as int + 1, n as int));
            match r {
                Err(e) => {
                    return Err(e);
                },
                Ok(true) => {
                    return Ok(true);
                },
                Ok(false) => {},
            }
            k = k + 1;
        }
        Ok(false)
    }

    /// Whether the working directory `cwd` is in this rule's context, given
    /// each context directory resolved; see [`context_outcome`].
    pub fn currently_in_context(&self, cwd: &str, contexts: &Vec<Option<String>>) -> (r: Result<
        bool,
        RuleError,
    >)
        ensures
            r == context_outcome(self@, opts_view(contexts@), cwd@),
    {
        let n = self.context.len();
        if n == 0 {
            return Ok(true);
        }
        if contexts.len() != n {
            return Err(RuleError::MissingProbe);
        }
        let ghost cs = opts_view(contexts@);
        assert(cs.subrange(0, n as int) =~= cs);
        let mut k: usize = 0;
        while k < n
            invariant
                n == cs.len(),
                n == self@.context.len(),
                cs == opts_view(contexts@),
                k <= n,
                context_scan(cs, cwd@) == context_scan(cs.subrange(k as int, n as int), cwd@),
            decreases n - k,
        {
            assert(cs.subrange(k as int, n as int).drop_first() =~= cs.subrange(k as int + 1, n as int));
            match &contexts[k] {
                None => {
                    return Err(RuleError::ContextUnresolved);
                },
                Some(dir) => {
                    if path_starts_with(cwd, dir.as_str()) {
                        return Ok(true);
                    }
                },
            }
            k = k + 1;
        }
        Ok(false)
    }
}

impl BoxxyRules {
    /// The rules that apply to `program` run from `cwd`, in their order, given
    /// one probe per rule; see [`selection`].
    pub fn get_all_applicable_rules(&self, cwd: &str, program: &str, probes: &Vec<RuleProbe>) -> (r:
        Result<Vec<Rule>, RuleError>)
        ensures
            match r {
                Ok(v) => applicable_outcome(self@, rule_probes_view(probes@), cwd@, program@) == Ok::<Seq<RuleView>, RuleError>(rules_view(v@)),
                Err(e) => applicable_outcome(self@, rule_probes_view(probes@), cwd@, program@) == Err::<Seq<RuleView>, RuleError>(e),
            },
    {
        let n = self.rules.len();
        if probes.len() != n {
            return Err(RuleError::MissingProbe);
        }
        let ghost rs = self@;
        let ghost ps = rule_probes_view(probes@);
        assert(rs.subrange(0, n as int) =~= rs);
        assert(ps.subrange(0, n as int) =~= ps);
        let mut kept: Vec<Rule> = Vec::new();
        assert(rules_view(kept@) + Seq::<RuleView>::empty() =~= Seq::<RuleView>::empty());
        let mut k: usize = 0;
        while k < n
            invariant
                n == rs.len(),
                n == ps.len(),
                rs == self@,
                ps == rule_probes_view(probes@),
                k <= n,
                selection(rs, ps, cwd@, program@) == prefixed(
                    rules_view(kept@),
                    selection(rs.subrange(k as int, n as int), ps.subrange(k as int, n as int), cwd@, program@),
                ),
            decreases n - k,
        {
            let rule = &self.rules[k];
            let probe = &probes[k];
            let ghost rest_r = rs.subrange(k as int + 1, n as int);
            let ghost rest_p = ps.subrange(k as int + 1, n as int);
            assert(rs.subrange(k as int, n as int).drop_first() =~= rest_r);
            assert(ps.subrange(k as int, n as int).drop_first() =~= rest_p);
            match rule.currently_in_context(cwd, &probe.contexts) {
                Err(e) => {
                    return Err(e);
                },
                Ok(_) => {},
            }
            let applies = match rule.applies_to_binary(program, &probe.binaries) {
                Err(e) => {
                    return Err(e);
                },
                Ok(b) => b,
            };
            let ghost before = rules_view(kept@);
            if applies {
                kept.push(rule.duplicate());
                assert(rules_view(kept@) =~= before.push(rs[k as int]));
            }
            proof {
                match selection(rest_r, rest_p, cwd@, program@) {
                    Ok(rest) => {
                        if applies {
                            assert(before + (seq![rs[k as int]] + rest) =~= before.push(rs[k as int]) + rest);
                        }
                    },
                    Err(_) => {},
                }
            }
            k = k + 1;
        }
        assert(rules_view(kept@) + Seq::<RuleView>::empty() =~= rules_view(kept@));
        Ok(kept)
    }
}

/// `idx` are strictly increasing positions of `s` that pick out `sub`.
pub open spec fn picks(idx: Seq<int>, sub: Seq<RuleView>, s: Seq<RuleView>) -> bool {
    &&& idx.len() == sub.len()
    &&& forall|k: int| 0 <= k < idx.len() ==> 0 <= #[trigger] idx[k] < s.len() && sub[k] == s[idx[k]]
    &&& forall|k: int, l: int| 0 <= k < l < idx.len() ==> idx[k] < idx[l]
}

/// `sub` is `s` with some items left out, the others in their order.
pub open spec fn is_subsequence(sub: Seq<RuleView>, s: Seq<RuleView>) -> bool {
    exists|idx: Seq<int>| picks(idx, sub, s)
}

proof fn lemma_selection_subsequence(
    rules: Seq<RuleView>,
    probes: Seq<RuleProbeView>,
    cwd: Seq<char>,
    program: Seq<char>,
)
    ensures
        match selection(rules, probes, cwd, program) {
            Ok(sel) => is_subsequence(sel, rules),
            Err(_) => true,
        },
    decreases rules.len(),
{
    if rules.len() == 0 || probes.len() == 0 {
        assert(picks(Seq::<int>::empty(), Seq::<RuleView>::empty(), rules));
    } else {
        lemma_selection_subsequence(rules.drop_first(), probes.drop_first(), cwd, program);
        match selection(rules.drop_first(), probes.drop_first(), cwd, program) {
            Ok(rest) => {
                let idx = choose|idx: Seq<int>| picks(idx, rest, rules.drop_first());
                let shifted = idx.map_values(|i: int| i + 1);
                assert(picks(shifted, rest, rules));
                let with_first = seq![0int] + shifted;
                assert(picks(with_first, seq![rules[0]] + rest, rules)) by {
                    let sub = seq![rules[0]] + rest;
                    assert forall|k: int| 0 <= k < with_first.len() implies 0 <= #[trigger] with_first[k]
                        < rules.len() && sub[k] == rules[with_first[k]] by {
                        if k > 0 {
                            assert(with_first[k] == shifted[k - 1]);
                        }
                    }
                    assert forall|k: int, l: int| 0 <= k < l < with_first.len() implies with_first[k]
                        < with_first[l] by {
                        if k > 0 {
                            assert(with_first[k] == shifted[k - 1]);
                        }
                        assert(with_first[l] == shifted[l - 1]);
                    }
                }
            },
            Err(_) => {},
        }
    }
}

/// The rules that apply come out in the order of the ruleset, as a
/// subsequence of it.
pub proof fn lemma_applicable_rules_keep_order(
    rules: Seq<RuleView>,
    probes: Seq<RuleProbeView>,
    cwd: Seq<char>,
    program: Seq<char>,
)
    ensures
        match applicable_outcome(rules, probes, cwd, program) {
            Ok(sel) => is_subsequence(sel, rules),
            Err(_) => true,
        },
{
    lemma_selection_subsequence(rules, probes, cwd, program);
}

} // verus!
