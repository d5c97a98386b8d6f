//! The active configuration: the merged ruleset, the flags and the command.

use vstd::prelude::*;

use crate::paths::{ancestors, append_all, is_ancestor_chain, joined_all};
use crate::rule::{BoxxyRules, Rule, RuleMode, RuleView, rules_view};
use crate::text::{append_chars, chars_of, contains, contains_text, string_of, strings_view};

verus! {

/// The command to run in the sandbox: program, arguments and the environment
/// variables set on top of the inherited ones, each name once.
#[derive(Clone, Debug)]
pub struct CommandSpec {
    pub program: String,
    pub args: Vec<String>,
    pub env: Vec<(String, String)>,
}

/// Everything the enclosure needs to know before it starts.
#[derive(Clone, Debug)]
pub struct BoxxyConfig {
    pub rules: BoxxyRules,
    pub immutable_root: bool,
    pub trace: bool,
    pub dotenv: bool,
    pub daemon: bool,
    pub command: CommandSpec,
}

/// Why a rule given on the command line was refused.
#[derive(Clone, Copy, Debug, PartialEq, Eq, Structural)]
pub enum ConfigError {
    /// Not of the form `target:rewrite` or `target:rewrite:mode`.
    InvalidCliRule,
    /// A mode other than `file` or `directory`, in any case.
    InvalidMode,
}

/// The rules of each ruleset, one ruleset after the other.
pub open spec fn merged(sets: Seq<Seq<RuleView>>) -> Seq<RuleView>
    decreases sets.len(),
{
    if sets.len() == 0 {
        Seq::empty()
    } else {
        merged(sets.drop_last()) + sets.last()
    }
}

pub open spec fn rulesets_view(v: Seq<BoxxyRules>) -> Seq<Seq<RuleView>> {
    v.map_values(|r: BoxxyRules| r@)
}

/// The pieces of `s` between occurrences of `sep`; there is always at least
/// one.
pub open spec fn split_on(s: Seq<char>, sep: char) -> Seq<Seq<char>>
    decreases s.len(),
{
    if s.len() == 0 {
        seq![Seq::empty()]
    } else {
        let p = split_on(s.drop_last(), sep);
        if s.last() == sep {
            p.push(Seq::empty())
        } else {
            p.update(p.len() - 1, p.last().push(s.last()))
        }
    }
}

proof fn lemma_split_nonempty(s: Seq<char>, sep: char)
    ensures
        split_on(s, sep).len() >= 1,
    decreases s.len(),
{
    if s.len() > 0 {
        lemma_split_nonempty(s.drop_last(), sep);
    }
}

/// Whether `s` spells `lower`, a word of lower-case ASCII letters, in any
/// case.
pub open spec fn spells_ignoring_case(s: Seq<char>, lower: Seq<char>) -> bool {
    &&& s.len() == lower.len()
    &&& forall|i: int|
        0 <= i < s.len() ==> (s[i] == lower[i] || (s[i] as u32) + 32 == (lower[i] as u32))
}

/// The mode that `s` names.
pub open spec fn mode_named(s: Seq<char>) -> Option<RuleMode> {
    if spells_ignoring_case(s, seq!['f', 'i', 'l', 'e']) {
        Some(RuleMode::File)
    } else if spells_ignoring_case(s, seq!['d', 'i', 'r', 'e', 'c', 't', 'o', 'r', 'y']) {
        Some(RuleMode::Directory)
    } else {
        None
    }
}

/// The rule that a command-line specification `target:rewrite[:mode]`
/// stands for; without a mode it redirects a file. Target and rewrite must
/// not be empty.
pub open spec fn cli_rule(s: Seq<char>) -> Result<RuleView, ConfigError> {
    let parts = split_on(s, ':');
    if (parts.len() == 2 || parts.len() == 3) && (parts[0].len() == 0 || parts[1].len() == 0) {
        Err(ConfigError::InvalidCliRule)
    } else if parts.len() == 2 {
        Ok(
            RuleView {
                name: "cli-loaded rule: "@ + parts[0] + " -> "@ + parts[1],
                target: parts[0],
                rewrite: parts[1],
                mode: RuleMode::File,
                context: Seq::empty(),
                only: Seq::empty(),
                env: Seq::empty(),
            },
        )
    } else if parts.len() == 3 {
        match mode_named(parts[2]) {
            Some(mode) => Ok(
                RuleView {
                    name: "cli-loaded rule: "@ + parts[0] + " -> "@ + parts[1] + " ("@ + parts[2]
                        + ")"@,
                    target: parts[0],
                    rewrite: parts[1],
                    mode,
                    context: Seq::empty(),
                    only: Seq::empty(),
                    env: Seq::empty(),
                },
            ),
            None => Err(ConfigError::InvalidMode),
        }
    } else {
        Err(ConfigError::InvalidCliRule)
    }
}

/// The rules for the given specifications, in order, or the first error.
pub open spec fn cli_rules(specs: Seq<Seq<char>>) -> Result<Seq<RuleView>, ConfigError>
    decreases specs.len(),
{
    if specs.len() == 0 {
        Ok(Seq::empty())
    } else {
        match cli_rule(specs[0]) {
            Err(e) => Err(e),
            Ok(r) => match cli_rules(specs.drop_first()) {
                Err(e) => Err(e),
                Ok(rest) => Ok(seq![r] + rest),
            },
        }
    }
}

/// `kept` followed by what `r` holds, or the error of `r`.
pub open spec fn after_kept(kept: Seq<RuleView>, r: Result<Seq<RuleView>, ConfigError>) -> Result<
    Seq<RuleView>,
    ConfigError,
> {
    match r {
        Ok(rest) => Ok(kept + rest),
        Err(e) => Err(e),
    }
}

/// The file name of the configuration: a separate one for development
/// builds.
pub open spec fn config_file_name(debug: bool) -> Seq<char> {
    if debug {
        "boxxy-dev.yaml"@
    } else {
        "boxxy.yaml"@
    }
}

/// Where the default configuration lives under the user's configuration
/// directory.
pub open spec fn config_path_under(config_dir: Seq<char>, debug: bool) -> Seq<char> {
    joined_all(config_dir, seq!["boxxy"@, config_file_name(debug)])
}

/// The variables of `env` with `key` set to `value`: in place when the name
/// is there, else at the end.
pub open spec fn env_with(env: Seq<(Seq<char>, Seq<char>)>, key: Seq<char>, value: Seq<char>) -> Seq<
    (Seq<char>, Seq<char>),
> {
    if exists|i: int| 0 <= i < env.len() && env[i].0 == key {
        let i = choose|i: int| 0 <= i < env.len() && env[i].0 == key;
        env.update(i, (key, value))
    } else {
        env.push((key, value))
    }
}

/// Each name appears once.
pub open spec fn names_unique(env: Seq<(Seq<char>, Seq<char>)>) -> bool {
    forall|i: int, j: int| 0 <= i < j < env.len() ==> env[i].0 != env[j].0
}

/// Splits `s` at each occurrence of `sep`.
fn split_chars(s: &Vec<char>, sep: char) -> (r: Vec<Vec<char>>)
    ensures
        r@.map_values(|p: Vec<char>| p@) == split_on(s@, sep),
{
    let mut pieces: Vec<Vec<char>> = Vec::new();
    let mut cur: Vec<char> = Vec::new();
    let mut i: usize = 0;
    assert(s@.subrange(0, 0) =~= Seq::<char>::empty());
    assert(pieces@.map_values(|p: Vec<char>| p@).push(cur@) =~= split_on(Seq::<char>::empty(), sep));
    while i < s.len()
        invariant
            i <= s@.len(),
            pieces@.map_values(|p: Vec<char>| p@).push(cur@) == split_on(s@.subrange(0, i as int), sep),
        decreases s.len() - i,
    {
        let ghost prev = s@.subrange(0, i as int);
        let ghost next = s@.subrange(0, i as int + 1);
        assert(next.drop_last() =~= prev);
        proof {
            lemma_split_nonempty(prev, sep);
        }
        if s[i] == sep {
            let done = cur;
            pieces.push(done);
            cur = Vec::new();
            assert(pieces@.map_values(|p: Vec<char>| p@).push(cur@) =~= split_on(prev, sep).push(
                Seq::empty(),
            ));
        } else {
            cur.push(s[i]);
            assert(pieces@.map_values(|p: Vec<char>| p@).push(cur@) =~= split_on(prev, sep).update(
                split_on(prev, sep).len() - 1,
                split_on(prev, sep).last().push(s@[i as int]),
            ));
        }
        i = i + 1;
    }
    assert(s@.subrange(0, i as int) =~= s@);
    pieces.push(cur);
    pieces
}

/// Whether `s` spells the lower-case ASCII word `lower` in any case.
fn spells(s: &Vec<char>, lower: &Vec<char>) -> (r: bool)
    ensures
        r == spells_ignoring_case(s@, lower@),
{
    if s.len() != lower.len() {
        return false;
    }
    let mut i: usize = 0;
    while i < s.len()
        invariant
            s@.len() == lower@.len(),
            i <= s@.len(),
            forall|j: int|
                0 <= j < i ==> (s@[j] == lower@[j] || (s@[j] as u32) + 32 == (lower@[j] as u32)),
        decreases s.len() - i,
    {
        let a = s[i] as u32 as u64;
        let b = lower[i] as u32 as u64;
        if !(s[i] == lower[i] || a + 32 == b) {
            return false;
        }
        i = i + 1;
    }
    true
}

/// The mode that `name` names, `file` or `directory` in any case.
pub fn parse_mode(name: &str) -> (r: Option<RuleMode>)
    ensures
        r == mode_named(name@),
{
    let v = chars_of(name);
    let file_word: Vec<char> = vec!['f', 'i', 'l', 'e'];
    let dir_word: Vec<char> = vec!['d', 'i', 'r', 'e', 'c', 't', 'o', 'r', 'y'];
    assert(file_word@ =~= seq!['f', 'i', 'l', 'e']);
    assert(dir_word@ =~= seq!['d', 'i', 'r', 'e', 'c', 't', 'o', 'r', 'y']);
    if spells(&v, &file_word) {
        Some(RuleMode::File)
    } else if spells(&v, &dir_word) {
        Some(RuleMode::Directory)
    } else {
        None
    }
}

impl BoxxyConfig {
    /// The rules of each ruleset, one ruleset after the other; nothing is
    /// dropped or deduplicated.
    pub fn merge(configs: Vec<BoxxyRules>) -> (r: BoxxyRules)
        ensures
            r@ == merged(rulesets_view(configs@)),
    {
        let mut rules: Vec<Rule> = Vec::new();
        let mut i: usize = 0;
        while i < configs.len()
            invariant
                i <= configs@.len(),
                rules_view(rules@) == merged(rulesets_view(configs@.subrange(0, i as int))),
            decreases configs.len() - i,
        {
            let ghost before = rules_view(rules@);
            let set = &configs[i].rules;
            let mut j: usize = 0;
            while j < set.len()
                invariant
                    j <= set@.len(),
                    rules_view(rules@) == before + rules_view(set@.subrange(0, j as int)),
                decreases set.len() - j,
            {
                let ghost prev = rules@;
                let d = set[j].duplicate();
                rules.push(d);
                assert(rules_view(rules@) =~= rules_view(prev).push(set@[j as int]@));
                assert(rules_view(set@.subrange(0, j as int + 1)) =~= rules_view(
                    set@.subrange(0, j as int),
                ).push(set@[j as int]@));
                j = j + 1;
                assert(rules_view(rules@) =~= before + rules_view(set@.subrange(0, j as int)));
            }
            assert(set@.subrange(0, j as int) =~= set@);
            let ghost sets = rulesets_view(configs@.subrange(0, i as int + 1));
            assert(sets.drop_last() =~= rulesets_view(configs@.subrange(0, i as int)));
            assert(sets.last() == configs@[i as int]@);
            i = i + 1;
        }
        assert(configs@.subrange(0, i as int) =~= configs@);
        BoxxyRules { rules }
    }

    /// The rules given on the command line as `target:rewrite[:mode]`, in
    /// order; see [`cli_rule`].
    pub fn load_rules_from_cli_flag(rules: &[String]) -> (r: Result<BoxxyRules, ConfigError>)
        ensures
            match r {
                Ok(b) => cli_rules(strings_view(rules@)) == Ok::<Seq<RuleView>, ConfigError>(b@),
                Err(e) => cli_rules(strings_view(rules@)) == Err::<Seq<RuleView>, ConfigError>(e),
            },
    {
        let ghost specs = strings_view(rules@);
        let n = rules.len();
        assert(specs.subrange(0, n as int) =~= specs);
        let mut out: Vec<Rule> = Vec::new();
        assert(rules_view(out@) + Seq::<RuleView>::empty() =~= Seq::<RuleView>::empty());
        let mut i: usize = 0;
        while i < n
            invariant
                n == specs.len(),
                specs == strings_view(rules@),
                i <= n,
                cli_rules(specs) == after_kept(rules_view(out@), cli_rules(specs.subrange(i as int, n as int))),
            decreases n - i,
        {
            let ghost rest = specs.subrange(i as int + 1, n as int);
            assert(specs.subrange(i as int, n as int).drop_first() =~= rest);
            let rule = match cli_rule_of(&rules[i]) {
                Err(e) => {
                    return Err(e);
                },
                Ok(rule) => rule,
            };
            let ghost before = rules_view(out@);
            let ghost rv = rule@;
            out.push(rule);
            assert(rules_view(out@) =~= before.push(rv));
            proof {
                match cli_rules(rest) {
                    Ok(tail) => {
                        assert(before + (seq![rv] + tail) =~= before.push(rv) + tail);
                    },
                    Err(_) => {},
                }
            }
            i = i + 1;
        }
        assert(rules_view(out@) + Seq::<RuleView>::empty() =~= rules_view(out@));
        Ok(BoxxyRules { rules: out })
    }

    /// The file name of the configuration; see [`config_file_name`].
    pub fn default_config_file_name(debug: bool) -> (r: &'static str)
        ensures
            r@ == config_file_name(debug),
    {
        if debug {
            "boxxy-dev.yaml"
        } else {
            "boxxy.yaml"
        }
    }

    /// Whether the running executable, at `exe_path`, is a development build.
    pub fn debug_mode(exe_path: &str) -> (r: bool)
        ensures
            r == contains_text(exe_path@, "target/debug"@),
    {
        contains(exe_path, "target/debug")
    }

    /// The default configuration file under `config_dir`.
    pub fn default_config_path(config_dir: &str, debug: bool) -> (r: String)
        ensures
            r@ == config_path_under(config_dir@, debug),
    {
        let name = Self::default_config_file_name(debug);
        let parts: Vec<&str> = vec!["boxxy", name];
        let r = append_all(config_dir, parts);
        assert(crate::paths::views_of(parts@) =~= seq!["boxxy"@, config_file_name(debug)]);
        r
    }

    /// The places where configuration files are looked for, in the order in
    /// which they are loaded: the default file, then the file of that name
    /// in `cwd` and in each directory above it, nearest first.
    pub fn rule_paths(config_dir: &str, cwd: &str, debug: bool) -> (r: Vec<String>)
        ensures
            exists|dirs: Seq<Seq<char>>|
                {
                    &&& is_ancestor_chain(dirs, cwd@)
                    &&& r@.len() == dirs.len() + 1
                    &&& r@[0]@ == config_path_under(config_dir@, debug)
                    &&& forall|k: int|
                        0 <= k < dirs.len() ==> #[trigger] r@[k + 1]@ == joined_all(
                            dirs[k],
                            seq![config_file_name(debug)],
                        )
                },
    {
        let name = Self::default_config_file_name(debug);
        let dirs = ancestors(cwd);
        let mut out: Vec<String> = Vec::new();
        out.push(Self::default_config_path(config_dir, debug));
        let mut k: usize = 0;
        while k < dirs.len()
            invariant
                name@ == config_file_name(debug),
                k <= dirs@.len(),
                out@.len() == k + 1,
                out@[0]@ == config_path_under(config_dir@, debug),
                forall|j: int|
                    0 <= j < k ==> #[trigger] out@[j + 1]@ == joined_all(
                        dirs@[j]@,
                        seq![config_file_name(debug)],
                    ),
            decreases dirs.len() - k,
        {
            let parts: Vec<&str> = vec![name];
            let p = append_all(dirs[k].as_str(), parts);
            assert(crate::paths::views_of(parts@) =~= seq![config_file_name(debug)]);
            out.push(p);
            k = k + 1;
        }
        let ghost dv = strings_view(dirs@);
        assert(forall|j: int| 0 <= j < dv.len() ==> dv[j] == dirs@[j]@);
        out
    }
}

/// The rule for one command-line specification; see [`cli_rule`].
fn cli_rule_of(spec: &String) -> (r: Result<Rule, ConfigError>)
    ensures
        match r {
            Ok(rule) => cli_rule(spec@) == Ok::<RuleView, ConfigError>(rule@),
            Err(e) => cli_rule(spec@) == Err::<RuleView, ConfigError>(e),
        },
{
    let v = chars_of(spec.as_str());
    let parts = split_chars(&v, ':');
    let ghost ps = split_on(spec@, ':');
    assert(forall|i: int| 0 <= i < parts@.len() ==> parts@[i]@ == #[trigger] ps[i]) by {
        assert forall|i: int| 0 <= i < parts@.len() implies parts@[i]@ == #[trigger] ps[i] by {
            assert(parts@.map_values(|p: Vec<char>| p@)[i] == parts@[i]@);
        }
    }
    assert(parts@.len() == ps.len()) by {
        assert(parts@.map_values(|p: Vec<char>| p@).len() == parts@.len());
    }
    if parts.len() != 2 && parts.len() != 3 {
        return Err(ConfigError::InvalidCliRule);
    }
    if parts[0].len() == 0 || parts[1].len() == 0 {
        return Err(ConfigError::InvalidCliRule);
    }
    let mut name = chars_of("cli-loaded rule: ");
    append_chars(&mut name, &parts[0]);
    append_chars(&mut name, &chars_of(" -> "));
    append_chars(&mut name, &parts[1]);
    let mut mode = RuleMode::File;
    if parts.len() == 3 {
        let word = string_of(&parts[2]);
        match parse_mode(word.as_str()) {
            Some(m) => {
                mode = m;
            },
            None => {
                return Err(ConfigError::InvalidMode);
            },
        }
        append_chars(&mut name, &chars_of(" ("));
        append_chars(&mut name, &parts[2]);
        append_chars(&mut name, &chars_of(")"));
    }
    let rule = Rule {
        name: string_of(&name),
        target: string_of(&parts[0]),
        rewrite: string_of(&parts[1]),
        mode,
        context: Vec::new(),
        only: Vec::new(),
        env: Vec::new(),
    };
    assert(strings_view(rule.context@) =~= Seq::<Seq<char>>::empty());
    assert(strings_view(rule.only@) =~= Seq::<Seq<char>>::empty());
    assert(crate::rule::pairs_view(rule.env@) =~= Seq::<(Seq<char>, Seq<char>)>::empty());
    Ok(rule)
}

impl CommandSpec {
    /// Sets the variable `key` to `value` for the command, replacing an
    /// earlier value of the same name.
    pub fn set_env(&mut self, key: String, value: String)
        requires
            names_unique(crate::rule::pairs_view(old(self).env@)),
        ensures
            names_unique(crate::rule::pairs_view(final(self).env@)),
            crate::rule::pairs_view(final(self).env@) == env_with(
                crate::rule::pairs_view(old(self).env@),
                key@,
                value@,
            ),
            final(self).program == old(self).program,
            final(self).args == old(self).args,
    {
        let ghost e = crate::rule::pairs_view(self.env@);
        let mut i: usize = 0;
        while i < self.env.len()
            invariant
                e == crate::rule::pairs_view(self.env@),
                e == crate::rule::pairs_view(old(self).env@),
                names_unique(e),
                self.program == old(self).program,
                self.args == old(self).args,
                i <= self.env@.len(),
                forall|j: int| 0 <= j < i ==> e[j].0 != key@,
            decreases self.env.len() - i,
        {
            if self.env[i].0 == key {
                assert(e[i as int].0 == key@);
                let ghost kv = key@;
                let ghost vv = value@;
                self.env.set(i, (key, value));
                assert(crate::rule::pairs_view(self.env@) =~= e.update(i as int, (kv, vv)));
                assert forall|j: int| 0 <= j < e.len() && e[j].0 == kv implies j == i by {
                    if j < i {
                        assert(e[j].0 != e[i as int].0);
                    } else if j > i {
                        assert(e[i as int].0 != e[j].0);
                    }
                }
                return;
            }
            i = i + 1;
        }
        let ghost kv = key@;
        let ghost vv = value@;
        self.env.push((key, value));
        assert(crate::rule::pairs_view(self.env@) =~= e.push((kv, vv)));
    }
}

/// Merging a ruleset with an empty one gives back that ruleset.
pub proof fn lemma_merge_with_empty(r: Seq<RuleView>)
    ensures
        merged(seq![r, Seq::empty()]) == r,
{
    let sets = seq![r, Seq::<RuleView>::empty()];
    assert(sets.drop_last() =~= seq![r]);
    assert(seq![r].drop_last() =~= Seq::<Seq<RuleView>>::empty());
    assert(merged(Seq::<Seq<RuleView>>::empty()) == Seq::<RuleView>::empty());
    assert(merged(seq![r]) == merged(seq![r].drop_last()) + r);
    assert(Seq::<RuleView>::empty() + r =~= r);
    assert(merged(sets) == merged(sets.drop_last()) + sets.last());
    assert(r + Seq::<RuleView>::empty() =~= r);
}

/// Merging keeps order across inputs: the rules of the first inputs come
/// before those of the later ones, each input's rules in their order.
pub proof fn lemma_merge_concat(a: Seq<Seq<RuleView>>, b: Seq<Seq<RuleView>>)
    ensures
        merged(a + b) == merged(a) + merged(b),
    decreases b.len(),
{
    if b.len() == 0 {
        assert(a + b =~= a);
        assert(merged(a) + Seq::<RuleView>::empty() =~= merged(a));
    } else {
        lemma_merge_concat(a, b.drop_last());
        assert((a + b).drop_last() =~= a + b.drop_last());
        assert((a + b).last() == b.last());
        assert(merged(a) + merged(b.drop_last()) + b.last() =~= merged(a) + (merged(b.drop_last())
            + b.last()));
    }
}

} // verus!
