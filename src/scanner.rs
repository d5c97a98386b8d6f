//! Well-known applications that keep files in the home directory, and the
//! rules suggested for those that are present.

use vstd::prelude::*;

use crate::rule::{copy_strings, pairs_view, Rule, RuleMode, RuleView};
use crate::text::{chars_of, string_of, strings_view};

verus! {

/// An application: where it keeps its files, and the fixes, written
/// `old:new`, that move them elsewhere.
#[derive(Clone, Debug)]
pub struct App {
    pub name: String,
    pub paths: Vec<String>,
    pub fixes: Vec<String>,
}

pub struct AppView {
    pub name: Seq<char>,
    pub paths: Seq<Seq<char>>,
    pub fixes: Seq<Seq<char>>,
}

impl View for App {
    type V = AppView;

    open spec fn view(&self) -> AppView {
        AppView { name: self.name@, paths: strings_view(self.paths@), fixes: strings_view(self.fixes@) }
    }
}

pub open spec fn apps_view(v: Seq<App>) -> Seq<AppView> {
    v.map_values(|a: App| a@)
}

/// The known applications.
#[derive(Clone, Debug)]
pub struct Scanner {
    pub apps: Vec<App>,
}

/// Where `c` first occurs in `s`.
pub open spec fn first_index(s: Seq<char>, c: char, i: int) -> bool {
    0 <= i < s.len() && s[i] == c && forall|j: int| 0 <= j < i ==> s[j] != c
}

/// The rule that the fix `fix` of the application `name` suggests: the
/// part before the first `:` is redirected to the part after it, as a
/// directory when `is_dir` says the old path is one.
pub open spec fn suggested_rule(name: Seq<char>, fix: Seq<char>, is_dir: bool, r: RuleView) -> bool {
    exists|i: int|
        first_index(fix, ':', i) && r == (RuleView {
            name,
            target: fix.subrange(0, i),
            rewrite: fix.subrange(i + 1, fix.len() as int),
            mode: if is_dir {
                RuleMode::Directory
            } else {
                RuleMode::File
            },
            context: Seq::empty(),
            only: Seq::empty(),
            env: Seq::empty(),
        })
}

/// Whether `s` holds no `:`.
pub open spec fn has_no_colon(s: Seq<char>) -> bool {
    forall|i: int| 0 <= i < s.len() ==> s[i] != ':'
}

fn chars_range(v: &Vec<char>, from: usize, to: usize) -> (r: String)
    requires
        from <= to <= v@.len(),
    ensures
        r@ == v@.subrange(from as int, to as int),
{
    let mut c: Vec<char> = Vec::new();
    let mut i: usize = from;
    while i < to
        invariant
            from <= i <= to <= v@.len(),
            c@ == v@.subrange(from as int, i as int),
        decreases to - i,
    {
        c.push(v[i]);
        i = i + 1;
        assert(c@ =~= v@.subrange(from as int, i as int));
    }
    string_of(&c)
}

/// The rule that a fix suggests; none when the fix has no `:`.
pub fn rule_from_fix(name: &str, fix: &str, is_dir: bool) -> (r: Option<Rule>)
    ensures
        match r {
            Some(rule) => suggested_rule(name@, fix@, is_dir, rule@),
            None => has_no_colon(fix@),
        },
{
    let v = chars_of(fix);
    let mut i: usize = 0;
    while i < v.len() && v[i] != ':'
        invariant
            v@ == fix@,
            i <= v@.len(),
            forall|j: int| 0 <= j < i ==> v@[j] != ':',
        decreases v.len() - i,
    {
        i = i + 1;
    }
    if i == v.len() {
        return None;
    }
    let rule = Rule {
        name: string_of(&chars_of(name)),
        target: chars_range(&v, 0, i),
        rewrite: chars_range(&v, i + 1, v.len()),
        mode: if is_dir {
            RuleMode::Directory
        } else {
            RuleMode::File
        },
        context: Vec::new(),
        only: Vec::new(),
        env: Vec::new(),
    };
    assert(strings_view(rule.context@) =~= Seq::<Seq<char>>::empty());
    assert(strings_view(rule.only@) =~= Seq::<Seq<char>>::empty());
    assert(pairs_view(rule.env@) =~= Seq::<(Seq<char>, Seq<char>)>::empty());
    assert(first_index(fix@, ':', i as int));
    Some(rule)
}

impl App {
    /// The rules that this application's fixes suggest, in order;
    /// `is_dir[k]` tells whether the old path of fix `k` is a directory.
    /// None when the answers do not fit the fixes or a fix has no `:`.
    pub fn suggested_rules(&self, is_dir: &Vec<bool>) -> (r: Option<Vec<Rule>>)
        ensures
            match r {
                Some(rules) => {
                    &&& is_dir@.len() == self.fixes@.len()
                    &&& rules@.len() == self.fixes@.len()
                    &&& forall|k: int|
                        0 <= k < rules@.len() ==> suggested_rule(
                            self.name@,
                            self.fixes@[k]@,
                            is_dir@[k],
                            #[trigger] rules@[k]@,
                        )
                },
                None => is_dir@.len() != self.fixes@.len() || exists|k: int|
                    0 <= k < self.fixes@.len() && #[trigger] has_no_colon(self.fixes@[k]@),
            },
    {
        if is_dir.len() != self.fixes.len() {
            return None;
        }
        let mut rules: Vec<Rule> = Vec::new();
        let mut k: usize = 0;
        while k < self.fixes.len()
            invariant
                is_dir@.len() == self.fixes@.len(),
                k <= self.fixes@.len(),
                rules@.len() == k,
                forall|j: int|
                    0 <= j < k ==> suggested_rule(
                        self.name@,
                        self.fixes@[j]@,
                        is_dir@[j],
                        #[trigger] rules@[j]@,
                    ),
            decreases self.fixes.len() - k,
        {
            match rule_from_fix(self.name.as_str(), self.fixes[k].as_str(), is_dir[k]) {
                Some(rule) => {
                    rules.push(rule);
                },
                None => {
                    assert(has_no_colon(self.fixes@[k as int]@));
                    return None;
                },
            }
            k = k + 1;
        }
        Some(rules)
    }

    /// A copy of this application.
    pub fn duplicate(&self) -> (r: App)
        ensures
            r@ == self@,
    {
        App { name: self.name.clone(), paths: copy_strings(&self.paths), fixes: copy_strings(&self.fixes) }
    }
}

/// How many of the answers are yes.
pub open spec fn count_true(s: Seq<bool>) -> nat
    decreases s.len(),
{
    if s.len() == 0 {
        0
    } else {
        count_true(s.drop_last()) + if s.last() {
            1nat
        } else {
            0nat
        }
    }
}

/// The applications, each once for every one of its paths that is present,
/// in order; `present[i]` holds the answers for the paths of application `i`.
pub open spec fn found_apps(apps: Seq<AppView>, present: Seq<Seq<bool>>) -> Seq<AppView>
    decreases apps.len(),
{
    if apps.len() == 0 || present.len() == 0 {
        Seq::empty()
    } else {
        Seq::new(count_true(present[0]), |k: int| apps[0]) + found_apps(
            apps.drop_first(),
            present.drop_first(),
        )
    }
}

pub open spec fn answers_view(v: Seq<Vec<bool>>) -> Seq<Seq<bool>> {
    v.map_values(|a: Vec<bool>| a@)
}

/// Each application has one answer per path.
pub open spec fn answers_fit(apps: Seq<AppView>, present: Seq<Seq<bool>>) -> bool {
    &&& present.len() == apps.len()
    &&& forall|i: int| 0 <= i < apps.len() ==> #[trigger] present[i].len() == apps[i].paths.len()
}

impl Scanner {
    /// A scanner over the given applications.
    pub fn new(apps: Vec<App>) -> (r: Self)
        ensures
            r.apps == apps,
    {
        Scanner { apps }
    }

    /// The applications found, each once for every one of its paths that is
    /// present; `present[i][j]` tells whether path `j` of application `i`
    /// exists. None when the answers do not fit the applications.
    pub fn scan(&self, present: &Vec<Vec<bool>>) -> (r: Option<Vec<App>>)
        ensures
            match r {
                Some(found) => answers_fit(apps_view(self.apps@), answers_view(present@))
                    && apps_view(found@) == found_apps(apps_view(self.apps@), answers_view(present@)),
                None => !answers_fit(apps_view(self.apps@), answers_view(present@)),
            },
    {
        let ghost apps = apps_view(self.apps@);
        let ghost ans = answers_view(present@);
        let n = self.apps.len();
        if present.len() != n {
            return None;
        }
        assert(apps.subrange(0, n as int) =~= apps);
        assert(ans.subrange(0, n as int) =~= ans);
        let mut out: Vec<App> = Vec::new();
        assert(apps_view(out@) + found_apps(apps, ans) =~= found_apps(apps, ans));
        let mut i: usize = 0;
        while i < n
            invariant
                n == apps.len(),
                n == ans.len(),
                apps == apps_view(self.apps@),
                ans == answers_view(present@),
                i <= n,
                forall|a: int| 0 <= a < i ==> #[trigger] ans[a].len() == apps[a].paths.len(),
                found_apps(apps, ans) == apps_view(out@) + found_apps(
                    apps.subrange(i as int, n as int),
                    ans.subrange(i as int, n as int),
                ),
            decreases n - i,
        {
            let answers = &present[i];
            assert(ans[i as int] == answers@);
            if answers.len() != self.apps[i].paths.len() {
                assert(apps[i as int].paths.len() == self.apps@[i as int].paths@.len());
                return None;
            }
            let ghost before = apps_view(out@);
            let ghost app = apps[i as int];
            let mut j: usize = 0;
            while j < answers.len()
                invariant
                    i < n,
                    n == apps.len(),
                    apps == apps_view(self.apps@),
                    app == apps[i as int],
                    j <= answers@.len(),
                    apps_view(out@) == before + Seq::new(
                        count_true(answers@.subrange(0, j as int)),
                        |k: int| app,
                    ),
                decreases answers.len() - j,
            {
                let ghost sub = answers@.subrange(0, j as int + 1);
                assert(sub.drop_last() =~= answers@.subrange(0, j as int));
                if answers[j] {
                    let ghost prev = out@;
                    let copy = self.apps[i].duplicate();
                    out.push(copy);
                    assert(apps_view(out@) =~= apps_view(prev).push(app));
                    assert(Seq::new(count_true(sub), |k: int| app) =~= Seq::new(
                        count_true(answers@.subrange(0, j as int)),
                        |k: int| app,
                    ).push(app));
                } else {
                    assert(Seq::new(count_true(sub), |k: int| app) =~= Seq::new(
                        count_true(answers@.subrange(0, j as int)),
                        |k: int| app,
                    ));
                }
                j = j + 1;
                assert(apps_view(out@) =~= before + Seq::new(count_true(sub), |k: int| app));
            }
            assert(answers@.subrange(0, j as int) =~= answers@);
            let ghost here_a = apps.subrange(i as int, n as int);
            let ghost here_p = ans.subrange(i as int, n as int);
            assert(here_a.drop_first() =~= apps.subrange(i as int + 1, n as int));
            assert(here_p.drop_first() =~= ans.subrange(i as int + 1, n as int));
            assert(here_a[0] == app);
            assert(here_p[0] == answers@);
            assert(before + (Seq::new(count_true(answers@), |k: int| app) + found_apps(
                here_a.drop_first(),
                here_p.drop_first(),
            )) =~= apps_view(out@) + found_apps(here_a.drop_first(), here_p.drop_first()));
            i = i + 1;
        }
        assert(apps_view(out@) + found_apps(
            apps.subrange(n as int, n as int),
            ans.subrange(n as int, n as int),
        ) =~= apps_view(out@));
        Some(out)
    }
}

} // verus!
