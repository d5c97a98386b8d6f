//! Identity maps for the child's user namespace, and the decisions of the
//! retry loop around the setuid helpers that install them.

use vstd::prelude::*;

use crate::numbers::{decimal, decimal_string, digits_value, parse_decimal, signed_decimal, signed_decimal_string};
use crate::text::{chars_of, strings_view};

verus! {

/// The text of the first capture group of the leftmost match of `pattern`
/// in `hay`.
pub uninterp spec fn regex_first_group(pattern: Seq<char>, hay: Seq<char>) -> Option<Seq<char>>;

/// Relies on `regex::Regex::new` and `Regex::captures`: the first capture
/// group of the leftmost match, which depends on the two texts alone; none
/// when the pattern does not compile, nothing matches or the group took no
/// part in the match.
#[verifier::external_body]
fn first_capture(pattern: &str, hay: &str) -> (r: Option<String>)
    ensures
        match r {
            Some(s) => regex_first_group(pattern@, hay@) == Some(s@),
            None => regex_first_group(pattern@, hay@) is None,
        },
{
    let re = regex::Regex::new(pattern).ok()?;
    let caps = re.captures(hay)?;
    caps.get(1).map(|m| m.as_str().to_string())
}

/// Users or groups.
#[derive(Clone, Copy, Debug, PartialEq, Eq, Structural)]
pub enum IdKind {
    User,
    Group,
}

/// The message of the helper about an id it may not map.
pub open spec fn refusal_pattern(kind: IdKind) -> Seq<char> {
    match kind {
        IdKind::User => "newuidmap: uid range \\[(\\d+)-.*"@,
        IdKind::Group => "newgidmap: gid range \\[(\\d+)-.*"@,
    }
}

/// What the helper's error output says.
#[derive(Clone, Copy, Debug, PartialEq, Eq, Structural)]
pub enum HelperVerdict {
    /// No id was refused.
    Clean,
    /// This id may not be mapped.
    Refused(u32),
    /// An id was refused but its number cannot be read.
    Garbled,
}

/// The verdict that the captured id text `group` stands for.
pub open spec fn verdict_of(group: Option<Seq<char>>) -> HelperVerdict {
    match group {
        None => HelperVerdict::Clean,
        Some(g) => if g.len() > 0 && digits_value(g) is Some && digits_value(g)->0 <= u32::MAX {
            HelperVerdict::Refused(digits_value(g)->0 as u32)
        } else {
            HelperVerdict::Garbled
        },
    }
}

/// The verdict for the captured id text `group`; see [`verdict_of`].
pub fn verdict_from_capture(group: Option<String>) -> (r: HelperVerdict)
    ensures
        r == verdict_of(match group {
            Some(g) => Some(g@),
            None => None,
        }),
{
    match group {
        None => HelperVerdict::Clean,
        Some(g) => match parse_decimal(&chars_of(g.as_str())) {
            Some(v) => HelperVerdict::Refused(v),
            None => HelperVerdict::Garbled,
        },
    }
}

/// What the helper's error output `stderr` says about the ids of `kind`.
pub fn helper_verdict(kind: IdKind, stderr: &str) -> (r: HelperVerdict)
    ensures
        r == verdict_of(regex_first_group(refusal_pattern(kind), stderr@)),
{
    let pattern = match kind {
        IdKind::User => "newuidmap: uid range \\[(\\d+)-.*",
        IdKind::Group => "newgidmap: gid range \\[(\\d+)-.*",
    };
    verdict_from_capture(first_capture(pattern, stderr))
}

/// What to do after the helper ran.
#[derive(Clone, Copy, Debug, PartialEq, Eq, Structural)]
pub enum IdMapStep {
    /// The map is installed.
    Mapped,
    /// An id was dropped from the map; run the helper again.
    Retry,
    /// No map can be installed.
    Exhausted,
}

/// A map from ids outside the namespace to ids inside, each outer id once.
#[derive(Clone, Debug)]
pub struct IdMap {
    entries: Vec<(u32, u32)>,
}

/// Each outer id appears once.
pub open spec fn keys_unique(e: Seq<(u32, u32)>) -> bool {
    forall|i: int, j: int| 0 <= i < j < e.len() ==> e[i].0 != e[j].0
}

pub open spec fn has_key(e: Seq<(u32, u32)>, k: u32) -> bool {
    exists|i: int| 0 <= i < e.len() && e[i].0 == k
}

/// The helper's arguments for the entries: outer id, inner id and a range
/// of one, for each.
pub open spec fn entry_args(e: Seq<(u32, u32)>) -> Seq<Seq<char>>
    decreases e.len(),
{
    if e.len() == 0 {
        Seq::empty()
    } else {
        entry_args(e.drop_last()) + seq![
            decimal(e.last().0 as nat),
            decimal(e.last().1 as nat),
            seq!['1'],
        ]
    }
}

/// What a run of the helper leads to: `old` becomes `new` and `r` is the
/// next step, given whether the helper succeeded and what its output says.
pub open spec fn verdict_step(
    old: Seq<(u32, u32)>,
    new: Seq<(u32, u32)>,
    exit_ok: bool,
    verdict: HelperVerdict,
    r: IdMapStep,
) -> bool {
    if exit_ok {
        r == IdMapStep::Mapped && new == old
    } else {
        match verdict {
            HelperVerdict::Clean => r == IdMapStep::Mapped && new == old,
            HelperVerdict::Garbled => r == IdMapStep::Exhausted && new == old,
            HelperVerdict::Refused(id) => if has_key(old, id) {
                &&& new.len() == old.len() - 1
                &&& !has_key(new, id)
                &&& forall|i: int| 0 <= i < old.len() && old[i].0 == id ==> new == old.remove(i)
                &&& r == if new.len() == 0 {
                    IdMapStep::Exhausted
                } else {
                    IdMapStep::Retry
                }
            } else {
                r == IdMapStep::Exhausted && new == old
            },
        }
    }
}

impl View for IdMap {
    type V = Seq<(u32, u32)>;

    closed spec fn view(&self) -> Seq<(u32, u32)> {
        self.entries@
    }
}

impl IdMap {
    pub open spec fn wf(&self) -> bool {
        keys_unique(self@)
    }

    /// An empty map.
    pub fn new() -> (r: Self)
        ensures
            r.wf(),
            r@ == Seq::<(u32, u32)>::empty(),
    {
        IdMap { entries: Vec::new() }
    }

    /// The number of entries.
    pub fn len(&self) -> (r: usize)
        ensures
            r == self@.len(),
    {
        self.entries.len()
    }

    /// Maps `outer` to `inner`, replacing an earlier entry for `outer`.
    pub fn insert(&mut self, outer: u32, inner: u32)
        requires
            old(self).wf(),
        ensures
            final(self).wf(),
            has_key(old(self)@, outer) ==> forall|i: int|
                0 <= i < old(self)@.len() && old(self)@[i].0 == outer ==> final(self)@ == old(
                    self,
                )@.update(i, (outer, inner)),
            !has_key(old(self)@, outer) ==> final(self)@ == old(self)@.push((outer, inner)),
            final(self)@.len() >= old(self)@.len(),
            forall|j: int|
                0 <= j < old(self)@.len() ==> (#[trigger] final(self)@[j]).0 == old(self)@[j].0 && (
                old(self)@[j].0 != outer ==> final(self)@[j] == old(self)@[j]),
            forall|j: int|
                old(self)@.len() <= j < final(self)@.len() ==> #[trigger] final(self)@[j] == (
                outer,
                inner,
            ),
            has_key(final(self)@, outer),
            forall|j: int|
                0 <= j < final(self)@.len() && (#[trigger] final(self)@[j]).0 == outer
                    ==> final(self)@[j].1 == inner,
    {
        let mut i: usize = 0;
        while i < self.entries.len()
            invariant
                self@ == old(self)@,
                keys_unique(self@),
                i <= self@.len(),
                forall|j: int| 0 <= j < i ==> self@[j].0 != outer,
            decreases self.entries.len() - i,
        {
            if self.entries[i].0 == outer {
                self.entries.set(i, (outer, inner));
                assert forall|j: int| 0 <= j < old(self)@.len() && old(self)@[j].0 == outer implies j
                    == i by {
                    if j < i {
                    } else if j > i {
                        assert(old(self)@[i as int].0 != old(self)@[j].0);
                    }
                }
                assert(self@[i as int].0 == outer);
                return;
            }
            i = i + 1;
        }
        self.entries.push((outer, inner));
        assert(self@[old(self)@.len() as int].0 == outer);
    }

    /// Drops the entry for `outer`, if any, and says whether there was one.
    pub fn remove(&mut self, outer: u32) -> (r: bool)
        requires
            old(self).wf(),
        ensures
            final(self).wf(),
            r == has_key(old(self)@, outer),
            r ==> forall|i: int|
                0 <= i < old(self)@.len() && old(self)@[i].0 == outer ==> final(self)@ == old(
                    self,
                )@.remove(i),
            !r ==> final(self)@ == old(self)@,
            r ==> final(self)@.len() == old(self)@.len() - 1,
            !has_key(final(self)@, outer),
    {
        let mut i: usize = 0;
        while i < self.entries.len()
            invariant
                self@ == old(self)@,
                keys_unique(self@),
                i <= self@.len(),
                forall|j: int| 0 <= j < i ==> self@[j].0 != outer,
            decreases self.entries.len() - i,
        {
            if self.entries[i].0 == outer {
                self.entries.remove(i);
                assert forall|j: int| 0 <= j < old(self)@.len() && old(self)@[j].0 == outer implies j
                    == i by {
                    if j > i {
                        assert(old(self)@[i as int].0 != old(self)@[j].0);
                    }
                }
                assert forall|a: int, b: int| 0 <= a < b < self@.len() implies self@[a].0
                    != self@[b].0 by {
                    let oa = if a < i { a } else { a + 1 };
                    let ob = if b < i { b } else { b + 1 };
                    assert(old(self)@[oa].0 != old(self)@[ob].0);
                }
                assert(!has_key(self@, outer)) by {
                    if has_key(self@, outer) {
                        let j = choose|j: int| 0 <= j < self@.len() && self@[j].0 == outer;
                        let oj = if j < i { j } else { j + 1 };
                        assert(old(self)@[oj].0 == outer);
                    }
                }
                return true;
            }
            i = i + 1;
        }
        false
    }

    /// The identity map of the user `uid`.
    pub fn for_user(uid: u32) -> (r: Self)
        ensures
            r.wf(),
            r@ == seq![(uid, uid)],
    {
        let mut m = IdMap::new();
        m.insert(uid, uid);
        assert(m@ =~= seq![(uid, uid)]);
        m
    }

    /// The identity map of the group `gid`, of group 0 and of each
    /// supplementary group, each group once, in that order of first
    /// appearance.
    pub fn for_groups(gid: u32, groups: &Vec<u32>) -> (r: Self)
        ensures
            r.wf(),
            forall|k: int| 0 <= k < r@.len() ==> (#[trigger] r@[k]).0 == r@[k].1,
            has_key(r@, gid),
            has_key(r@, 0),
            forall|k: int| 0 <= k < groups@.len() ==> has_key(r@, #[trigger] groups@[k]),
            forall|k: int|
                0 <= k < r@.len() ==> (#[trigger] r@[k]).0 == gid || r@[k].0 == 0 || groups@.contains(
                    r@[k].0,
                ),
    {
        let mut m = IdMap::new();
        m.insert(gid, gid);
        assert(m@[0] == (gid, gid));
        m.insert(0, 0);
        assert(m@[0].0 == gid);
        assert(has_key(m@, gid));
        let mut i: usize = 0;
        while i < groups.len()
            invariant
                m.wf(),
                i <= groups@.len(),
                forall|k: int| 0 <= k < m@.len() ==> (#[trigger] m@[k]).0 == m@[k].1,
                has_key(m@, gid),
                has_key(m@, 0),
                forall|k: int| 0 <= k < i ==> has_key(m@, #[trigger] groups@[k]),
                forall|k: int|
                    0 <= k < m@.len() ==> (#[trigger] m@[k]).0 == gid || m@[k].0 == 0
                        || groups@.contains(m@[k].0),
            decreases groups.len() - i,
        {
            let g = groups[i];
            let ghost before = m@;
            m.insert(g, g);
            assert forall|q: u32| has_key(before, q) implies has_key(m@, q) by {
                let j = choose|j: int| 0 <= j < before.len() && before[j].0 == q;
                assert(m@[j].0 == before[j].0);
            }
            assert(groups@[i as int] == g);
            assert forall|k: int| 0 <= k < m@.len() implies (#[trigger] m@[k]).0 == gid || m@[k].0
                == 0 || groups@.contains(m@[k].0) by {
                if k >= before.len() {
                    assert(m@[k].0 == g);
                } else {
                    assert(m@[k].0 == before[k].0);
                }
            }
            assert forall|k: int| 0 <= k < m@.len() implies (#[trigger] m@[k]).0 == m@[k].1 by {
                if k >= before.len() {
                } else if before[k].0 != g {
                    assert(m@[k] == before[k]);
                } else {
                }
            }
            i = i + 1;
        }
        m
    }

    /// The arguments of the helper for process `pid`: the pid, then an
    /// outer id, an inner id and a range of one for each entry.
    pub fn helper_args(&self, pid: i32) -> (r: Vec<String>)
        ensures
            strings_view(r@) == seq![signed_decimal(pid as int)] + entry_args(self@),
    {
        let mut r: Vec<String> = Vec::new();
        r.push(signed_decimal_string(pid));
        let ghost first = strings_view(r@);
        assert(first + entry_args(self@.subrange(0, 0)) =~= first);
        let mut i: usize = 0;
        while i < self.entries.len()
            invariant
                i <= self@.len(),
                first == seq![signed_decimal(pid as int)],
                strings_view(r@) == first + entry_args(self@.subrange(0, i as int)),
            decreases self.entries.len() - i,
        {
            let (outer, inner) = self.entries[i];
            let ghost before = r@;
            r.push(decimal_string(outer as u64));
            r.push(decimal_string(inner as u64));
            let mut one: Vec<char> = Vec::new();
            one.push('1');
            r.push(crate::text::string_of(&one));
            let ghost sub = self@.subrange(0, i as int + 1);
            assert(sub.drop_last() =~= self@.subrange(0, i as int));
            assert(strings_view(r@) =~= strings_view(before) + seq![
                decimal(outer as nat),
                decimal(inner as nat),
                seq!['1'],
            ]);
            i = i + 1;
        }
        assert(self@.subrange(0, i as int) =~= self@);
        r
    }

    /// Decides what follows a run of the helper: an id it refused is dropped
    /// and the helper runs again, unless the map is then empty or the id was
    /// not in it.
    pub fn after_verdict(&mut self, exit_ok: bool, verdict: HelperVerdict) -> (r: IdMapStep)
        requires
            old(self).wf(),
        ensures
            final(self).wf(),
            verdict_step(old(self)@, final(self)@, exit_ok, verdict, r),
    {
        if exit_ok {
            return IdMapStep::Mapped;
        }
        match verdict {
            HelperVerdict::Clean => IdMapStep::Mapped,
            HelperVerdict::Garbled => IdMapStep::Exhausted,
            HelperVerdict::Refused(id) => {
                if self.remove(id) {
                    if self.entries.len() == 0 {
                        IdMapStep::Exhausted
                    } else {
                        IdMapStep::Retry
                    }
                } else {
                    IdMapStep::Exhausted
                }
            },
        }
    }

    /// Decides what follows a run of the helper for ids of `kind`, given
    /// whether it succeeded and its error output.
    pub fn after_helper(&mut self, kind: IdKind, exit_ok: bool, stderr: &str) -> (r: IdMapStep)
        requires
            old(self).wf(),
        ensures
            final(self).wf(),
            verdict_step(
                old(self)@,
                final(self)@,
                exit_ok,
                verdict_of(regex_first_group(refusal_pattern(kind), stderr@)),
                r,
            ),
            r == IdMapStep::Retry ==> final(self)@.len() < old(self)@.len(),
    {
        if exit_ok {
            return IdMapStep::Mapped;
        }
        let verdict = helper_verdict(kind, stderr);
        self.after_verdict(false, verdict)
    }
}

} // verus!
