//! The report of the files that a traced run touched.

use vstd::prelude::*;

use crate::numbers::{decimal, decimal_string};
use crate::paths::{below_root, is_path_prefix, path_starts_with, strip_root};
use crate::text::{append_chars, chars_of, strings_view};

verus! {

/// One line per path: `/` and the path below `root`.
pub open spec fn report_lines(root: Seq<char>, seen: Seq<Seq<char>>) -> Seq<char>
    decreases seen.len(),
{
    if seen.len() == 0 {
        Seq::empty()
    } else {
        report_lines(root, seen.drop_last()) + seq!['/'] + below_root(root, seen.last()) + seq!['\n']
    }
}

/// The whole report: the lines, then the count.
pub open spec fn report_text(root: Seq<char>, seen: Seq<Seq<char>>) -> Seq<char> {
    report_lines(root, seen) + "# total: "@ + decimal(seen.len()) + "\n"@
}

/// The distinct paths under the container root that traced syscalls named,
/// in the order in which they were first seen.
pub struct TraceReport {
    root: String,
    seen: Vec<String>,
}

impl TraceReport {
    /// The container root.
    pub closed spec fn root_view(&self) -> Seq<char> {
        self.root@
    }

    /// The paths kept so far.
    pub closed spec fn seen_view(&self) -> Seq<Seq<char>> {
        strings_view(self.seen@)
    }

    /// Every kept path lies under the root.
    pub closed spec fn wf(&self) -> bool {
        forall|k: int| 0 <= k < self.seen@.len() ==> is_path_prefix(self.root@, #[trigger] self.seen@[k]@)
    }

    /// An empty report for the container root `root`.
    pub fn new(root: String) -> (r: Self)
        ensures
            r.wf(),
            r.root_view() == root@,
            r.seen_view() == Seq::<Seq<char>>::empty(),
    {
        let r = TraceReport { root, seen: Vec::new() };
        assert(strings_view(r.seen@) =~= Seq::<Seq<char>>::empty());
        r
    }

    /// Keeps `path` when it lies under the root and was not seen before.
    pub fn record(&mut self, path: &str)
        requires
            old(self).wf(),
        ensures
            final(self).wf(),
            final(self).root_view() == old(self).root_view(),
            final(self).seen_view() == if is_path_prefix(old(self).root_view(), path@)
                && !old(self).seen_view().contains(path@) {
                old(self).seen_view().push(path@)
            } else {
                old(self).seen_view()
            },
    {
        if !path_starts_with(path, self.root.as_str()) {
            return;
        }
        let mut k: usize = 0;
        while k < self.seen.len()
            invariant
                k <= self.seen@.len(),
                self.wf(),
                self.seen@ == old(self).seen@,
                self.root == old(self).root,
                is_path_prefix(self.root@, path@),
                forall|j: int| 0 <= j < k ==> self.seen@[j]@ != path@,
            decreases self.seen.len() - k,
        {
            if crate::paths::same_text(self.seen[k].as_str(), path) {
                assert(strings_view(self.seen@)[k as int] == path@);
                return;
            }
            k = k + 1;
        }
        assert(!strings_view(self.seen@).contains(path@)) by {
            if strings_view(self.seen@).contains(path@) {
                let j = choose|j: int| 0 <= j < self.seen@.len() && strings_view(self.seen@)[j] == path@;
                assert(self.seen@[j]@ == path@);
            }
        }
        let ghost before = self.seen@;
        self.seen.push(path.to_owned());
        assert(strings_view(self.seen@) =~= strings_view(before).push(path@));
    }

    /// How many paths were kept.
    pub fn total(&self) -> (r: usize)
        ensures
            r == self.seen_view().len(),
    {
        self.seen.len()
    }

    /// The text of the report: one line per kept path, `/` and the path
    /// below the root, then `# total: ` and their number.
    pub fn render(&self) -> (r: String)
        requires
            self.wf(),
        ensures
            r@ == report_text(self.root_view(), self.seen_view()),
    {
        let mut out: Vec<char> = Vec::new();
        let mut k: usize = 0;
        while k < self.seen.len()
            invariant
                self.wf(),
                k <= self.seen@.len(),
                out@ == report_lines(self.root@, strings_view(self.seen@).subrange(0, k as int)),
            decreases self.seen.len() - k,
        {
            let ghost sub = strings_view(self.seen@).subrange(0, k as int + 1);
            assert(sub.drop_last() =~= strings_view(self.seen@).subrange(0, k as int));
            assert(is_path_prefix(self.root@, self.seen@[k as int]@));
            let ghost before = out@;
            out.push('/');
            let below = strip_root(self.seen[k].as_str(), self.root.as_str());
            append_chars(&mut out, &chars_of(below.as_str()));
            out.push('\n');
            assert(out@ =~= before + seq!['/'] + below@ + seq!['\n']);
            k = k + 1;
        }
        assert(strings_view(self.seen@).subrange(0, k as int) =~= strings_view(self.seen@));
        append_chars(&mut out, &chars_of("# total: "));
        let count = decimal_string(self.seen.len() as u64);
        append_chars(&mut out, &chars_of(count.as_str()));
        append_chars(&mut out, &chars_of("\n"));
        crate::text::string_of(&out)
    }
}

} // verus!
