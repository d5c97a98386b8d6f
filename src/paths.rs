//! Paths as character sequences: joining under a root and prefix tests.

use vstd::prelude::*;
use vstd::string::*;

use crate::text::{chars_of, string_of, strings_view};

verus! {

/// `p` without the separators at its start.
pub open spec fn without_leading_slashes(p: Seq<char>) -> Seq<char>
    decreases p.len(),
{
    if p.len() > 0 && p[0] == '/' {
        without_leading_slashes(p.drop_first())
    } else {
        p
    }
}

/// Whether a separator goes between `base` and the next component.
pub open spec fn needs_separator(base: Seq<char>) -> bool {
    base.len() > 0 && base.last() != '/'
}

/// `base` with one more part pushed onto it; a leading `/` of the part is
/// dropped, so an absolute part lands under `base`.
pub open spec fn joined(base: Seq<char>, part: Seq<char>) -> Seq<char> {
    if needs_separator(base) {
        base.push('/') + without_leading_slashes(part)
    } else {
        base + without_leading_slashes(part)
    }
}

/// `base` with every part pushed onto it, in order.
pub open spec fn joined_all(base: Seq<char>, parts: Seq<Seq<char>>) -> Seq<char>
    decreases parts.len(),
{
    if parts.len() == 0 {
        base
    } else {
        joined(joined_all(base, parts.drop_last()), parts.last())
    }
}

/// The views of a sequence of string slices.
pub open spec fn views_of(parts: Seq<&str>) -> Seq<Seq<char>> {
    parts.map_values(|p: &str| p@)
}

/// Whether `p` is `base` or lies below it: `base` is a prefix of `p` that
/// ends at a component boundary.
pub open spec fn is_path_prefix(base: Seq<char>, p: Seq<char>) -> bool {
    ||| base.len() == 0
    ||| {
        &&& base.len() <= p.len()
        &&& p.subrange(0, base.len() as int) == base
        &&& (p.len() == base.len() || base.last() == '/' || p[base.len() as int] == '/')
    }
}

/// Joining an absolute path `p` under a root `r` gives `r`, a separator
/// unless `r` ends with one, and `p` without its leading separators; with a
/// single leading separator that is `r` followed by `p`. The result lies
/// under `r`.
pub proof fn lemma_join_under_root(r: Seq<char>, p: Seq<char>)
    requires
        p.len() > 0,
        p[0] == '/',
    ensures
        joined_all(r, seq![p]) == (if needs_separator(r) {
            r.push('/')
        } else {
            r
        }) + without_leading_slashes(p),
        needs_separator(r) && (p.len() == 1 || p[1] != '/') ==> joined_all(r, seq![p]) == r + p,
        is_path_prefix(r, joined_all(r, seq![p])),
{
    assert(seq![p].drop_last() =~= Seq::<Seq<char>>::empty());
    assert(joined_all(r, Seq::<Seq<char>>::empty()) == r);
    let j = joined_all(r, seq![p]);
    assert(j == joined(r, p));
    if p.len() == 1 || p[1] != '/' {
        let rest = p.drop_first();
        assert(without_leading_slashes(p) == without_leading_slashes(rest));
        if rest.len() > 0 {
            assert(rest[0] == p[1]);
        }
        assert(without_leading_slashes(rest) == rest);
        if needs_separator(r) {
            assert(r.push('/') + rest =~= r + p);
        }
    }
    if r.len() > 0 {
        if needs_separator(r) {
            assert(j.subrange(0, r.len() as int) =~= r);
            assert(j[r.len() as int] == '/');
        } else {
            assert(j.subrange(0, r.len() as int) =~= r);
        }
    }
}

/// Pushes `part` onto the path held in `acc`.
fn push_part(acc: &mut Vec<char>, part: &Vec<char>)
    ensures
        final(acc)@ == joined(old(acc)@, part@),
{
    let n = part.len();
    let mut start: usize = 0;
    assert(part@.subrange(0, n as int) =~= part@);
    while start < n && part[start] == '/'
        invariant
            n == part@.len(),
            start <= n,
            without_leading_slashes(part@) == without_leading_slashes(
                part@.subrange(start as int, n as int),
            ),
        decreases n - start,
    {
        assert(part@.subrange(start as int, n as int).drop_first() =~= part@.subrange(
            start as int + 1,
            n as int,
        ));
        start = start + 1;
    }
    let ghost rest = part@.subrange(start as int, n as int);
    assert(without_leading_slashes(part@) == rest) by {
        if start < n {
            assert(rest[0] != '/');
        } else {
            assert(rest.len() == 0);
        }
    }
    let ghost base = acc@;
    if acc.len() > 0 && acc[acc.len() - 1] != '/' {
        acc.push('/');
    }
    let ghost head = acc@;
    let mut i: usize = start;
    while i < n
        invariant
            n == part@.len(),
            start <= i <= n,
            acc@ == head + part@.subrange(start as int, i as int),
        decreases n - i,
    {
        acc.push(part[i]);
        i = i + 1;
        assert(acc@ =~= head + part@.subrange(start as int, i as int));
    }
    assert(acc@ =~= joined(base, part@));
}

/// Joins `buf` with each of `parts` in turn. A leading `/` of a part is
/// stripped first, so that `append_all("/tmp/root", ["/etc/passwd"])` is
/// `/tmp/root/etc/passwd`.
pub fn append_all(buf: &str, parts: Vec<&str>) -> (r: String)
    ensures
        r@ == joined_all(buf@, views_of(parts@)),
{
    let mut acc = chars_of(buf);
    let mut k: usize = 0;
    while k < parts.len()
        invariant
            k <= parts@.len(),
            acc@ == joined_all(buf@, views_of(parts@.subrange(0, k as int))),
        decreases parts.len() - k,
    {
        let part = chars_of(parts[k]);
        push_part(&mut acc, &part);
        proof {
            let s = views_of(parts@.subrange(0, k as int + 1));
            assert(s.drop_last() =~= views_of(parts@.subrange(0, k as int)));
            assert(s.last() == parts@[k as int]@);
        }
        k = k + 1;
    }
    assert(parts@.subrange(0, parts@.len() as int) =~= parts@);
    string_of(&acc)
}


/// `p` without the separators at its end.
pub open spec fn without_trailing_slashes(p: Seq<char>) -> Seq<char>
    decreases p.len(),
{
    if p.len() > 0 && p.last() == '/' {
        without_trailing_slashes(p.drop_last())
    } else {
        p
    }
}

/// The characters after the last separator of `p`.
pub open spec fn last_component(p: Seq<char>) -> Seq<char>
    decreases p.len(),
{
    if p.len() == 0 || p.last() == '/' {
        Seq::empty()
    } else {
        last_component(p.drop_last()).push(p.last())
    }
}

/// The final component of `p`, ignoring trailing separators; none when it
/// is empty, `.` or `..`.
pub open spec fn file_name_of(p: Seq<char>) -> Option<Seq<char>> {
    let c = last_component(without_trailing_slashes(p));
    if c.len() == 0 || c == seq!['.'] || c == seq!['.', '.'] {
        None
    } else {
        Some(c)
    }
}

/// Whether the two character vectors are equal.
pub fn chars_equal(a: &Vec<char>, b: &Vec<char>) -> (r: bool)
    ensures
        r == (a@ == b@),
{
    if a.len() != b.len() {
        return false;
    }
    let mut i: usize = 0;
    while i < a.len()
        invariant
            a@.len() == b@.len(),
            i <= a@.len(),
            forall|j: int| 0 <= j < i ==> a@[j] == b@[j],
        decreases a.len() - i,
    {
        if a[i] != b[i] {
            return false;
        }
        i = i + 1;
    }
    assert(a@ =~= b@);
    true
}

/// Whether the strings `a` and `b` hold the same characters.
pub fn same_text(a: &str, b: &str) -> (r: bool)
    ensures
        r == (a@ == b@),
{
    chars_equal(&chars_of(a), &chars_of(b))
}

/// The end of `v[0..end]` once its trailing separators are dropped.
fn trimmed_end(v: &Vec<char>, end: usize) -> (r: usize)
    requires
        end <= v@.len(),
    ensures
        r <= end,
        without_trailing_slashes(v@.subrange(0, end as int)) == v@.subrange(0, r as int),
        r == 0 || v@[r - 1] != '/',
{
    let mut e: usize = end;
    while e > 0 && v[e - 1] == '/'
        invariant
            e <= end <= v@.len(),
            without_trailing_slashes(v@.subrange(0, end as int)) == without_trailing_slashes(
                v@.subrange(0, e as int),
            ),
        decreases e,
    {
        assert(v@.subrange(0, e as int).drop_last() =~= v@.subrange(0, e as int - 1));
        e = e - 1;
    }
    e
}

/// Where the last component of `v[0..end]` starts.
fn component_start(v: &Vec<char>, end: usize) -> (r: usize)
    requires
        end <= v@.len(),
    ensures
        r <= end,
        last_component(v@.subrange(0, end as int)) == v@.subrange(r as int, end as int),
        r == 0 || v@[r - 1] == '/',
{
    let mut start: usize = end;
    assert(v@.subrange(end as int, end as int) =~= Seq::<char>::empty());
    while start > 0 && v[start - 1] != '/'
        invariant
            start <= end <= v@.len(),
            last_component(v@.subrange(0, end as int)) == last_component(
                v@.subrange(0, start as int),
            ) + v@.subrange(start as int, end as int),
        decreases start,
    {
        let ghost a = v@.subrange(0, start as int);
        assert(a.drop_last() =~= v@.subrange(0, start as int - 1));
        assert(last_component(a) == last_component(a.drop_last()).push(a.last()));
        assert(last_component(a.drop_last()).push(a.last()) + v@.subrange(start as int, end as int)
            =~= last_component(a.drop_last()) + v@.subrange(start as int - 1, end as int));
        start = start - 1;
    }
    assert(last_component(v@.subrange(0, start as int)) =~= Seq::<char>::empty());
    assert(Seq::<char>::empty() + v@.subrange(start as int, end as int) =~= v@.subrange(
        start as int,
        end as int,
    ));
    start
}

/// The characters `v[from..to]` as a string.
fn slice_string(v: &Vec<char>, from: usize, to: usize) -> (r: String)
    requires
        from <= to <= v@.len(),
    ensures
        r@ == v@.subrange(from as int, to as int),
{
    let mut c: Vec<char> = Vec::new();
    let mut i: usize = from;
    while i < to
        invariant
            from <= i <= to <= v@.len(),
            c@ == v@.subrange(from as int, i as int),
        decreases to - i,
    {
        c.push(v[i]);
        i = i + 1;
        assert(c@ =~= v@.subrange(from as int, i as int));
    }
    string_of(&c)
}

/// The final component of `p`; see [`file_name_of`].
pub fn file_name(p: &str) -> (r: Option<String>)
    ensures
        match r {
            Some(s) => file_name_of(p@) == Some(s@),
            None => file_name_of(p@) is None,
        },
{
    let v = chars_of(p);
    assert(v@.subrange(0, v@.len() as int) =~= v@);
    let end = trimmed_end(&v, v.len());
    let start = component_start(&v, end);
    assert(v@.subrange(0, end as int).subrange(0, end as int) =~= v@.subrange(0, end as int));
    let ghost c = v@.subrange(start as int, end as int);
    let n = end - start;
    if n == 0 || (n == 1 && v[start] == '.') || (n == 2 && v[start] == '.' && v[start + 1] == '.') {
        proof {
            if n == 1 && v@[start as int] == '.' {
                assert(c =~= seq!['.']);
            }
            if n == 2 && v@[start as int] == '.' && v@[start + 1] == '.' {
                assert(c =~= seq!['.', '.']);
            }
        }
        None
    } else {
        assert(c != seq!['.']) by {
            if c == seq!['.'] {
                assert(c.len() == 1 && c[0] == '.');
            }
        }
        assert(c != seq!['.', '.']) by {
            if c == seq!['.', '.'] {
                assert(c.len() == 2 && c[0] == '.' && c[1] == '.');
            }
        }
        Some(slice_string(&v, start, end))
    }
}

/// The directory that holds `p`: none for the root and the empty path, the
/// empty path for a single relative component.
pub open spec fn parent_of(p: Seq<char>) -> Option<Seq<char>> {
    let t = without_trailing_slashes(p);
    let head = t.subrange(0, t.len() - last_component(t).len());
    if t.len() == 0 {
        None
    } else if head.len() == 0 {
        Some(Seq::empty())
    } else if without_trailing_slashes(head).len() == 0 {
        Some(seq!['/'])
    } else {
        Some(without_trailing_slashes(head))
    }
}

/// The parent directory of `p`; see [`parent_of`].
pub fn parent_dir(p: &str) -> (r: Option<String>)
    ensures
        match r {
            Some(q) => parent_of(p@) == Some(q@) && q@.len() < p@.len(),
            None => parent_of(p@) is None,
        },
{
    let v = chars_of(p);
    assert(v@.subrange(0, v@.len() as int) =~= v@);
    let end = trimmed_end(&v, v.len());
    if end == 0 {
        return None;
    }
    let start = component_start(&v, end);
    let ghost t = v@.subrange(0, end as int);
    assert(t.subrange(0, end as int) =~= t);
    assert(t.subrange(0, start as int) =~= v@.subrange(0, start as int));
    if start == 0 {
        return Some(String::new());
    }
    let hend = trimmed_end(&v, start);
    if hend == 0 {
        assert(start >= 1 && end > start);
        let mut root: Vec<char> = Vec::new();
        root.push('/');
        assert(root@ =~= seq!['/']);
        return Some(string_of(&root));
    }
    Some(slice_string(&v, 0, hend))
}

/// `p`, then its parent, and so on up to the last directory that has none.
pub open spec fn is_ancestor_chain(dirs: Seq<Seq<char>>, p: Seq<char>) -> bool {
    &&& dirs.len() >= 1
    &&& dirs[0] == p
    &&& forall|k: int| 0 <= k < dirs.len() - 1 ==> parent_of(#[trigger] dirs[k]) == Some(dirs[k + 1])
    &&& parent_of(dirs.last()) is None
}

/// `p` and each of the directories above it, nearest first.
pub fn ancestors(p: &str) -> (r: Vec<String>)
    ensures
        is_ancestor_chain(strings_view(r@), p@),
{
    let mut r: Vec<String> = Vec::new();
    let mut current = string_of(&chars_of(p));
    loop
        invariant_except_break
            r@.len() == 0 ==> current@ == p@,
            r@.len() > 0 ==> strings_view(r@)[0] == p@,
            r@.len() > 0 ==> parent_of(r@.last()@) == Some(current@),
            forall|k: int|
                0 <= k < r@.len() - 1 ==> parent_of(#[trigger] r@[k]@) == Some(r@[k + 1]@),
        ensures
            is_ancestor_chain(strings_view(r@), p@),
        decreases current@.len(),
    {
        let next = parent_dir(current.as_str());
        r.push(current);
        assert(strings_view(r@)[0] == r@[0]@);
        match next {
            Some(q) => {
                current = q;
            },
            None => {
                assert(strings_view(r@).last() == r@.last()@);
                assert forall|k: int| 0 <= k < r@.len() - 1 implies parent_of(
                    #[trigger] strings_view(r@)[k],
                ) == Some(strings_view(r@)[k + 1]) by {
                    assert(strings_view(r@)[k] == r@[k]@);
                    assert(strings_view(r@)[k + 1] == r@[k + 1]@);
                }
                break;
            },
        }
    }
    r
}

/// Whether `p` is `base` or lies below it; see [`is_path_prefix`].
pub fn path_starts_with(p: &str, base: &str) -> (r: bool)
    ensures
        r == is_path_prefix(base@, p@),
{
    let pv = chars_of(p);
    let bv = chars_of(base);
    if bv.len() == 0 {
        return true;
    }
    if bv.len() > pv.len() {
        return false;
    }
    let mut i: usize = 0;
    while i < bv.len()
        invariant
            pv@ == p@,
            bv@ == base@,
            bv@.len() > 0,
            bv@.len() <= pv@.len(),
            i <= bv@.len(),
            forall|j: int| 0 <= j < i ==> pv@[j] == bv@[j],
        decreases bv.len() - i,
    {
        if pv[i] != bv[i] {
            assert(pv@.subrange(0, bv@.len() as int)[i as int] != bv@[i as int]);
            assert(pv@.subrange(0, bv@.len() as int) != bv@);
            assert(!is_path_prefix(base@, p@));
            return false;
        }
        i = i + 1;
    }
    assert(pv@.subrange(0, bv@.len() as int) =~= bv@);
    pv.len() == bv.len() || bv[bv.len() - 1] == '/' || pv[bv.len()] == '/'
}

/// The position in `v` after `from` where the separators that follow it end.
fn skip_slashes(v: &Vec<char>, from: usize) -> (r: usize)
    requires
        from <= v@.len(),
    ensures
        from <= r <= v@.len(),
        without_leading_slashes(v@.subrange(from as int, v@.len() as int)) == v@.subrange(
            r as int,
            v@.len() as int,
        ),
{
    let n = v.len();
    let mut start: usize = from;
    while start < n && v[start] == '/'
        invariant
            n == v@.len(),
            from <= start <= n,
            without_leading_slashes(v@.subrange(from as int, n as int)) == without_leading_slashes(
                v@.subrange(start as int, n as int),
            ),
        decreases n - start,
    {
        assert(v@.subrange(start as int, n as int).drop_first() =~= v@.subrange(
            start as int + 1,
            n as int,
        ));
        start = start + 1;
    }
    proof {
        let rest = v@.subrange(start as int, n as int);
        if start < n {
            assert(rest[0] != '/');
        } else {
            assert(rest.len() == 0);
        }
    }
    start
}

/// What lies below `root` in `p`, without a leading separator.
pub open spec fn below_root(root: Seq<char>, p: Seq<char>) -> Seq<char> {
    without_leading_slashes(p.subrange(root.len() as int, p.len() as int))
}

/// The part of `p` below `root`; see [`below_root`].
pub fn strip_root(p: &str, root: &str) -> (r: String)
    requires
        root@.len() <= p@.len(),
    ensures
        r@ == below_root(root@, p@),
{
    let v = chars_of(p);
    let n = root.unicode_len();
    let start = skip_slashes(&v, n);
    slice_string(&v, start, v.len())
}

} // verus!
