//! Paths as text, with the Unix rules of `std::path`: joining, absoluteness,
//! and the component-wise comparisons that `Path` provides.

use vstd::prelude::*;
use crate::config::opt_chars;
use crate::text::{chars_of, push_all, string_from_chars};

verus! {

/// Whether `p` is absolute: on Unix, whether it starts with `/`.
pub open spec fn is_absolute_spec(p: Seq<char>) -> bool {
    p.len() > 0 && p[0] == '/'
}

/// `base.join(comp)` on Unix: an absolute `comp` replaces `base`; otherwise
/// `comp` is appended after a separator unless `base` is empty or already
/// ends with one.
pub open spec fn join_spec(base: Seq<char>, comp: Seq<char>) -> Seq<char> {
    if is_absolute_spec(comp) {
        comp
    } else if base.len() == 0 || base.last() == '/' {
        base + comp
    } else {
        base + seq!['/'] + comp
    }
}

/// Whether `p` is an absolute path.
pub fn is_absolute(p: &str) -> (r: bool)
    ensures
        r == is_absolute_spec(p@),
{
    let c = chars_of(p);
    c.len() > 0 && c[0] == '/'
}

/// `base` joined with `comp`, as `Path::join` does on Unix.
pub fn join(base: &str, comp: &str) -> (r: String)
    ensures
        r@ == join_spec(base@, comp@),
{
    let b = chars_of(base);
    let c = chars_of(comp);
    if c.len() > 0 && c[0] == '/' {
        return string_from_chars(&c);
    }
    let mut out = b;
    if out.len() > 0 && out[out.len() - 1] != '/' {
        out.push('/');
    }
    push_all(&mut out, &c);
    string_from_chars(&out)
}

/// The pieces of `s` between separators, as `str::split('/')` yields them.
pub open spec fn segments(s: Seq<char>) -> Seq<Seq<char>>
    decreases s.len(),
{
    if s.len() == 0 {
        seq![Seq::<char>::empty()]
    } else {
        let p = segments(s.drop_last());
        if s.last() == '/' {
            p.push(Seq::<char>::empty())
        } else {
            p.update(p.len() - 1, p.last().push(s.last()))
        }
    }
}

/// Whether a segment names a component: it is neither empty nor `.`.
pub open spec fn names_component(seg: Seq<char>) -> bool {
    seg.len() > 0 && seg != seq!['.']
}

/// The segments that name components, in order.
pub open spec fn kept_segments(segs: Seq<Seq<char>>) -> Seq<Seq<char>>
    decreases segs.len(),
{
    if segs.len() == 0 {
        Seq::empty()
    } else if names_component(segs.last()) {
        kept_segments(segs.drop_last()).push(segs.last())
    } else {
        kept_segments(segs.drop_last())
    }
}

/// The component that opens `p`, if any: the root `/` for an absolute path,
/// and `.` for a path that starts with the segment `.`.
pub open spec fn leading_component(p: Seq<char>) -> Seq<Seq<char>> {
    if p.len() > 0 && p[0] == '/' {
        seq![seq!['/']]
    } else if p.len() > 0 && p[0] == '.' && (p.len() == 1 || p[1] == '/') {
        seq![seq!['.']]
    } else {
        Seq::empty()
    }
}

/// The components of `p` as `Path::components` yields them on Unix, each as
/// its text: the root (`/`) or a leading current directory (`.`), then every
/// segment between separators that is neither empty nor `.`.
pub open spec fn components(p: Seq<char>) -> Seq<Seq<char>> {
    leading_component(p) + kept_segments(segments(p))
}

/// Whether `Path::new(a) == Path::new(b)`: their components are the same.
pub open spec fn paths_equal(a: Seq<char>, b: Seq<char>) -> bool {
    components(a) == components(b)
}

/// Whether `Path::new(p).starts_with(base)`: the components of `base` are
/// the first components of `p`.
pub open spec fn path_starts_with(p: Seq<char>, base: Seq<char>) -> bool {
    let c = components(p);
    let b = components(base);
    b.len() <= c.len() && c.take(b.len() as int) == b
}

/// The texts of a list of character vectors.
pub open spec fn texts(v: Seq<Vec<char>>) -> Seq<Seq<char>> {
    v.map_values(|x: Vec<char>| x@)
}

proof fn lemma_kept_push(segs: Seq<Seq<char>>, seg: Seq<char>)
    ensures
        kept_segments(segs.push(seg)) == (if names_component(seg) {
            kept_segments(segs).push(seg)
        } else {
            kept_segments(segs)
        }),
{
    assert(segs.push(seg).drop_last() =~= segs);
}

fn names_component_chars(seg: &Vec<char>) -> (r: bool)
    ensures
        r == names_component(seg@),
{
    if seg.len() == 0 {
        false
    } else if seg.len() == 1 && seg[0] == '.' {
        proof {
            assert(seg@ =~= seq!['.']);
        }
        false
    } else {
        proof {
            if seg@.len() == 1 {
                assert(seg@[0] == seg[0]);
            }
        }
        true
    }
}

/// The components of `p`, as `Path::components` yields them on Unix.
pub fn path_components(p: &str) -> (r: Vec<Vec<char>>)
    ensures
        texts(r@) == components(p@),
{
    let s = chars_of(p);
    let mut out: Vec<Vec<char>> = Vec::new();
    if s.len() > 0 && s[0] == '/' {
        let mut root: Vec<char> = Vec::new();
        root.push('/');
        out.push(root);
    } else if s.len() > 0 && s[0] == '.' && (s.len() == 1 || s[1] == '/') {
        let mut cur: Vec<char> = Vec::new();
        cur.push('.');
        out.push(cur);
    }
    proof {
        assert(texts(out@) =~= leading_component(s@));
    }
    let ghost lead = texts(out@);
    let mut seg: Vec<char> = Vec::new();
    let ghost mut done: Seq<Seq<char>> = Seq::empty();
    let mut i: usize = 0;
    while i < s.len()
        invariant
            s@ == p@,
            0 <= i <= s@.len(),
            lead == leading_component(s@),
            segments(s@.take(i as int)) == done.push(seg@),
            texts(out@) == lead + kept_segments(done),
        decreases s@.len() - i,
    {
        let c = s[i];
        proof {
            assert(s@.take(i + 1).drop_last() =~= s@.take(i as int));
            assert(s@.take(i + 1).last() == c);
        }
        if c == '/' {
            let ghost old_done = done;
            let ghost old_seg = seg@;
            let ghost old_out = texts(out@);
            let keep = names_component_chars(&seg);
            proof {
                done = done.push(old_seg);
                lemma_kept_push(old_done, old_seg);
            }
            if keep {
                out.push(seg);
                proof {
                    assert(texts(out@) =~= old_out.push(old_seg));
                    assert(lead + kept_segments(done) =~= (lead + kept_segments(old_done)).push(old_seg));
                }
            }
            seg = Vec::new();
        } else {
            seg.push(c);
        }
        i = i + 1;
    }
    let ghost last_seg = seg@;
    let ghost before = texts(out@);
    proof {
        assert(s@.take(i as int) =~= s@);
        lemma_kept_push(done, last_seg);
    }
    let keep_last = names_component_chars(&seg);
    if keep_last {
        out.push(seg);
        proof {
            assert(texts(out@) =~= before.push(last_seg));
            assert(lead + kept_segments(done.push(last_seg)) =~= (lead + kept_segments(done)).push(last_seg));
        }
    }
    out
}

fn same_chars(a: &Vec<char>, b: &Vec<char>) -> (r: bool)
    ensures
        r == (a@ == b@),
{
    if a.len() != b.len() {
        return false;
    }
    let mut i: usize = 0;
    while i < a.len()
        invariant
            a@.len() == b@.len(),
            0 <= i <= a@.len(),
            forall|k: int| 0 <= k < i ==> a@[k] == b@[k],
        decreases a@.len() - i,
    {
        if a[i] != b[i] {
            return false;
        }
        i = i + 1;
    }
    proof {
        assert(a@ =~= b@);
    }
    true
}

/// Whether the first `n` texts of `a` and `b` agree.
fn same_prefix(a: &Vec<Vec<char>>, b: &Vec<Vec<char>>, n: usize) -> (r: bool)
    requires
        n <= a@.len(),
        n <= b@.len(),
    ensures
        r == (texts(a@).take(n as int) == texts(b@).take(n as int)),
{
    let mut i: usize = 0;
    while i < n
        invariant
            n <= a@.len(),
            n <= b@.len(),
            0 <= i <= n,
            forall|k: int| 0 <= k < i ==> a@[k]@ == b@[k]@,
        decreases n - i,
    {
        if !same_chars(&a[i], &b[i]) {
            proof {
                assert(texts(a@).take(n as int)[i as int] == a@[i as int]@);
                assert(texts(b@).take(n as int)[i as int] == b@[i as int]@);
            }
            return false;
        }
        i = i + 1;
    }
    proof {
        assert(texts(a@).take(n as int) =~= texts(b@).take(n as int));
    }
    true
}

/// `Path::new(a) == Path::new(b)` on Unix: the paths have the same
/// components.
pub fn same_path(a: &str, b: &str) -> (r: bool)
    ensures
        r == paths_equal(a@, b@),
{
    let x = path_components(a);
    let y = path_components(b);
    if x.len() != y.len() {
        return false;
    }
    let r = same_prefix(&x, &y, x.len());
    proof {
        assert(texts(x@).take(x@.len() as int) =~= texts(x@));
        assert(texts(y@).take(y@.len() as int) =~= texts(y@));
    }
    r
}

/// `Path::new(p).starts_with(base)` on Unix: the components of `base` are
/// the first components of `p`.
pub fn starts_with_path(p: &str, base: &str) -> (r: bool)
    ensures
        r == path_starts_with(p@, base@),
{
    let x = path_components(p);
    let y = path_components(base);
    if y.len() > x.len() {
        return false;
    }
    let r = same_prefix(&x, &y, y.len());
    proof {
        assert(texts(y@).take(y@.len() as int) =~= texts(y@));
    }
    r
}

/// What `Path::new(p).strip_prefix(base)` leaves, displayed as text, or
/// `None` when `base` is not a prefix of `p` component-wise.
pub uninterp spec fn path_after_prefix(p: Seq<char>, base: Seq<char>) -> Option<Seq<char>>;

/// `Path::new(p).strip_prefix(base)`, the rest displayed as text. The
/// contract claims that the result depends on the two texts alone and, as the
/// documentation of `strip_prefix` says, that there is a rest exactly when
/// `p` starts with `base`. The rest itself, the remainder of `p` with
/// separators and `.` trimmed at both ends (so empty exactly when it has no
/// components), is left to `std::path`.
#[verifier::external_body]
pub(crate) fn strip_path_prefix(p: &str, base: &str) -> (r: Option<String>)
    ensures
        opt_chars(r) == path_after_prefix(p@, base@),
        r is Some <==> path_starts_with(p@, base@),
{
    std::path::Path::new(p).strip_prefix(base).ok().map(|rest| rest.display().to_string())
}

/// Whether `p` has no parent: it has no components (it is empty) or its only
/// component is the root.
pub open spec fn lacks_parent(p: Seq<char>) -> bool {
    components(p).len() == 0 || components(p) == seq![seq!['/']]
}

/// The text of `Path::new(p).parent()`, or `None` when there is none.
pub uninterp spec fn parent_text(p: Seq<char>) -> Option<Seq<char>>;

/// `Path::new(p).parent()`, displayed as text. The contract claims that the
/// result depends on the text alone and, as the documentation of `parent`
/// says, that there is none exactly when the path is empty or ends in the
/// root. The parent's text itself is left to `std::path`.
#[verifier::external_body]
fn path_parent(p: &str) -> (r: Option<String>)
    ensures
        opt_chars(r) == parent_text(p@),
        r is None <==> lacks_parent(p@),
{
    std::path::Path::new(p).parent().map(|parent| parent.display().to_string())
}

/// The error when a path has no parent directory.
pub open spec fn no_parent_error(p: Seq<char>) -> Seq<char> {
    "failed to determine parent of "@ + p
}

/// The directory to create before writing `p`, given what `Path::parent`
/// gave for it: that parent, or the error naming `p` when there is none.
pub fn parent_or_error(p: &str, parent: Option<String>) -> (r: Result<String, String>)
    ensures
        parent matches Some(d) ==> r == Ok::<String, String>(d),
        parent is None ==> (r matches Err(e) && e@ == no_parent_error(p@)),
{
    match parent {
        Some(d) => Ok(d),
        None => {
            let mut msg = chars_of("failed to determine parent of ");
            let c = chars_of(p);
            push_all(&mut msg, &c);
            Err(string_from_chars(&msg))
        },
    }
}

/// The parent directory of `p`, as `Path::parent` gives it, or the error
/// naming `p` when the path is empty or is the root.
pub fn parent_dir(p: &str) -> (r: Result<String, String>)
    ensures
        r is Ok <==> !lacks_parent(p@),
        r matches Ok(d) ==> Some(d@) == parent_text(p@),
        r matches Err(e) ==> e@ == no_parent_error(p@),
{
    let parent = path_parent(p);
    parent_or_error(p, parent)
}

} // verus!
