//! The name of a repository: the last component of its path, in lower case.

use vstd::prelude::*;
use vstd::string::{StrSliceExecFns, StringExecFns};

verus! {

/// What `str::to_lowercase` returns for a string: its characters mapped to
/// their Unicode lowercase forms.
pub uninterp spec fn lowercase(s: Seq<char>) -> Seq<char>;

/// Every character is ASCII.
pub open spec fn is_ascii_text(s: Seq<char>) -> bool {
    forall|i: int| 0 <= i < s.len() ==> (#[trigger] s[i] as u32) < 128
}

/// An ASCII capital letter in lower case; any other character unchanged.
pub open spec fn ascii_lower_char(c: char) -> char {
    if 'A' <= c && c <= 'Z' {
        ((c as u32) + 32) as char
    } else {
        c
    }
}

/// Each character with ASCII capitals in lower case.
pub open spec fn ascii_lowercase(s: Seq<char>) -> Seq<char> {
    s.map_values(|c: char| ascii_lower_char(c))
}

/// `str::to_lowercase`. The lowercase mapping is Unicode's Lowercase
/// mapping, left to the name `lowercase`. Of it only the ASCII case is
/// stated: Unicode maps the capitals `A`-`Z` to `a`-`z`, one for one, and
/// every other ASCII character to itself.
#[verifier::external_body]
fn to_lowercase(s: &str) -> (r: String)
    ensures
        r@ == lowercase(s@),
        is_ascii_text(s@) ==> r@ == ascii_lowercase(s@),
{
    s.to_lowercase()
}

/// Where the last component of `path` starts: just after its last `/`, or
/// at 0 when it has none.
pub open spec fn segment_start(path: Seq<char>) -> nat
    decreases path.len(),
{
    if path.len() == 0 {
        0
    } else if path.last() == '/' {
        path.len()
    } else {
        segment_start(path.drop_last())
    }
}

/// The last `/`-separated component of `path`: what follows its last `/`,
/// or all of it when it has none.
pub open spec fn last_segment(path: Seq<char>) -> Seq<char> {
    path.subrange(segment_start(path) as int, path.len() as int)
}

proof fn lemma_segment_start_is(path: Seq<char>, i: int)
    requires
        0 <= i <= path.len(),
        i == 0 || path[i - 1] == '/',
        forall|j: int| i <= j < path.len() ==> path[j] != '/',
    ensures
        segment_start(path) == i,
    decreases path.len(),
{
    if path.len() > i {
        let front = path.drop_last();
        assert forall|j: int| i <= j < front.len() implies front[j] != '/' by {
            assert(front[j] == path[j]);
        }
        if i > 0 {
            assert(front[i - 1] == path[i - 1]);
        }
        lemma_segment_start_is(front, i);
    }
}

proof fn lemma_segment_start_bounds(path: Seq<char>)
    ensures
        segment_start(path) <= path.len(),
        forall|j: int| segment_start(path) <= j < path.len() ==> path[j] != '/',
    decreases path.len(),
{
    if path.len() > 0 && path.last() != '/' {
        let front = path.drop_last();
        lemma_segment_start_bounds(front);
        assert forall|j: int| segment_start(path) <= j < path.len() implies path[j] != '/' by {
            if j < front.len() {
                assert(front[j] == path[j]);
            }
        }
    }
}

/// The last component of a path holds no `/`, so it is its own last
/// component: naming a repository by the name of a repository changes
/// nothing before lower-casing.
pub proof fn lemma_last_segment_is_its_own(path: Seq<char>)
    ensures
        !last_segment(path).contains('/'),
        last_segment(last_segment(path)) == last_segment(path),
{
    let seg = last_segment(path);
    lemma_segment_start_bounds(path);
    assert forall|k: int| 0 <= k < seg.len() implies seg[k] != '/' by {
        assert(seg[k] == path[segment_start(path) + k]);
    }
    lemma_segment_start_is(seg, 0);
    assert(seg.subrange(0, seg.len() as int) == seg);
}

/// The last component is the whole tail of the path after its last `/`:
/// the path is some prefix that is empty or ends in `/`, followed by the
/// component, and the component holds no `/`.
pub proof fn lemma_last_segment_is_whole_tail(path: Seq<char>)
    ensures
        last_segment(path).len() <= path.len(),
        path == path.take(path.len() - last_segment(path).len()) + last_segment(path),
        last_segment(path).len() < path.len() ==> path[path.len() - last_segment(path).len()
            - 1] == '/',
        forall|k: int| 0 <= k < last_segment(path).len() ==> #[trigger] last_segment(path)[k] != '/',
{
    lemma_segment_start_bounds(path);
    let seg = last_segment(path);
    let start = segment_start(path) as int;
    assert(seg.len() == path.len() - start);
    assert(path == path.take(start) + seg);
    if start > 0 {
        lemma_segment_start_ends_at_slash(path);
    }
    assert forall|k: int| 0 <= k < seg.len() implies #[trigger] seg[k] != '/' by {
        assert(seg[k] == path[start + k]);
    }
}

proof fn lemma_segment_start_ends_at_slash(path: Seq<char>)
    ensures
        segment_start(path) > 0 ==> path[segment_start(path) - 1] == '/',
    decreases path.len(),
{
    if path.len() > 0 && path.last() != '/' {
        let front = path.drop_last();
        lemma_segment_start_ends_at_slash(front);
        lemma_segment_start_bounds(front);
        if segment_start(front) > 0 {
            assert(front[segment_start(front) - 1] == path[segment_start(front) - 1]);
        }
    }
}

/// The last `/`-separated component of `path`, as
/// `path.split('/').last()` gives it.
pub fn last_path_segment(path: &str) -> (r: String)
    ensures
        r@ == last_segment(path@),
        !r@.contains('/'),
        r@.len() <= path@.len(),
        path@ == path@.take(path@.len() - r@.len()) + r@,
        r@.len() < path@.len() ==> path@[path@.len() - r@.len() - 1] == '/',
{
    let n = path.unicode_len();
    let mut start: usize = n;
    loop
        invariant
            start <= n,
            n == path@.len(),
            forall|j: int| start <= j < n ==> path@[j] != '/',
        ensures
            start <= n,
            start == 0 || path@[start - 1] == '/',
            forall|j: int| start <= j < n ==> path@[j] != '/',
        decreases start,
    {
        if start == 0 {
            break;
        }
        if path.get_char(start - 1) == '/' {
            break;
        }
        start = start - 1;
    }
    proof {
        lemma_segment_start_is(path@, start as int);
    }
    let segment = String::from_str(path.substring_char(start, n));
    proof {
        assert forall|k: int| 0 <= k < segment@.len() implies segment@[k] != '/' by {
            assert(segment@[k] == path@[start + k]);
        }
        assert(path@ == path@.take(start as int) + segment@);
    }
    segment
}

/// The name of the repository at `path`: its last component in lower case.
pub fn get_repo_name(path: &str) -> (r: String)
    ensures
        r@ == lowercase(last_segment(path@)),
        is_ascii_text(path@) ==> r@ == ascii_lowercase(last_segment(path@)),
{
    let segment = last_path_segment(path);
    proof {
        if is_ascii_text(path@) {
            lemma_segment_start_bounds(path@);
            assert forall|k: int| 0 <= k < segment@.len() implies (#[trigger] segment@[k] as u32)
                < 128 by {
                assert(segment@[k] == path@[segment_start(path@) + k]);
            }
        }
    }
    to_lowercase(segment.as_str())
}

/// For an ASCII path, the repository name is ASCII and is its own
/// repository name: naming a repository after the name of a repository
/// changes nothing.
pub proof fn lemma_ascii_repo_name_is_stable(path: Seq<char>)
    requires
        is_ascii_text(path),
    ensures
        is_ascii_text(ascii_lowercase(last_segment(path))),
        ascii_lowercase(last_segment(ascii_lowercase(last_segment(path)))) == ascii_lowercase(
            last_segment(path),
        ),
{
    let seg = last_segment(path);
    let name = ascii_lowercase(seg);
    lemma_last_segment_is_its_own(path);
    lemma_segment_start_bounds(path);
    assert forall|k: int| 0 <= k < name.len() implies (#[trigger] name[k] as u32) < 128
        && name[k] != '/' && ascii_lower_char(name[k]) == name[k] by {
        assert(seg[k] == path[segment_start(path) + k]);
        assert(seg[k] != '/') by {
            assert(!seg.contains('/'));
            if seg[k] == '/' {
                assert(seg.contains('/'));
            }
        }
        assert(name[k] == ascii_lower_char(seg[k]));
    }
    lemma_segment_start_is(name, 0);
    assert(last_segment(name) == name);
    assert(ascii_lowercase(name) == name);
}

} // verus!
