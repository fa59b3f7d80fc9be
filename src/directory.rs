//! Shortening of the working directory for display.

use vstd::prelude::*;

use crate::text::{has_prefix, opt_view, starts_with, substring};

verus! {

/// Paths longer than this many characters are cut down to their last component.
pub const MAX_WIDTH: usize = 30;

/// The index just past the last `/` of `p`, or 0 when `p` has none.
pub open spec fn after_last_separator(p: Seq<char>) -> int
    decreases p.len(),
{
    if p.len() == 0 {
        0
    } else if p.last() == '/' {
        p.len() as int
    } else {
        after_last_separator(p.drop_last())
    }
}

/// The text after the last `/` of `p`; all of `p` when it has no `/`.
pub open spec fn last_component(p: Seq<char>) -> Seq<char> {
    p.subrange(after_last_separator(p), p.len() as int)
}

/// `p` itself when it is short enough, else its last component.
pub open spec fn truncated(p: Seq<char>) -> Seq<char> {
    if p.len() > MAX_WIDTH {
        last_component(p)
    } else {
        p
    }
}

/// The display form of `p`: `~` followed by the rest of `p` when `p` begins with
/// the home directory, else `p` truncated.
pub open spec fn abbreviated(p: Seq<char>, home: Option<Seq<char>>) -> Seq<char> {
    if home is Some && starts_with(p, home->0) {
        seq!['~'] + p.subrange(home->0.len() as int, p.len() as int)
    } else {
        truncated(p)
    }
}

/// Whether the first character of `s` is `~`.
pub open spec fn leads_with_tilde(s: Seq<char>) -> bool {
    s.len() > 0 && s[0] == '~'
}

proof fn lemma_after_last_separator_shape(p: Seq<char>)
    ensures
        0 <= after_last_separator(p) <= p.len(),
        after_last_separator(p) > 0 ==> p[after_last_separator(p) - 1] == '/',
        forall|j: int| after_last_separator(p) <= j < p.len() ==> #[trigger] p[j] != '/',
    decreases p.len(),
{
    if p.len() > 0 && p.last() != '/' {
        let q = p.drop_last();
        lemma_after_last_separator_shape(q);
        assert forall|j: int| after_last_separator(p) <= j < p.len() implies #[trigger] p[j]
            != '/' by {
            if j < q.len() {
                assert(p[j] == q[j]);
            }
        }
    }
}

/// Outside the home directory no `~` is added: when `p` does not begin with
/// `h`, the display form does not begin with `~` (nor without a home), unless
/// what is kept of `p` begins with `~` itself: `p` when it is short enough,
/// else its last component.
pub proof fn lemma_no_tilde_outside_home(p: Seq<char>, h: Seq<char>)
    requires
        !starts_with(p, h),
        p.len() <= MAX_WIDTH ==> !leads_with_tilde(p),
        p.len() > MAX_WIDTH ==> !leads_with_tilde(last_component(p)),
    ensures
        !leads_with_tilde(abbreviated(p, Some(h))),
        !leads_with_tilde(abbreviated(p, None)),
{
}

/// The home directory itself shows as `~`.
pub proof fn lemma_home_is_tilde(h: Seq<char>)
    ensures
        abbreviated(h, Some(h)) == seq!['~'],
{
    assert(h.subrange(0, h.len() as int) =~= h);
    assert(seq!['~'] + h.subrange(h.len() as int, h.len() as int) =~= seq!['~']);
}

/// Without a home directory, a path longer than `MAX_WIDTH` is cut down to its
/// last component, the text after its last `/` (all of it when it has none), and
/// any other path is kept as it is.
pub proof fn lemma_truncation_without_home(p: Seq<char>)
    ensures
        abbreviated(p, None) == if p.len() > MAX_WIDTH {
            last_component(p)
        } else {
            p
        },
        p.len() > MAX_WIDTH ==> {
            let k = p.len() - abbreviated(p, None).len();
            &&& 0 <= k <= p.len()
            &&& p == p.subrange(0, k) + abbreviated(p, None)
            &&& k > 0 ==> p[k - 1] == '/'
            &&& forall|j: int|
                0 <= j < abbreviated(p, None).len() ==> #[trigger] abbreviated(p, None)[j] != '/'
        },
{
    lemma_after_last_separator_shape(p);
    if p.len() > MAX_WIDTH {
        let k = after_last_separator(p);
        assert(p =~= p.subrange(0, k) + p.subrange(k, p.len() as int));
        assert forall|j: int| 0 <= j < abbreviated(p, None).len() implies #[trigger] abbreviated(
            p,
            None,
        )[j] != '/' by {
            assert(abbreviated(p, None)[j] == p[k + j]);
        }
    }
}

/// Abbreviates `path` for display, relative to the home directory when one is
/// given and `path` begins with it (a plain prefix test on characters, so a home
/// of `/a/b` also matches `/a/bc`).
pub fn format_directory(path: &str, home_dir: Option<&str>) -> (r: String)
    ensures
        r@ == abbreviated(path@, opt_view(home_dir)),
{
    match home_dir {
        Some(home) => {
            if has_prefix(path, home) {
                let rest = substring(path, home.unicode_len(), path.unicode_len());
                let mut r = String::from_str("~");
                r.append(rest.as_str());
                proof {
                    reveal_strlit("~");
                }
                r
            } else {
                truncate_path(path)
            }
        },
        None => truncate_path(path),
    }
}

/// `path` when it has at most `MAX_WIDTH` characters, else the text after its
/// last `/`.
fn truncate_path(path: &str) -> (r: String)
    ensures
        r@ == truncated(path@),
{
    let n = path.unicode_len();
    if n <= MAX_WIDTH {
        return String::from_str(path);
    }
    let mut i: usize = n;
    assert(path@.subrange(0, n as int) =~= path@);
    while i > 0 && path.get_char(i - 1) != '/'
        invariant
            i <= n == path@.len(),
            after_last_separator(path@) == after_last_separator(path@.subrange(0, i as int)),
        decreases i,
    {
        assert(path@.subrange(0, i as int).drop_last() =~= path@.subrange(0, i - 1));
        i = i - 1;
    }
    substring(path, i, n)
}

} // verus!
