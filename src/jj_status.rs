//! The state of the Jujutsu working copy: its record, how it is read from the
//! output of `jj`, and how it is shown.

use vstd::prelude::*;

use crate::text::{
    contains_seq, contains_str, join_spaced, join_with_spaces, lemma_words_nonempty,
    lemma_trim_edges, split_words, strings_view, trim, trim_spaces, words,
};

verus! {

/// What is known of the current revision. Without a change id the record is
/// empty and its other fields mean nothing.
pub struct JjInfo {
    pub change_id: Option<String>,
    pub bookmarks: Vec<String>,
    pub has_conflict: bool,
    pub has_changes: bool,
}

/// The mathematical model of a `JjInfo`.
pub struct JjInfoView {
    pub change_id: Option<Seq<char>>,
    pub bookmarks: Seq<Seq<char>>,
    pub has_conflict: bool,
    pub has_changes: bool,
}

impl View for JjInfo {
    type V = JjInfoView;

    open spec fn view(&self) -> JjInfoView {
        JjInfoView {
            change_id: match self.change_id {
                Some(id) => Some(id@),
                None => None,
            },
            bookmarks: strings_view(self.bookmarks),
            has_conflict: self.has_conflict,
            has_changes: self.has_changes,
        }
    }
}

/// The record of a directory that is no repository.
pub open spec fn empty_info() -> JjInfoView {
    JjInfoView { change_id: None, bookmarks: seq![], has_conflict: false, has_changes: false }
}

/// The word that marks a conflicted revision.
pub open spec fn conflict_word() -> Seq<char> {
    seq!['c', 'o', 'n', 'f', 'l', 'i', 'c', 't']
}

/// The conflict word as it follows the other parts of a line.
pub open spec fn conflict_marker() -> Seq<char> {
    seq![' '] + conflict_word()
}

/// The change id, followed by the bookmarks when there are any, all separated by
/// single spaces.
pub open spec fn revision_text(v: JjInfoView) -> Seq<char> {
    if v.bookmarks.len() > 0 {
        v.change_id->0 + seq![' '] + join_spaced(v.bookmarks)
    } else {
        v.change_id->0
    }
}

/// The display text of a record: nothing without a change id; else the change
/// id, the bookmarks and the conflict word as present, joined by single spaces,
/// and a `*` when the working copy has changes.
pub open spec fn rendered(v: JjInfoView) -> Option<Seq<char>> {
    if v.change_id is None {
        None
    } else {
        let line = if v.has_conflict {
            revision_text(v) + conflict_marker()
        } else {
            revision_text(v)
        };
        Some(
            if v.has_changes {
                line.push('*')
            } else {
                line
            },
        )
    }
}

/// The words before the first conflict word.
pub open spec fn labels_before_conflict(ws: Seq<Seq<char>>) -> Seq<Seq<char>>
    decreases ws.len(),
{
    if ws.len() == 0 || ws[0] == conflict_word() {
        seq![]
    } else {
        seq![ws[0]] + labels_before_conflict(ws.drop_first())
    }
}

/// The record that a revision line describes, before the working copy is looked
/// at; nothing when the trimmed line is empty or only `@`. The words come from the
/// trimmed line; the conflict flag from the line as printed.
pub open spec fn parsed_revision(line: Seq<char>) -> Option<JjInfoView> {
    let t = trim(line);
    if t.len() == 0 || t == seq!['@'] {
        None
    } else {
        let w = words(t);
        Some(
            JjInfoView {
                change_id: Some(w[0]),
                bookmarks: labels_before_conflict(w.drop_first()),
                has_conflict: contains_seq(line, conflict_marker()),
                has_changes: false,
            },
        )
    }
}

impl JjInfo {
    /// The empty record.
    pub fn empty() -> (r: JjInfo)
        ensures
            r@ == empty_info(),
    {
        let r = JjInfo {
            change_id: None,
            bookmarks: Vec::new(),
            has_conflict: false,
            has_changes: false,
        };
        assert(r@.bookmarks =~= seq![]);
        r
    }

    /// The display text of the record, as `rendered` states it.
    pub fn format(&self) -> (r: Option<String>)
        ensures
            r is Some <==> self.change_id is Some,
            r is Some ==> Some(r->0@) == rendered(self@),
    {
        let id = match &self.change_id {
            Some(id) => id,
            None => {
                return None;
            },
        };
        let mut result = id.clone();
        proof {
            reveal_strlit(" ");
            reveal_strlit(" conflict");
            reveal_strlit("*");
        }
        if self.bookmarks.len() > 0 {
            result.append(" ");
            let joined = join_with_spaces(&self.bookmarks);
            result.append(joined.as_str());
        }
        assert(result@ == revision_text(self@));
        if self.has_conflict {
            result.append(" conflict");
            assert(conflict_marker() =~= " conflict"@);
        }
        if self.has_changes {
            result.append("*");
        }
        Some(result)
    }
}

/// The words of `ws` before the first conflict word.
fn take_labels(ws: &Vec<String>, from: usize) -> (r: Vec<String>)
    requires
        from <= ws@.len(),
    ensures
        strings_view(r) == labels_before_conflict(
            strings_view(*ws).subrange(from as int, ws@.len() as int),
        ),
{
    let conflict = String::from_str("conflict");
    proof {
        reveal_strlit("conflict");
    }
    let ghost all = strings_view(*ws);
    let mut r: Vec<String> = Vec::new();
    let mut i: usize = from;
    while i < ws.len()
        invariant
            from <= i <= ws@.len(),
            all == strings_view(*ws),
            conflict@ == conflict_word(),
            labels_before_conflict(all.subrange(from as int, ws@.len() as int)) == strings_view(r)
                + labels_before_conflict(all.subrange(i as int, ws@.len() as int)),
        decreases ws@.len() - i,
    {
        let ghost rest = all.subrange(i as int, ws@.len() as int);
        assert(rest[0] == ws@[i as int]@);
        if ws[i] == conflict {
            assert(labels_before_conflict(rest) =~= seq![]);
            assert(strings_view(r) + seq![] =~= strings_view(r));
            return r;
        }
        assert(rest.drop_first() =~= all.subrange(i + 1, ws@.len() as int));
        let ghost before = strings_view(r);
        r.push(ws[i].clone());
        assert(strings_view(r) =~= before.push(rest[0]));
        assert(strings_view(r) + labels_before_conflict(rest.drop_first()) =~= before
            + labels_before_conflict(rest));
        i = i + 1;
    }
    let ghost rest = all.subrange(i as int, ws@.len() as int);
    assert(strings_view(r) + labels_before_conflict(rest) =~= strings_view(r));
    r
}

/// Reads the line that `jj log` prints for the current revision: the change id,
/// the bookmarks, and the conflict word when the revision is conflicted. The
/// working copy is not looked at here, so the result has no changes.
pub fn parse_revision(line: &str) -> (r: Option<JjInfo>)
    ensures
        r is Some <==> parsed_revision(line@) is Some,
        r is Some ==> r->0@ == parsed_revision(line@)->0,
{
    let t = trim_spaces(line);
    let n = t.unicode_len();
    if n == 0 {
        return None;
    }
    if n == 1 && t.as_str().get_char(0) == '@' {
        assert(t@ =~= seq!['@']);
        return None;
    }
    assert(t@ != seq!['@']);
    proof {
        lemma_trim_edges(line@);
        lemma_words_nonempty(t@, 0);
    }
    let w = split_words(t.as_str());
    let id = w[0].clone();
    let bookmarks = take_labels(&w, 1);
    assert(strings_view(w).subrange(1, w@.len() as int) =~= strings_view(w).drop_first());
    let has_conflict = contains_str(line, " conflict");
    proof {
        reveal_strlit(" conflict");
        assert(conflict_marker() =~= " conflict"@);
    }
    Some(JjInfo { change_id: Some(id), bookmarks, has_conflict, has_changes: false })
}

/// Whether the last character of `s` is `*`.
pub open spec fn ends_with_star(s: Seq<char>) -> bool {
    s.len() > 0 && s.last() == '*'
}

proof fn lemma_contains_extend(a: Seq<char>, b: Seq<char>, w: Seq<char>)
    requires
        contains_seq(a, w),
    ensures
        contains_seq(a + b, w),
{
    let i = choose|i: int|
        0 <= i && i + w.len() <= a.len() && #[trigger] a.subrange(i, i + w.len()) == w;
    assert((a + b).subrange(i, i + w.len()) =~= a.subrange(i, i + w.len()));
}

proof fn lemma_no_conflict_before_star(a: Seq<char>)
    requires
        !contains_seq(a, conflict_word()),
    ensures
        !contains_seq(a.push('*'), conflict_word()),
{
    let w = conflict_word();
    if contains_seq(a.push('*'), w) {
        let b = a.push('*');
        let i = choose|i: int|
            0 <= i && i + w.len() <= b.len() && #[trigger] b.subrange(i, i + w.len()) == w;
        if i + w.len() <= a.len() {
            assert(a.subrange(i, i + w.len()) =~= b.subrange(i, i + w.len()));
        } else {
            assert(b.subrange(i, i + w.len())[7] == '*');
        }
    }
}

/// The text of a record with a change id, before the `*` of changes.
pub open spec fn line_before_star(v: JjInfoView) -> Seq<char> {
    if v.has_conflict {
        revision_text(v) + conflict_marker()
    } else {
        revision_text(v)
    }
}

proof fn lemma_line_holds_conflict(v: JjInfoView)
    requires
        v.has_conflict,
    ensures
        contains_seq(line_before_star(v), conflict_word()),
{
    let rt = revision_text(v);
    let line = line_before_star(v);
    let w = conflict_word();
    let start: int = rt.len() as int + 1;
    assert(line.subrange(start, start + w.len()) =~= w);
}

proof fn lemma_star_shape(v: JjInfoView)
    requires
        v.change_id is Some,
        !v.has_changes && !v.has_conflict ==> !ends_with_star(revision_text(v)),
    ensures
        ends_with_star(rendered(v)->0) <==> v.has_changes,
{
    let line = line_before_star(v);
    if v.has_changes {
        assert(rendered(v)->0 == line.push('*'));
    } else {
        assert(rendered(v)->0 == line);
        if v.has_conflict {
            assert(line.last() == conflict_marker().last());
        }
    }
}

proof fn lemma_conflict_shape(v: JjInfoView)
    requires
        v.change_id is Some,
        !v.has_conflict ==> !contains_seq(revision_text(v), conflict_word()),
    ensures
        contains_seq(rendered(v)->0, conflict_word()) <==> v.has_conflict,
{
    let line = line_before_star(v);
    let w = conflict_word();
    if v.has_changes {
        assert(rendered(v)->0 == line.push('*'));
        if v.has_conflict {
            lemma_line_holds_conflict(v);
            lemma_contains_extend(line, seq!['*'], w);
            assert(line + seq!['*'] =~= line.push('*'));
        } else {
            lemma_no_conflict_before_star(line);
        }
    } else {
        assert(rendered(v)->0 == line);
        if v.has_conflict {
            lemma_line_holds_conflict(v);
        }
    }
}

/// How a record shows: nothing exactly when it has no change id; otherwise a
/// text that ends in `*` exactly when the working copy has changes, and holds
/// the word `conflict` exactly when the revision is conflicted. The two
/// "exactly"s need, where the flag is off, that the change id and bookmarks do
/// not themselves end in `*` or hold that word.
pub proof fn lemma_rendered_shape(v: JjInfoView)
    requires
        v.change_id is Some && !v.has_changes && !v.has_conflict ==> !ends_with_star(
            revision_text(v),
        ),
        v.change_id is Some && !v.has_conflict ==> !contains_seq(revision_text(v), conflict_word()),
    ensures
        rendered(v) is None <==> v.change_id is None,
        rendered(v) is Some ==> (ends_with_star(rendered(v)->0) <==> v.has_changes),
        rendered(v) is Some ==> (contains_seq(rendered(v)->0, conflict_word()) <==> v.has_conflict),
{
    if v.change_id is Some {
        lemma_star_shape(v);
        lemma_conflict_shape(v);
    }
}

/// A question that the probe needs answered by running `jj` in the directory.
pub enum JjQuery {
    /// `jj root`: is the directory inside a repository?
    Root,
    /// `jj log` of the current revision, one line of change id, bookmarks and
    /// conflict word.
    Revision,
    /// `jj diff --summary`: does the working copy have changes?
    Diff,
}

/// How a query went: whether `jj` ran and exited with success, and what it
/// printed on standard output.
pub struct QueryOutput {
    pub success: bool,
    pub stdout: String,
}

/// Where the probe of a directory stands. It starts by asking for the
/// repository root and ends `Finished` with the record; any failed query ends it
/// with the empty record.
pub enum JjProbe {
    AwaitingRoot,
    AwaitingRevision,
    AwaitingDiff(JjInfo),
    Finished(JjInfo),
}

/// The mathematical model of a `JjProbe`.
pub enum ProbeView {
    AwaitingRoot,
    AwaitingRevision,
    AwaitingDiff(JjInfoView),
    Finished(JjInfoView),
}

impl View for JjProbe {
    type V = ProbeView;

    open spec fn view(&self) -> ProbeView {
        match self {
            JjProbe::AwaitingRoot => ProbeView::AwaitingRoot,
            JjProbe::AwaitingRevision => ProbeView::AwaitingRevision,
            JjProbe::AwaitingDiff(info) => ProbeView::AwaitingDiff(info@),
            JjProbe::Finished(info) => ProbeView::Finished(info@),
        }
    }
}

/// The query that a probe waits on; none once it is finished.
pub open spec fn pending_query(p: ProbeView) -> Option<JjQuery> {
    match p {
        ProbeView::AwaitingRoot => Some(JjQuery::Root),
        ProbeView::AwaitingRevision => Some(JjQuery::Revision),
        ProbeView::AwaitingDiff(_) => Some(JjQuery::Diff),
        ProbeView::Finished(_) => None,
    }
}

/// The probe after the answer to its pending query: a failed root or log query,
/// or a log line that names no revision, finishes it empty; the diff query
/// finishes it, with changes exactly when `jj diff` succeeded and printed
/// something.
pub open spec fn probe_step(p: ProbeView, success: bool, out: Seq<char>) -> ProbeView {
    match p {
        ProbeView::AwaitingRoot => if success {
            ProbeView::AwaitingRevision
        } else {
            ProbeView::Finished(empty_info())
        },
        ProbeView::AwaitingRevision => if success && parsed_revision(out) is Some {
            ProbeView::AwaitingDiff(parsed_revision(out)->0)
        } else {
            ProbeView::Finished(empty_info())
        },
        ProbeView::AwaitingDiff(v) => ProbeView::Finished(
            JjInfoView {
                change_id: v.change_id,
                bookmarks: v.bookmarks,
                has_conflict: v.has_conflict,
                has_changes: success && out.len() > 0,
            },
        ),
        ProbeView::Finished(v) => ProbeView::Finished(v),
    }
}

/// A whole probe, answer after answer: unless `jj root` and `jj log` both
/// succeed and the log line names a revision, it finishes with the empty record
/// without asking about the working copy; otherwise it asks `jj diff` and
/// finishes with the parsed record, with changes exactly when that query
/// succeeded and printed something.
pub proof fn lemma_probe_outcome(
    root_ok: bool,
    root_out: Seq<char>,
    log_ok: bool,
    log_out: Seq<char>,
    diff_ok: bool,
    diff_out: Seq<char>,
)
    ensures
        ({
            let after_root = probe_step(ProbeView::AwaitingRoot, root_ok, root_out);
            let after_log = probe_step(after_root, log_ok, log_out);
            if root_ok && log_ok && parsed_revision(log_out) is Some {
                let v = parsed_revision(log_out)->0;
                &&& pending_query(after_root) == Some(JjQuery::Revision)
                &&& pending_query(after_log) == Some(JjQuery::Diff)
                &&& probe_step(after_log, diff_ok, diff_out) == ProbeView::Finished(
                    JjInfoView {
                        change_id: v.change_id,
                        bookmarks: v.bookmarks,
                        has_conflict: v.has_conflict,
                        has_changes: diff_ok && diff_out.len() > 0,
                    },
                )
            } else {
                &&& after_log == ProbeView::Finished(empty_info())
                &&& pending_query(after_log) is None
            }
        }),
{
}

impl JjProbe {
    /// A probe that has asked nothing yet.
    pub fn new() -> (r: JjProbe)
        ensures
            r@ == ProbeView::AwaitingRoot,
    {
        JjProbe::AwaitingRoot
    }

    /// The query to run next, if any.
    pub fn next_query(&self) -> (r: Option<JjQuery>)
        ensures
            r == pending_query(self@),
    {
        match self {
            JjProbe::AwaitingRoot => Some(JjQuery::Root),
            JjProbe::AwaitingRevision => Some(JjQuery::Revision),
            JjProbe::AwaitingDiff(_) => Some(JjQuery::Diff),
            JjProbe::Finished(_) => None,
        }
    }

    /// Takes in the answer to the pending query.
    pub fn advance(self, out: &QueryOutput) -> (r: JjProbe)
        ensures
            r@ == probe_step(self@, out.success, out.stdout@),
    {
        match self {
            JjProbe::AwaitingRoot => if out.success {
                JjProbe::AwaitingRevision
            } else {
                JjProbe::Finished(JjInfo::empty())
            },
            JjProbe::AwaitingRevision => {
                if !out.success {
                    return JjProbe::Finished(JjInfo::empty());
                }
                match parse_revision(out.stdout.as_str()) {
                    Some(info) => JjProbe::AwaitingDiff(info),
                    None => JjProbe::Finished(JjInfo::empty()),
                }
            },
            JjProbe::AwaitingDiff(info) => {
                let has_changes = out.success && out.stdout.as_str().unicode_len() > 0;
                JjProbe::Finished(
                    JjInfo {
                        change_id: info.change_id,
                        bookmarks: info.bookmarks,
                        has_conflict: info.has_conflict,
                        has_changes,
                    },
                )
            },
            JjProbe::Finished(info) => JjProbe::Finished(info),
        }
    }

    /// The record of a finished probe; the empty record before that.
    pub fn into_info(self) -> (r: JjInfo)
        ensures
            r@ == match self@ {
                ProbeView::Finished(v) => v,
                _ => empty_info(),
            },
    {
        match self {
            JjProbe::Finished(info) => info,
            _ => JjInfo::empty(),
        }
    }
}

} // verus!
