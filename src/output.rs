//! Composition of the status line: which segments it has, in which order, and
//! how each piece of text is marked and coloured.

use colored::Colorize;
use vstd::prelude::*;

use crate::directory::{abbreviated, format_directory};
use crate::input::{style_shown, ClaudeInput, OutputStyle};
use crate::jj_status::{
    conflict_marker, conflict_word, ends_with_star, line_before_star, rendered, revision_text,
    JjInfo, JjInfoView,
};
use crate::text::{contains_seq, join_spaced, opt_view, strings_view};

verus! {

// Each marker is the UTF-8 encoding of a symbol (the dot U+2027 and the emoji
// folder, high voltage, twisted arrows, brain and performing arts), with every
// byte read as one Windows-1252 character.
/// Stands between two segments.
pub const SEPARATOR: &'static str = " \u{e2}\u{20ac}\u{a7} ";

/// Opens the directory segment.
pub const DIRECTORY_MARKER: &'static str = "\u{f0}\u{178}\u{201c}\u{201a} ";

/// Opens the repository segment when the working copy has changes.
pub const DIRTY_MARKER: &'static str = "\u{e2}\u{161}\u{a1} ";

/// Opens the repository segment when the working copy is clean.
pub const CLEAN_MARKER: &'static str = "\u{f0}\u{178}\u{201d}\u{20ac} ";

/// Opens the model segment.
pub const MODEL_MARKER: &'static str = "\u{f0}\u{178}\u{a7}\u{a0} ";

/// Opens the style segment.
pub const STYLE_MARKER: &'static str = "\u{f0}\u{178}\u{17d}\u{ad} ";

/// The segments of a status line, in the order in which they appear.
#[derive(Clone, Copy, Debug, PartialEq, Eq, Structural)]
pub enum Segment {
    Directory,
    Vcs,
    Model,
    Style,
}

/// What a coloured piece of text is; each has its own colour.
#[derive(Clone, Copy, Debug, PartialEq, Eq, Structural)]
pub enum Role {
    Separator,
    Directory,
    ChangeId,
    Bookmark,
    Model,
    Style,
}

/// The palette: the 24-bit colour of each role.
pub open spec fn role_color(role: Role) -> (u8, u8, u8) {
    match role {
        Role::Separator => (96, 96, 96),
        Role::Directory => (64, 224, 208),
        Role::ChangeId => (200, 80, 140),
        Role::Bookmark => (255, 20, 147),
        Role::Model => (255, 140, 0),
        Role::Style => (50, 205, 50),
    }
}

/// The colour of `role`.
pub fn color_of(role: Role) -> (r: (u8, u8, u8))
    ensures
        r == role_color(role),
{
    match role {
        Role::Separator => (96, 96, 96),
        Role::Directory => (64, 224, 208),
        Role::ChangeId => (200, 80, 140),
        Role::Bookmark => (255, 20, 147),
        Role::Model => (255, 140, 0),
        Role::Style => (50, 205, 50),
    }
}

/// A piece of the status line: its text, the segment it belongs to, and the
/// role it is coloured for, or none when it is shown plain.
pub struct Span {
    pub segment: Segment,
    pub text: String,
    pub role: Option<Role>,
}

/// The mathematical model of a `Span`.
pub struct SpanView {
    pub segment: Segment,
    pub text: Seq<char>,
    pub role: Option<Role>,
}

impl View for Span {
    type V = SpanView;

    open spec fn view(&self) -> SpanView {
        SpanView { segment: self.segment, text: self.text@, role: self.role }
    }
}

/// The views of a vector of spans.
pub open spec fn spans_view(v: Vec<Span>) -> Seq<SpanView> {
    v@.map_values(|s: Span| s@)
}

/// The inputs of one status line.
pub struct StatusLine {
    pub directory: String,
    pub jj_info: Option<JjInfo>,
    pub model_name: String,
    pub output_style: Option<String>,
}

/// The mathematical model of a `StatusLine`.
pub struct StatusLineView {
    pub directory: Seq<char>,
    pub jj_info: Option<JjInfoView>,
    pub model_name: Seq<char>,
    pub output_style: Option<Seq<char>>,
}

impl View for StatusLine {
    type V = StatusLineView;

    open spec fn view(&self) -> StatusLineView {
        StatusLineView {
            directory: self.directory@,
            jj_info: match self.jj_info {
                Some(info) => Some(info@),
                None => None,
            },
            model_name: self.model_name@,
            output_style: match self.output_style {
                Some(s) => Some(s@),
                None => None,
            },
        }
    }
}

/// A span shown plain.
pub open spec fn plain(segment: Segment, text: Seq<char>) -> SpanView {
    SpanView { segment, text, role: None }
}

/// A span coloured for `role`.
pub open spec fn tinted(segment: Segment, text: Seq<char>, role: Role) -> SpanView {
    SpanView { segment, text, role: Some(role) }
}

/// The separator that opens every segment after the first.
pub open spec fn separator_span(segment: Segment) -> SpanView {
    tinted(segment, SEPARATOR@, Role::Separator)
}

/// The bookmarks, each coloured, with a plain space between two of them.
pub open spec fn label_spans(labels: Seq<Seq<char>>) -> Seq<SpanView>
    decreases labels.len(),
{
    if labels.len() == 0 {
        seq![]
    } else if labels.len() == 1 {
        seq![tinted(Segment::Vcs, labels[0], Role::Bookmark)]
    } else {
        label_spans(labels.drop_last()) + seq![
            plain(Segment::Vcs, seq![' ']),
            tinted(Segment::Vcs, labels.last(), Role::Bookmark),
        ]
    }
}

/// The directory segment: its marker and the directory.
pub open spec fn directory_spans(v: StatusLineView) -> Seq<SpanView> {
    seq![
        plain(Segment::Directory, DIRECTORY_MARKER@),
        tinted(Segment::Directory, v.directory, Role::Directory),
    ]
}

/// The repository segment, present when there is a record with a change id: the
/// separator; the marker, chosen by whether the record's text ends in `*`; then
/// the parts of that text, the change id and conflict word in one colour and the
/// bookmarks in another.
pub open spec fn vcs_spans(v: StatusLineView) -> Seq<SpanView> {
    if v.jj_info is None || v.jj_info->0.change_id is None {
        seq![]
    } else {
        let info = v.jj_info->0;
        let marker = if ends_with_star(rendered(info)->0) {
            DIRTY_MARKER@
        } else {
            CLEAN_MARKER@
        };
        let head = seq![
            separator_span(Segment::Vcs),
            plain(Segment::Vcs, marker),
            tinted(Segment::Vcs, info.change_id->0, Role::ChangeId),
        ];
        let labels = if info.bookmarks.len() > 0 {
            seq![plain(Segment::Vcs, seq![' '])] + label_spans(info.bookmarks)
        } else {
            seq![]
        };
        let conflict = if info.has_conflict {
            seq![
                plain(Segment::Vcs, seq![' ']),
                tinted(Segment::Vcs, conflict_word(), Role::ChangeId),
            ]
        } else {
            seq![]
        };
        let star = if info.has_changes {
            seq![plain(Segment::Vcs, seq!['*'])]
        } else {
            seq![]
        };
        head + labels + conflict + star
    }
}

/// The model segment: the separator, its marker and the model name.
pub open spec fn model_spans(v: StatusLineView) -> Seq<SpanView> {
    seq![
        separator_span(Segment::Model),
        plain(Segment::Model, MODEL_MARKER@),
        tinted(Segment::Model, v.model_name, Role::Model),
    ]
}

/// The style segment, present when the style is worth showing: the separator,
/// its marker and the style name.
pub open spec fn style_spans(v: StatusLineView) -> Seq<SpanView> {
    if style_shown(v.output_style) {
        seq![
            separator_span(Segment::Style),
            plain(Segment::Style, STYLE_MARKER@),
            tinted(Segment::Style, v.output_style->0, Role::Style),
        ]
    } else {
        seq![]
    }
}

/// All spans of a status line, segment after segment.
pub open spec fn status_spans(v: StatusLineView) -> Seq<SpanView> {
    directory_spans(v) + vcs_spans(v) + model_spans(v) + style_spans(v)
}

/// Some span of `spans` belongs to `segment`.
pub open spec fn has_segment(spans: Seq<SpanView>, segment: Segment) -> bool {
    exists|i: int| 0 <= i < spans.len() && #[trigger] spans[i].segment == segment
}

/// Appends one span.
fn push_span(out: &mut Vec<Span>, segment: Segment, text: String, role: Option<Role>)
    ensures
        spans_view(*final(out)) == spans_view(*old(out)).push(
            SpanView { segment, text: text@, role },
        ),
{
    let ghost before = spans_view(*out);
    out.push(Span { segment, text, role });
    assert(spans_view(*out) =~= before.push(SpanView { segment, text: text@, role }));
}

/// Appends the bookmark spans.
fn push_label_spans(out: &mut Vec<Span>, labels: &Vec<String>)
    ensures
        spans_view(*final(out)) == spans_view(*old(out)) + label_spans(
            strings_view(*labels),
        ),
{
    let ghost base = spans_view(*out);
    let ghost all = strings_view(*labels);
    let mut i: usize = 0;
    assert(base + label_spans(all.take(0)) =~= base);
    while i < labels.len()
        invariant
            i <= labels@.len(),
            all == strings_view(*labels),
            spans_view(*out) == base + label_spans(all.take(i as int)),
        decreases labels@.len() - i,
    {
        let ghost before = spans_view(*out);
        assert(all.take(i + 1).drop_last() =~= all.take(i as int));
        assert(all.take(i + 1).last() == labels@[i as int]@);
        proof {
            reveal_strlit(" ");
            assert(" "@ =~= seq![' ']);
        }
        if i > 0 {
            push_span(out, Segment::Vcs, String::from_str(" "), None);
        }
        push_span(out, Segment::Vcs, labels[i].clone(), Some(Role::Bookmark));
        if i > 0 {
            assert(label_spans(all.take(i + 1)) == label_spans(all.take(i as int)) + seq![
                plain(Segment::Vcs, seq![' ']),
                tinted(Segment::Vcs, labels@[i as int]@, Role::Bookmark),
            ]);
        }
        assert(spans_view(*out) =~= base + label_spans(all.take(i + 1)));
        i = i + 1;
    }
    assert(all.take(labels@.len() as int) =~= all);
}

/// Appends the repository segment.
fn push_vcs_spans(out: &mut Vec<Span>, line: &StatusLine)
    ensures
        spans_view(*final(out)) == spans_view(*old(out)) + vcs_spans(line@),
{
    let ghost base = spans_view(*out);
    let info = match &line.jj_info {
        Some(info) => info,
        None => {
            assert(base + vcs_spans(line@) =~= base);
            return;
        },
    };
    let id = match &info.change_id {
        Some(id) => id,
        None => {
            assert(base + vcs_spans(line@) =~= base);
            return;
        },
    };
    let text = info.format().unwrap();
    let n = text.as_str().unicode_len();
    let dirty = n > 0 && text.as_str().get_char(n - 1) == '*';
    let ghost v = info@;
    assert(dirty == ends_with_star(rendered(v)->0));
    let marker = if dirty {
        String::from_str(DIRTY_MARKER)
    } else {
        String::from_str(CLEAN_MARKER)
    };
    push_span(out, Segment::Vcs, String::from_str(SEPARATOR), Some(Role::Separator));
    push_span(out, Segment::Vcs, marker, None);
    push_span(out, Segment::Vcs, id.clone(), Some(Role::ChangeId));
    proof {
        reveal_strlit(" ");
        reveal_strlit("conflict");
        reveal_strlit("*");
        assert(" "@ =~= seq![' ']);
        assert("conflict"@ =~= conflict_word());
        assert("*"@ =~= seq!['*']);
    }
    if info.bookmarks.len() > 0 {
        push_span(out, Segment::Vcs, String::from_str(" "), None);
        push_label_spans(out, &info.bookmarks);
    }
    if info.has_conflict {
        push_span(out, Segment::Vcs, String::from_str(" "), None);
        push_span(out, Segment::Vcs, String::from_str("conflict"), Some(Role::ChangeId));
    }
    if info.has_changes {
        push_span(out, Segment::Vcs, String::from_str("*"), None);
    }
    let ghost all = vcs_spans(line@);
    assert(spans_view(*out) =~= base + all);
}

impl StatusLine {
    /// The spans of the line, as `status_spans` states them. The style segment
    /// is present exactly when the style is worth showing, and the repository
    /// segment exactly when there is a record with a change id.
    pub fn spans(&self) -> (r: Vec<Span>)
        ensures
            spans_view(r) == status_spans(self@),
            has_segment(spans_view(r), Segment::Style) <==> style_shown(self@.output_style),
            has_segment(spans_view(r), Segment::Vcs) <==> (self@.jj_info is Some
                && self@.jj_info->0.change_id is Some),
    {
        let mut out: Vec<Span> = Vec::new();
        push_span(&mut out, Segment::Directory, String::from_str(DIRECTORY_MARKER), None);
        push_span(&mut out, Segment::Directory, self.directory.clone(), Some(Role::Directory));
        assert(spans_view(out) =~= directory_spans(self@));
        push_vcs_spans(&mut out, self);
        push_span(&mut out, Segment::Model, String::from_str(SEPARATOR), Some(Role::Separator));
        push_span(&mut out, Segment::Model, String::from_str(MODEL_MARKER), None);
        push_span(&mut out, Segment::Model, self.model_name.clone(), Some(Role::Model));
        assert(spans_view(out) =~= directory_spans(self@) + vcs_spans(self@) + model_spans(self@));
        if let Some(style) = &self.output_style {
            let shown = OutputStyle { name: style.clone() }.shown();
            if shown.is_some() {
                push_span(&mut out, Segment::Style, String::from_str(SEPARATOR), Some(Role::Separator));
                push_span(&mut out, Segment::Style, String::from_str(STYLE_MARKER), None);
                push_span(&mut out, Segment::Style, style.clone(), Some(Role::Style));
            }
        }
        assert(spans_view(out) =~= status_spans(self@));
        proof {
            lemma_segments_present(self@);
        }
        out
    }
}

proof fn lemma_label_spans_segment(labels: Seq<Seq<char>>)
    ensures
        forall|i: int|
            0 <= i < label_spans(labels).len() ==> #[trigger] label_spans(labels)[i].segment
                == Segment::Vcs,
    decreases labels.len(),
{
    if labels.len() > 1 {
        lemma_label_spans_segment(labels.drop_last());
    }
}

/// Segments in a line: the repository segment is there exactly when there is a
/// record with a change id, and the style segment exactly when the style is
/// worth showing.
pub proof fn lemma_segments_present(v: StatusLineView)
    ensures
        has_segment(status_spans(v), Segment::Style) <==> style_shown(v.output_style),
        has_segment(status_spans(v), Segment::Vcs) <==> (v.jj_info is Some
            && v.jj_info->0.change_id is Some),
{
    let d = directory_spans(v);
    let c = vcs_spans(v);
    let m = model_spans(v);
    let st = style_spans(v);
    let all = status_spans(v);
    if v.jj_info is Some && v.jj_info->0.change_id is Some {
        lemma_label_spans_segment(v.jj_info->0.bookmarks);
        assert(all[d.len() as int].segment == Segment::Vcs);
    }
    assert forall|i: int| 0 <= i < all.len() implies (#[trigger] all[i].segment == Segment::Vcs
        <==> d.len() <= i < d.len() + c.len()) by {
        if v.jj_info is Some && v.jj_info->0.change_id is Some {
            lemma_label_spans_segment(v.jj_info->0.bookmarks);
        }
        if i < d.len() {
            assert(all[i] == d[i]);
        } else if i < d.len() + c.len() {
            assert(all[i] == c[i - d.len()]);
        } else if i < d.len() + c.len() + m.len() {
            assert(all[i] == m[i - d.len() - c.len()]);
        } else {
            assert(all[i] == st[i - d.len() - c.len() - m.len()]);
        }
    }
    assert forall|i: int| 0 <= i < all.len() implies (#[trigger] all[i].segment == Segment::Style
        <==> d.len() + c.len() + m.len() <= i) by {
        if v.jj_info is Some && v.jj_info->0.change_id is Some {
            lemma_label_spans_segment(v.jj_info->0.bookmarks);
        }
        if i < d.len() {
            assert(all[i] == d[i]);
        } else if i < d.len() + c.len() {
            assert(all[i] == c[i - d.len()]);
        } else if i < d.len() + c.len() + m.len() {
            assert(all[i] == m[i - d.len() - c.len()]);
        } else {
            assert(all[i] == st[i - d.len() - c.len() - m.len()]);
        }
    }
    if style_shown(v.output_style) {
        assert(all[d.len() + c.len() + m.len() as int].segment == Segment::Style);
    }
}

/// The texts of `spans`, one after the other.
pub open spec fn span_texts(spans: Seq<SpanView>) -> Seq<char>
    decreases spans.len(),
{
    if spans.len() == 0 {
        seq![]
    } else {
        span_texts(spans.drop_last()) + spans.last().text
    }
}

proof fn lemma_span_texts_append(a: Seq<SpanView>, b: Seq<SpanView>)
    ensures
        span_texts(a + b) == span_texts(a) + span_texts(b),
    decreases b.len(),
{
    if b.len() == 0 {
        assert(a + b =~= a);
        assert(span_texts(a) + span_texts(b) =~= span_texts(a));
    } else {
        assert((a + b).drop_last() =~= a + b.drop_last());
        lemma_span_texts_append(a, b.drop_last());
        assert(span_texts(a) + span_texts(b.drop_last()) + b.last().text =~= span_texts(a) + (
        span_texts(b.drop_last()) + b.last().text));
    }
}

proof fn lemma_span_texts_one(x: SpanView)
    ensures
        span_texts(seq![x]) == x.text,
{
    let one = seq![x];
    assert(one.drop_last() =~= Seq::<SpanView>::empty());
    assert(span_texts(Seq::<SpanView>::empty()) == Seq::<char>::empty());
    assert(Seq::<char>::empty() + x.text =~= x.text);
}

proof fn lemma_span_texts_two(x: SpanView, y: SpanView)
    ensures
        span_texts(seq![x, y]) == x.text + y.text,
{
    assert(seq![x, y] =~= seq![x] + seq![y]);
    lemma_span_texts_append(seq![x], seq![y]);
    lemma_span_texts_one(x);
    lemma_span_texts_one(y);
}

proof fn lemma_label_texts(labels: Seq<Seq<char>>)
    ensures
        span_texts(label_spans(labels)) == join_spaced(labels),
    decreases labels.len(),
{
    if labels.len() == 1 {
        lemma_span_texts_one(tinted(Segment::Vcs, labels[0], Role::Bookmark));
    } else if labels.len() > 1 {
        lemma_label_texts(labels.drop_last());
        let tail = seq![
            plain(Segment::Vcs, seq![' ']),
            tinted(Segment::Vcs, labels.last(), Role::Bookmark),
        ];
        lemma_span_texts_append(label_spans(labels.drop_last()), tail);
        lemma_span_texts_two(tail[0], tail[1]);
        assert(tail =~= seq![tail[0], tail[1]]);
        assert(join_spaced(labels.drop_last()) + (seq![' '] + labels.last()) =~= join_spaced(
            labels.drop_last(),
        ) + seq![' '] + labels.last());
    }
}

/// The repository segment shows the record as it renders: after the separator
/// and the marker (the one for changes exactly when the rendered text ends in
/// `*`), its texts spell the rendered text.
pub proof fn lemma_vcs_segment_spells_rendered(v: StatusLineView)
    requires
        v.jj_info is Some,
        v.jj_info->0.change_id is Some,
    ensures
        vcs_spans(v).len() >= 2,
        vcs_spans(v)[0] == separator_span(Segment::Vcs),
        vcs_spans(v)[1].text == if ends_with_star(rendered(v.jj_info->0)->0) {
            DIRTY_MARKER@
        } else {
            CLEAN_MARKER@
        },
        span_texts(vcs_spans(v).subrange(2, vcs_spans(v).len() as int)) == rendered(
            v.jj_info->0,
        )->0,
{
    let info = v.jj_info->0;
    let all = vcs_spans(v);
    let id = seq![tinted(Segment::Vcs, info.change_id->0, Role::ChangeId)];
    let labels = if info.bookmarks.len() > 0 {
        seq![plain(Segment::Vcs, seq![' '])] + label_spans(info.bookmarks)
    } else {
        seq![]
    };
    let conflict = if info.has_conflict {
        seq![plain(Segment::Vcs, seq![' ']), tinted(Segment::Vcs, conflict_word(), Role::ChangeId)]
    } else {
        seq![]
    };
    let star = if info.has_changes {
        seq![plain(Segment::Vcs, seq!['*'])]
    } else {
        seq![]
    };
    assert(all.subrange(2, all.len() as int) =~= id + labels + conflict + star);
    lemma_span_texts_one(id[0]);
    assert(id =~= seq![id[0]]);
    if info.bookmarks.len() > 0 {
        let sp = seq![plain(Segment::Vcs, seq![' '])];
        lemma_span_texts_append(sp, label_spans(info.bookmarks));
        lemma_label_texts(info.bookmarks);
        lemma_span_texts_one(sp[0]);
        assert(sp =~= seq![sp[0]]);
    } else {
        assert(span_texts(labels) =~= seq![]);
    }
    if info.has_conflict {
        lemma_span_texts_two(conflict[0], conflict[1]);
        assert(conflict =~= seq![conflict[0], conflict[1]]);
        assert(span_texts(conflict) =~= conflict_marker());
    } else {
        assert(span_texts(conflict) =~= seq![]);
    }
    if info.has_changes {
        lemma_span_texts_one(star[0]);
        assert(star =~= seq![star[0]]);
    } else {
        assert(span_texts(star) =~= seq![]);
    }
    lemma_span_texts_append(id, labels);
    lemma_span_texts_append(id + labels, conflict);
    lemma_span_texts_append(id + labels + conflict, star);
    assert(span_texts(id + labels) =~= revision_text(info));
    let line = span_texts(id + labels + conflict);
    assert(line =~= line_before_star(info));
    assert(line + span_texts(star) =~= rendered(info)->0);
}

/// The escape sequence that ends a colouring.
pub open spec fn reset_code() -> Seq<char> {
    seq!['\u{1b}', '[', '0', 'm']
}

/// `parts` one after the other.
pub open spec fn concat(parts: Seq<Seq<char>>) -> Seq<char>
    decreases parts.len(),
{
    if parts.len() == 0 {
        seq![]
    } else {
        concat(parts.drop_last()) + parts.last()
    }
}

/// The escape character that starts a control sequence.
pub open spec fn escape() -> char {
    '\u{1b}'
}

/// A character of a colour code: an ASCII digit or `;`.
pub open spec fn is_code_char(c: char) -> bool {
    let n = c as u32;
    (0x30 <= n <= 0x39) || n == 0x3b
}

/// A colour code: one or more digits and `;`.
pub open spec fn is_color_code(code: Seq<char>) -> bool {
    code.len() > 0 && forall|i: int| 0 <= i < code.len() ==> is_code_char(#[trigger] code[i])
}

/// `text` after the sequence `ESC [ code m` that sets a colour and before the
/// reset sequence.
pub open spec fn wrapped(code: Seq<char>, text: Seq<char>) -> Seq<char> {
    seq![escape(), '['] + code + seq!['m'] + text + reset_code()
}

/// The ways in which a coloured `text` may come out: as it is, or wrapped in a
/// colour code and the reset sequence.
pub open spec fn painted_as(out: Seq<char>, text: Seq<char>) -> bool {
    out == text || exists|code: Seq<char>| is_color_code(code) && out == #[trigger] wrapped(code, text)
}

/// How a span may show: a plain one as its text; a coloured one as its text,
/// maybe wrapped in a colour code, unless the text itself carries a reset
/// sequence.
pub open spec fn shows(piece: Seq<char>, span: SpanView) -> bool {
    if span.role is None {
        piece == span.text
    } else {
        !contains_seq(span.text, reset_code()) ==> painted_as(piece, span.text)
    }
}

/// The number of colour-code characters in `s` from index `i` on.
pub open spec fn code_run(s: Seq<char>, i: int) -> int
    decreases s.len() - i,
{
    if 0 <= i < s.len() && is_code_char(s[i]) {
        1 + code_run(s, i + 1)
    } else {
        0
    }
}

/// The length of the sequence `ESC [ code m` at the start of `s`; 0 when `s`
/// does not start with one.
pub open spec fn lead_code_len(s: Seq<char>) -> int {
    if s.len() >= 2 && s[0] == escape() && s[1] == '[' && 2 + code_run(s, 2) < s.len() && s[2
        + code_run(s, 2)] == 'm' {
        3 + code_run(s, 2)
    } else {
        0
    }
}

/// `s` with every sequence `ESC [ code m` taken out, where the code is made of
/// digits and `;`.
pub open spec fn uncoloured(s: Seq<char>) -> Seq<char>
    decreases s.len(),
{
    if s.len() == 0 {
        s
    } else if lead_code_len(s) > 0 {
        uncoloured(s.subrange(lead_code_len(s), s.len() as int))
    } else {
        seq![s[0]] + uncoloured(s.drop_first())
    }
}

/// No character of `t` is the escape character.
pub open spec fn escape_free(t: Seq<char>) -> bool {
    !t.contains(escape())
}

proof fn lemma_uncoloured_plain(t: Seq<char>, rest: Seq<char>)
    requires
        escape_free(t),
    ensures
        uncoloured(t + rest) == t + uncoloured(rest),
    decreases t.len(),
{
    if t.len() == 0 {
        assert(t + rest =~= rest);
        assert(t + uncoloured(rest) =~= uncoloured(rest));
    } else {
        let s = t + rest;
        assert(s[0] == t[0]);
        assert(t[0] != escape()) by {
            if t[0] == escape() {
                assert(t.contains(escape()));
            }
        }
        assert(s.drop_first() =~= t.drop_first() + rest);
        assert(escape_free(t.drop_first())) by {
            if t.drop_first().contains(escape()) {
                let k = choose|k: int| 0 <= k < t.drop_first().len() && t.drop_first()[k] == escape();
                assert(t[k + 1] == escape());
            }
        }
        lemma_uncoloured_plain(t.drop_first(), rest);
        assert(seq![t[0]] + (t.drop_first() + uncoloured(rest)) =~= t + uncoloured(rest));
    }
}

proof fn lemma_code_run(code: Seq<char>, x: Seq<char>, j: int)
    requires
        forall|i: int| 0 <= i < code.len() ==> is_code_char(#[trigger] code[i]),
        0 <= j <= code.len(),
    ensures
        code_run(seq![escape(), '['] + code + seq!['m'] + x, 2 + j) == code.len() - j,
    decreases code.len() - j,
{
    let s = seq![escape(), '['] + code + seq!['m'] + x;
    if j < code.len() {
        assert(s[2 + j] == code[j]);
        lemma_code_run(code, x, j + 1);
    } else {
        assert(s[2 + j] == 'm');
    }
}

proof fn lemma_lead_code(code: Seq<char>, x: Seq<char>)
    requires
        forall|i: int| 0 <= i < code.len() ==> is_code_char(#[trigger] code[i]),
    ensures
        lead_code_len(seq![escape(), '['] + code + seq!['m'] + x) == code.len() + 3,
        uncoloured(seq![escape(), '['] + code + seq!['m'] + x) == uncoloured(x),
{
    let s = seq![escape(), '['] + code + seq!['m'] + x;
    lemma_code_run(code, x, 0);
    assert(s[2 + code.len() as int] == 'm');
    assert(s.subrange(code.len() as int + 3, s.len() as int) =~= x);
}

proof fn lemma_uncoloured_wrapped(code: Seq<char>, t: Seq<char>, rest: Seq<char>)
    requires
        is_color_code(code),
        escape_free(t),
    ensures
        uncoloured(wrapped(code, t) + rest) == t + uncoloured(rest),
{
    let x = t + reset_code() + rest;
    assert(wrapped(code, t) + rest =~= seq![escape(), '['] + code + seq!['m'] + x);
    lemma_lead_code(code, x);
    lemma_uncoloured_plain(t, reset_code() + rest);
    assert(x =~= t + (reset_code() + rest));
    let zero = seq!['0'];
    assert(is_code_char(zero[0]));
    lemma_lead_code(zero, rest);
    assert(reset_code() + rest =~= seq![escape(), '['] + zero + seq!['m'] + rest);
}

proof fn lemma_no_reset_in_plain(t: Seq<char>)
    requires
        escape_free(t),
    ensures
        !contains_seq(t, reset_code()),
{
    if contains_seq(t, reset_code()) {
        let i = choose|i: int|
            0 <= i && i + reset_code().len() <= t.len() && #[trigger] t.subrange(
                i,
                i + reset_code().len(),
            ) == reset_code();
        assert(t.subrange(i, i + 4)[0] == escape());
        assert(t[i] == escape());
        assert(t.contains(escape()));
    }
}

/// None of the texts that a line is made from holds an escape character.
pub open spec fn inputs_escape_free(v: StatusLineView) -> bool {
    &&& escape_free(v.directory)
    &&& escape_free(v.model_name)
    &&& v.output_style is Some ==> escape_free(v.output_style->0)
    &&& v.jj_info is Some && v.jj_info->0.change_id is Some ==> {
        &&& escape_free(v.jj_info->0.change_id->0)
        &&& forall|i: int|
            0 <= i < v.jj_info->0.bookmarks.len() ==> escape_free(
                #[trigger] v.jj_info->0.bookmarks[i],
            )
    }
}

proof fn lemma_constant_texts_escape_free()
    ensures
        escape_free(SEPARATOR@),
        escape_free(DIRECTORY_MARKER@),
        escape_free(DIRTY_MARKER@),
        escape_free(CLEAN_MARKER@),
        escape_free(MODEL_MARKER@),
        escape_free(STYLE_MARKER@),
        escape_free(seq![' ']),
        escape_free(seq!['*']),
        escape_free(conflict_word()),
{
    reveal_strlit(" \u{e2}\u{20ac}\u{a7} ");
    reveal_strlit("\u{f0}\u{178}\u{201c}\u{201a} ");
    reveal_strlit("\u{e2}\u{161}\u{a1} ");
    reveal_strlit("\u{f0}\u{178}\u{201d}\u{20ac} ");
    reveal_strlit("\u{f0}\u{178}\u{a7}\u{a0} ");
    reveal_strlit("\u{f0}\u{178}\u{17d}\u{ad} ");
    assert(!seq![' '].contains(escape())) by {
        if seq![' '].contains(escape()) {
            let k = choose|k: int| 0 <= k < 1 && seq![' '][k] == escape();
        }
    }
    assert(!seq!['*'].contains(escape())) by {
        if seq!['*'].contains(escape()) {
            let k = choose|k: int| 0 <= k < 1 && seq!['*'][k] == escape();
        }
    }
    assert(!conflict_word().contains(escape())) by {
        if conflict_word().contains(escape()) {
            let k = choose|k: int| 0 <= k < 8 && conflict_word()[k] == escape();
        }
    }
    assert(!SEPARATOR@.contains(escape())) by {
        if SEPARATOR@.contains(escape()) {
            let k = choose|k: int| 0 <= k < SEPARATOR@.len() && SEPARATOR@[k] == escape();
        }
    }
    assert(!DIRECTORY_MARKER@.contains(escape())) by {
        if DIRECTORY_MARKER@.contains(escape()) {
            let k = choose|k: int| 0 <= k < DIRECTORY_MARKER@.len() && DIRECTORY_MARKER@[k] == escape();
        }
    }
    assert(!DIRTY_MARKER@.contains(escape())) by {
        if DIRTY_MARKER@.contains(escape()) {
            let k = choose|k: int| 0 <= k < DIRTY_MARKER@.len() && DIRTY_MARKER@[k] == escape();
        }
    }
    assert(!CLEAN_MARKER@.contains(escape())) by {
        if CLEAN_MARKER@.contains(escape()) {
            let k = choose|k: int| 0 <= k < CLEAN_MARKER@.len() && CLEAN_MARKER@[k] == escape();
        }
    }
    assert(!MODEL_MARKER@.contains(escape())) by {
        if MODEL_MARKER@.contains(escape()) {
            let k = choose|k: int| 0 <= k < MODEL_MARKER@.len() && MODEL_MARKER@[k] == escape();
        }
    }
    assert(!STYLE_MARKER@.contains(escape())) by {
        if STYLE_MARKER@.contains(escape()) {
            let k = choose|k: int| 0 <= k < STYLE_MARKER@.len() && STYLE_MARKER@[k] == escape();
        }
    }
}

proof fn lemma_label_spans_escape_free(labels: Seq<Seq<char>>)
    requires
        forall|i: int| 0 <= i < labels.len() ==> escape_free(#[trigger] labels[i]),
    ensures
        forall|i: int|
            0 <= i < label_spans(labels).len() ==> escape_free(#[trigger] label_spans(labels)[i].text),
    decreases labels.len(),
{
    lemma_constant_texts_escape_free();
    if labels.len() > 1 {
        let init = labels.drop_last();
        assert forall|i: int| 0 <= i < init.len() implies escape_free(#[trigger] init[i]) by {
            assert(init[i] == labels[i]);
        }
        lemma_label_spans_escape_free(init);
    }
    if labels.len() > 0 {
        assert(escape_free(labels[labels.len() - 1]));
    }
}

proof fn lemma_spans_escape_free(v: StatusLineView)
    requires
        inputs_escape_free(v),
    ensures
        forall|i: int|
            0 <= i < status_spans(v).len() ==> escape_free(#[trigger] status_spans(v)[i].text),
{
    lemma_constant_texts_escape_free();
    let d = directory_spans(v);
    let c = vcs_spans(v);
    let m = model_spans(v);
    let st = style_spans(v);
    let all = status_spans(v);
    if v.jj_info is Some && v.jj_info->0.change_id is Some {
        lemma_label_spans_escape_free(v.jj_info->0.bookmarks);
    }
    assert forall|i: int| 0 <= i < all.len() implies escape_free(#[trigger] all[i].text) by {
        if i < d.len() {
            assert(all[i] == d[i]);
        } else if i < d.len() + c.len() {
            assert(all[i] == c[i - d.len()]);
        } else if i < d.len() + c.len() + m.len() {
            assert(all[i] == m[i - d.len() - c.len()]);
        } else {
            assert(all[i] == st[i - d.len() - c.len() - m.len()]);
        }
    }
}

/// Pieces that show escape-free spans lose their colour codes to `uncoloured`,
/// leaving the spans' texts.
proof fn lemma_uncoloured_pieces(pieces: Seq<Seq<char>>, spans: Seq<SpanView>, rest: Seq<char>)
    requires
        pieces.len() == spans.len(),
        forall|i: int| 0 <= i < pieces.len() ==> shows(#[trigger] pieces[i], spans[i]),
        forall|i: int| 0 <= i < spans.len() ==> escape_free(#[trigger] spans[i].text),
    ensures
        uncoloured(concat(pieces) + rest) == span_texts(spans) + uncoloured(rest),
    decreases pieces.len(),
{
    if pieces.len() == 0 {
        assert(concat(pieces) + rest =~= rest);
        assert(span_texts(spans) + uncoloured(rest) =~= uncoloured(rest));
    } else {
        let n = pieces.len() - 1;
        let last = pieces[n];
        let span = spans[n];
        assert(shows(last, span));
        assert(escape_free(span.text));
        lemma_no_reset_in_plain(span.text);
        if last == span.text {
            lemma_uncoloured_plain(span.text, rest);
        } else {
            let code = choose|code: Seq<char>| is_color_code(code) && last == #[trigger] wrapped(code, span.text);
            lemma_uncoloured_wrapped(code, span.text, rest);
        }
        assert(concat(pieces) + rest =~= concat(pieces.drop_last()) + (last + rest));
        lemma_uncoloured_pieces(pieces.drop_last(), spans.drop_last(), last + rest);
        assert(span_texts(spans.drop_last()) + (span.text + uncoloured(rest)) =~= span_texts(spans)
            + uncoloured(rest));
    }
}

/// Relies on `colored::control::set_override(true)`: from then on colored styles
/// its strings whatever the terminal and the environment say.
#[verifier::external_body]
fn force_colors() {
    colored::control::set_override(true);
}

/// Relies on colored's `Colorize::truecolor` and the `Display` of the
/// `ColoredString` it returns: that shows the text as it is, or after the
/// sequence `ESC [ code m` that sets the colour (the code is the 24-bit
/// `38;2;r;g;b`, or the nearest basic colour's number when the terminal does not
/// announce 24-bit colour) and before the reset sequence `ESC[0m`; it touches
/// the text only where the text holds a reset sequence itself. Which of the
/// forms comes out depends on global and environment state.
#[verifier::external_body]
fn paint(text: &str, r: u8, g: u8, b: u8) -> (out: String)
    ensures
        !contains_seq(text@, reset_code()) ==> painted_as(out@, text@),
{
    text.truecolor(r, g, b).to_string()
}

impl StatusLine {
    /// The status line: its spans one after the other, each coloured piece maybe
    /// wrapped in the colour code of its role. With the colour codes taken out,
    /// the line is the spans' texts, provided that none of the texts it is made
    /// from holds an escape character.
    pub fn format(&self) -> (r: String)
        ensures
            exists|pieces: Seq<Seq<char>>|
                {
                    &&& pieces.len() == status_spans(self@).len()
                    &&& r@ == #[trigger] concat(pieces)
                    &&& forall|i: int|
                        0 <= i < pieces.len() ==> shows(#[trigger] pieces[i], status_spans(self@)[i])
                },
            inputs_escape_free(self@) ==> uncoloured(r@) == span_texts(status_spans(self@)),
    {
        force_colors();
        let spans = self.spans();
        let mut r = String::new();
        let ghost mut pieces: Seq<Seq<char>> = seq![];
        let mut i: usize = 0;
        while i < spans.len()
            invariant
                i <= spans@.len(),
                spans_view(spans) == status_spans(self@),
                pieces.len() == i,
                r@ == concat(pieces),
                forall|j: int| 0 <= j < i ==> shows(#[trigger] pieces[j], spans_view(spans)[j]),
            decreases spans@.len() - i,
        {
            let span = &spans[i];
            let piece = match span.role {
                None => span.text.clone(),
                Some(role) => {
                    let (red, green, blue) = color_of(role);
                    paint(span.text.as_str(), red, green, blue)
                },
            };
            assert(spans_view(spans)[i as int] == span@);
            let ghost before = pieces;
            proof {
                pieces = pieces.push(piece@);
                assert(pieces.drop_last() =~= before);
            }
            r.append(piece.as_str());
            i = i + 1;
        }
        proof {
            let all = status_spans(self@);
            if inputs_escape_free(self@) {
                lemma_spans_escape_free(self@);
                lemma_uncoloured_pieces(pieces, all, seq![]);
                assert(concat(pieces) + seq![] =~= concat(pieces));
                assert(span_texts(all) + uncoloured(seq![]) =~= span_texts(all));
            }
        }
        r
    }

    /// The status line of one invocation: the working directory abbreviated
    /// against `home`, the record of the repository when it has a change id, the
    /// model's display name, and the style when it is worth showing.
    pub fn from_input(input: &ClaudeInput, home: Option<&str>, jj: JjInfo) -> (r: StatusLine)
        ensures
            r@.directory == abbreviated(input.workspace.current_dir@, opt_view(home)),
            r@.jj_info == if jj@.change_id is Some {
                Some(jj@)
            } else {
                None
            },
            r@.model_name == input.model.display_name@,
            r@.output_style == if style_shown(Some(input.output_style.name@)) {
                Some(input.output_style.name@)
            } else {
                None
            },
    {
        let directory = format_directory(input.workspace.current_dir.as_str(), home);
        let jj_info = if jj.change_id.is_some() {
            Some(jj)
        } else {
            None
        };
        let output_style = input.output_style.shown();
        let model_name = input.model.display_name.clone();
        StatusLine { directory, jj_info, model_name, output_style }
    }
}

} // verus!
