//! Line diffs of Markdown, marked so that the rendered HTML shows added and removed
//! runs of lines.
use vstd::prelude::*;
use crate::error::AppError;
use crate::text::{
    chars_of, contains, contains_exec, pats_view, replace_tokens, replace_tokens_exec,
};

verus! {

/// What a diff says of a line.
#[derive(Clone, Copy, PartialEq, Eq, Structural)]
pub enum ChangeKind {
    Equal,
    Delete,
    Insert,
}

/// The number standing for a change kind: 0 unchanged, 1 deleted, 2 inserted.
pub open spec fn change_code(k: ChangeKind) -> u8 {
    match k {
        ChangeKind::Equal => 0,
        ChangeKind::Delete => 1,
        ChangeKind::Insert => 2,
    }
}

/// The line diff that `similar::TextDiff::from_lines` computes between `old` and `new`:
/// each line with the number of its change kind (see `change_code`).
pub uninterp spec fn line_diff(old: Seq<char>, new: Seq<char>) -> Seq<(u8, Seq<char>)>;

/// The changes as numbered kinds and character sequences.
pub open spec fn changes_view(c: Seq<(ChangeKind, String)>) -> Seq<(u8, Seq<char>)> {
    Seq::new(c.len(), |k: int| (change_code(c[k].0), c[k].1@))
}

/// The lines of the changes, in order, leaving out those of kind `skip`: with `skip` the
/// inserted kind (2) one side of the diff, with the deleted kind (1) the other.
pub open spec fn side_text(c: Seq<(u8, Seq<char>)>, skip: u8) -> Seq<char>
    decreases c.len(),
{
    if c.len() == 0 {
        seq![]
    } else {
        (if c[0].0 == skip {
            seq![]
        } else {
            c[0].1
        }) + side_text(c.drop_first(), skip)
    }
}

/// `similar::TextDiff::from_lines(old, new).iter_all_changes()`: every line of the two
/// texts (with its line ending) with its change kind, in the order the diff reports them.
/// similar splits each text into lines that keep their endings and its operations cover
/// every line of both texts, so the unchanged and deleted lines, in order, make up `old`,
/// and the unchanged and inserted lines make up `new`.
#[verifier::external_body]
fn diff_lines(old: &str, new: &str) -> (r: Vec<(ChangeKind, String)>)
    ensures
        changes_view(r@) == line_diff(old@, new@),
        side_text(changes_view(r@), 2) == old@,
        side_text(changes_view(r@), 1) == new@,
{
    let mut out = Vec::new();
    for change in similar::TextDiff::from_lines(old, new).iter_all_changes() {
        let kind = match change.tag() {
            similar::ChangeTag::Equal => ChangeKind::Equal,
            similar::ChangeTag::Delete => ChangeKind::Delete,
            similar::ChangeTag::Insert => ChangeKind::Insert,
        };
        out.push((kind, change.value().to_string()));
    }
    out
}

/// The character is a lowercase hexadecimal digit.
pub open spec fn is_lower_hex(c: char) -> bool {
    ('0' <= c <= '9') || ('a' <= c <= 'f')
}

/// `uuid::Uuid::new_v4().simple().to_string()`: a random identifier, written as 32
/// lowercase hexadecimal digits. Nothing is claimed of which identifier comes out.
#[verifier::external_body]
fn random_uuid_simple() -> (id: String)
    ensures
        id@.len() == 32,
        forall|k: int| 0 <= k < id@.len() ==> is_lower_hex(#[trigger] id@[k]),
{
    uuid::Uuid::new_v4().simple().to_string()
}

/// The four marker lines that bracket added and deleted runs.
pub struct DiffMarkers {
    pub add_start: String,
    pub add_end: String,
    pub del_start: String,
    pub del_end: String,
}

/// Markers built around the identifier `id`.
pub open spec fn markers_for(m: DiffMarkers, id: Seq<char>) -> bool {
    &&& m.add_start@ == "@@MDPDF_DIFF_"@ + id + "_ADD_START@@"@
    &&& m.add_end@ == "@@MDPDF_DIFF_"@ + id + "_ADD_END@@"@
    &&& m.del_start@ == "@@MDPDF_DIFF_"@ + id + "_DEL_START@@"@
    &&& m.del_end@ == "@@MDPDF_DIFF_"@ + id + "_DEL_END@@"@
}

impl DiffMarkers {
    /// Markers around a fresh random identifier of 32 lowercase hexadecimal digits.
    pub fn new() -> (m: Self)
        ensures
            exists|id: Seq<char>|
                id.len() == 32 && (forall|k: int| 0 <= k < id.len() ==> is_lower_hex(#[trigger] id[k]))
                    && markers_for(m, id),
    {
        let id = random_uuid_simple();
        let mut add_start = String::new();
        add_start.push_str("@@MDPDF_DIFF_");
        add_start.push_str(id.as_str());
        add_start.push_str("_ADD_START@@");
        let mut add_end = String::new();
        add_end.push_str("@@MDPDF_DIFF_");
        add_end.push_str(id.as_str());
        add_end.push_str("_ADD_END@@");
        let mut del_start = String::new();
        del_start.push_str("@@MDPDF_DIFF_");
        del_start.push_str(id.as_str());
        del_start.push_str("_DEL_START@@");
        let mut del_end = String::new();
        del_end.push_str("@@MDPDF_DIFF_");
        del_end.push_str(id.as_str());
        del_end.push_str("_DEL_END@@");
        let m = DiffMarkers { add_start, add_end, del_start, del_end };
        assert(markers_for(m, id@));
        m
    }

    /// Whether `value` holds any of the four markers.
    pub fn contains_any(&self, value: &str) -> (b: bool)
        ensures
            b == any_marker_in(*self, value@),
    {
        let v = chars_of(value);
        contains_exec(&v, &chars_of(self.add_start.as_str())) || contains_exec(
            &v,
            &chars_of(self.add_end.as_str()),
        ) || contains_exec(&v, &chars_of(self.del_start.as_str())) || contains_exec(
            &v,
            &chars_of(self.del_end.as_str()),
        )
    }
}

/// Some marker occurs in `s`.
pub open spec fn any_marker_in(m: DiffMarkers, s: Seq<char>) -> bool {
    contains(s, m.add_start@) || contains(s, m.add_end@) || contains(s, m.del_start@) || contains(
        s,
        m.del_end@,
    )
}

/// A marker on a paragraph of its own.
pub open spec fn marker_block(marker: Seq<char>) -> Seq<char> {
    "\n\n"@ + marker + "\n\n"@
}

/// What opens a run of lines of the given kind.
pub open spec fn open_run(m: DiffMarkers, tag: u8) -> Seq<char> {
    if tag == 1 {
        marker_block(m.del_start@)
    } else if tag == 2 {
        marker_block(m.add_start@)
    } else {
        seq![]
    }
}

/// What closes the run of lines of the given kind (nothing before the first run).
pub open spec fn close_run(m: DiffMarkers, tag: Option<u8>) -> Seq<char> {
    match tag {
        Some(1) => marker_block(m.del_end@),
        Some(2) => marker_block(m.add_end@),
        _ => seq![],
    }
}

/// The lines of the diff in order, each run of deleted or inserted lines bracketed by
/// its markers; `active` is the kind of the run in progress.
pub open spec fn mark_runs(changes: Seq<(u8, Seq<char>)>, m: DiffMarkers, active: Option<u8>) -> Seq<
    char,
>
    decreases changes.len(),
{
    if changes.len() == 0 {
        close_run(m, active)
    } else {
        let (tag, value) = changes[0];
        let switch = if active != Some(tag) {
            close_run(m, active) + open_run(m, tag)
        } else {
            seq![]
        };
        switch + value + mark_runs(changes.drop_first(), m, Some(tag))
    }
}

/// Marking runs reads the markers only through their text.
pub proof fn lemma_mark_runs_by_marker_text(
    changes: Seq<(u8, Seq<char>)>,
    m1: DiffMarkers,
    m2: DiffMarkers,
    active: Option<u8>,
)
    requires
        m1.add_start@ == m2.add_start@,
        m1.add_end@ == m2.add_end@,
        m1.del_start@ == m2.del_start@,
        m1.del_end@ == m2.del_end@,
    ensures
        mark_runs(changes, m1, active) == mark_runs(changes, m2, active),
    decreases changes.len(),
{
    if changes.len() > 0 {
        lemma_mark_runs_by_marker_text(changes.drop_first(), m1, m2, Some(changes[0].0));
    }
}

/// A diff that keeps every line is marked as the new text itself, with no marker.
pub proof fn lemma_unchanged_diff_is_plain(changes: Seq<(u8, Seq<char>)>, m: DiffMarkers, active: Option<u8>)
    requires
        forall|k: int| 0 <= k < changes.len() ==> (#[trigger] changes[k]).0 == 0,
        active is None || active == Some(0u8),
    ensures
        mark_runs(changes, m, active) == side_text(changes, 1),
    decreases changes.len(),
{
    if changes.len() > 0 {
        let rest = changes.drop_first();
        assert forall|k: int| 0 <= k < rest.len() implies (#[trigger] rest[k]).0 == 0 by {
            assert(rest[k] == changes[k + 1]);
        }
        assert(changes[0].0 == 0);
        lemma_unchanged_diff_is_plain(rest, m, Some(0u8));
        assert(close_run(m, active) + open_run(m, 0) =~= Seq::<char>::empty());
    }
}

/// The change kinds are the unchanged, deleted and inserted ones.
pub open spec fn kinds_valid(c: Seq<(u8, Seq<char>)>) -> bool {
    forall|k: int| 0 <= k < c.len() ==> (#[trigger] c[k]).0 <= 2
}

/// What stands between a line of kind `t` and a following line of kind `u`: nothing when
/// the kinds agree; otherwise the end marker of a deleted (1) or inserted (2) run `t`,
/// then the start marker of a deleted or inserted run `u`.
pub open spec fn run_boundary(m: DiffMarkers, t: u8, u: u8) -> Seq<char> {
    if t == u {
        seq![]
    } else {
        (if t == 1 {
            marker_block(m.del_end@)
        } else if t == 2 {
            marker_block(m.add_end@)
        } else {
            seq![]
        }) + (if u == 1 {
            marker_block(m.del_start@)
        } else if u == 2 {
            marker_block(m.add_start@)
        } else {
            seq![]
        })
    }
}

/// Line `k` of the changes, what separates it from line `k + 1`, and line `k + 1`.
pub open spec fn adjacent_lines(c: Seq<(u8, Seq<char>)>, m: DiffMarkers, k: int) -> Seq<char> {
    c[k].1 + run_boundary(m, c[k].0, c[k + 1].0) + c[k + 1].1
}

proof fn lemma_boundary_after(c: Seq<(u8, Seq<char>)>, m: DiffMarkers, t: u8)
    requires
        c.len() > 0,
        t <= 2,
        c[0].0 <= 2,
    ensures
        mark_runs(c, m, Some(t)) == run_boundary(m, t, c[0].0) + c[0].1 + mark_runs(
            c.drop_first(),
            m,
            Some(c[0].0),
        ),
{
    let u = c[0].0;
    if t != u {
        assert(close_run(m, Some(t)) + open_run(m, u) =~= run_boundary(m, t, u));
    } else {
        assert(run_boundary(m, t, u) =~= Seq::<char>::empty());
    }
}

proof fn lemma_adjacent_marked(c: Seq<(u8, Seq<char>)>, m: DiffMarkers, active: Option<u8>, k: int)
    requires
        kinds_valid(c),
        0 <= k,
        k + 1 < c.len(),
    ensures
        contains(mark_runs(c, m, active), adjacent_lines(c, m, k)),
    decreases c.len(),
{
    let t = c[0].0;
    let rest = c.drop_first();
    let sw = if active != Some(t) {
        close_run(m, active) + open_run(m, t)
    } else {
        seq![]
    };
    let tail = mark_runs(rest, m, Some(t));
    assert(mark_runs(c, m, active) == sw + c[0].1 + tail);
    assert(c[0].0 <= 2 && c[1].0 <= 2);
    assert(rest[0] == c[1]);
    if k == 0 {
        lemma_boundary_after(rest, m, t);
        let after = mark_runs(rest.drop_first(), m, Some(c[1].0));
        assert(sw + c[0].1 + tail =~= sw + adjacent_lines(c, m, 0) + after);
        crate::text::lemma_matches_after(sw, adjacent_lines(c, m, 0), after);
    } else {
        assert forall|j: int| 0 <= j < rest.len() implies (#[trigger] rest[j]).0 <= 2 by {
            assert(rest[j] == c[j + 1]);
        }
        lemma_adjacent_marked(rest, m, Some(t), k - 1);
        assert(rest[k - 1] == c[k] && rest[k] == c[k + 1]);
        assert(adjacent_lines(rest, m, k - 1) == adjacent_lines(c, m, k));
        let i = choose|i: int| crate::text::matches_at(tail, adjacent_lines(c, m, k), i);
        crate::text::lemma_matches_shift(sw + c[0].1, tail, adjacent_lines(c, m, k), i);
    }
}

proof fn lemma_last_marked(c: Seq<(u8, Seq<char>)>, m: DiffMarkers, active: Option<u8>)
    requires
        c.len() > 0,
    ensures
        ({
            let out = mark_runs(c, m, active);
            let last = c[c.len() - 1].1 + close_run(m, Some(c[c.len() - 1].0));
            crate::text::matches_at(out, last, out.len() - last.len())
        }),
    decreases c.len(),
{
    let t = c[0].0;
    let rest = c.drop_first();
    let sw = if active != Some(t) {
        close_run(m, active) + open_run(m, t)
    } else {
        seq![]
    };
    let tail = mark_runs(rest, m, Some(t));
    let last = c[c.len() - 1].1 + close_run(m, Some(c[c.len() - 1].0));
    assert(mark_runs(c, m, active) == (sw + c[0].1) + tail);
    if c.len() == 1 {
        assert(tail == close_run(m, Some(t)));
        assert((sw + c[0].1) + tail =~= sw + last + Seq::<char>::empty());
        crate::text::lemma_matches_after(sw, last, Seq::<char>::empty());
    } else {
        lemma_last_marked(rest, m, Some(t));
        assert(rest[rest.len() - 1] == c[c.len() - 1]);
        crate::text::lemma_matches_shift(sw + c[0].1, tail, last, tail.len() - last.len());
    }
}

/// How runs are marked, line by line: the marked text begins with the first line, after
/// the start marker of its run when it is deleted or inserted; between any two
/// neighbouring lines of different kinds stands the end marker of the first one's run
/// (when it is deleted or inserted) and then the start marker of the second one's run
/// (likewise), and nothing between two lines of one kind; and the text ends with the last
/// line, followed by the end marker of its run when it is deleted or inserted. So an
/// unchanged line never stands inside a run's markers.
pub proof fn lemma_runs_marked_between_lines(c: Seq<(u8, Seq<char>)>, m: DiffMarkers)
    requires
        kinds_valid(c),
    ensures
        c.len() == 0 ==> mark_runs(c, m, None).len() == 0,
        c.len() > 0 ==> crate::text::starts_with(
            mark_runs(c, m, None),
            (if c[0].0 == 1 {
                marker_block(m.del_start@)
            } else if c[0].0 == 2 {
                marker_block(m.add_start@)
            } else {
                seq![]
            }) + c[0].1,
        ),
        c.len() > 0 ==> ({
            let out = mark_runs(c, m, None);
            let t = c[c.len() - 1].0;
            let last = c[c.len() - 1].1 + (if t == 1 {
                marker_block(m.del_end@)
            } else if t == 2 {
                marker_block(m.add_end@)
            } else {
                seq![]
            });
            crate::text::matches_at(out, last, out.len() - last.len())
        }),
        forall|k: int|
            0 <= k && k + 1 < c.len() ==> contains(
                mark_runs(c, m, None),
                #[trigger] adjacent_lines(c, m, k),
            ),
{
    if c.len() > 0 {
        let t = c[0].0;
        assert(t <= 2);
        let head = (if t == 1 {
            marker_block(m.del_start@)
        } else if t == 2 {
            marker_block(m.add_start@)
        } else {
            seq![]
        });
        assert(close_run(m, None) + open_run(m, t) =~= head);
        let tail = mark_runs(c.drop_first(), m, Some(t));
        assert(mark_runs(c, m, None) =~= head + c[0].1 + tail);
        crate::text::lemma_matches_after(Seq::<char>::empty(), head + c[0].1, tail);
        assert(Seq::<char>::empty() + (head + c[0].1) + tail =~= head + c[0].1 + tail);
        lemma_last_marked(c, m, None);
        let l = c[c.len() - 1].0;
        assert(l <= 2);
        assert(close_run(m, Some(l)) == (if l == 1 {
            marker_block(m.del_end@)
        } else if l == 2 {
            marker_block(m.add_end@)
        } else {
            seq![]
        }));
    }
    assert forall|k: int| 0 <= k && k + 1 < c.len() implies contains(
        mark_runs(c, m, None),
        #[trigger] adjacent_lines(c, m, k),
    ) by {
        lemma_adjacent_marked(c, m, None, k);
    }
}

fn push_marker(out: &mut String, marker: &str)
    ensures
        final(out)@ == old(out)@ + marker_block(marker@),
{
    out.push_str("\n\n");
    out.push_str(marker);
    out.push_str("\n\n");
    assert(final(out)@ =~= old(out)@ + marker_block(marker@));
}

fn open_diff_run(out: &mut String, markers: &DiffMarkers, tag: ChangeKind)
    ensures
        final(out)@ == old(out)@ + open_run(*markers, change_code(tag)),
{
    match tag {
        ChangeKind::Equal => {
            assert(old(out)@ + open_run(*markers, change_code(tag)) =~= old(out)@);
        },
        ChangeKind::Delete => push_marker(out, markers.del_start.as_str()),
        ChangeKind::Insert => push_marker(out, markers.add_start.as_str()),
    }
}

fn close_diff_run(out: &mut String, markers: &DiffMarkers, tag: Option<ChangeKind>)
    ensures
        final(out)@ == old(out)@ + close_run(
            *markers,
            match tag {
                Some(t) => Some(change_code(t)),
                None => None,
            },
        ),
{
    match tag {
        Some(ChangeKind::Delete) => push_marker(out, markers.del_end.as_str()),
        Some(ChangeKind::Insert) => push_marker(out, markers.add_end.as_str()),
        _ => {
            assert(old(out)@ + close_run(
                *markers,
                match tag {
                    Some(t) => Some(change_code(t)),
                    None => None,
                },
            ) =~= old(out)@);
        },
    }
}

/// The diff's lines in order, with each run of deleted or inserted lines put between its
/// start and end markers on paragraphs of their own.
pub fn mark_diff_runs(changes: &Vec<(ChangeKind, String)>, markers: &DiffMarkers) -> (out: String)
    ensures
        out@ == mark_runs(changes_view(changes@), *markers, None),
{
    let ghost cv = changes_view(changes@);
    let mut out = String::new();
    let mut active: Option<ChangeKind> = None;
    let mut i: usize = 0;
    assert(cv.skip(0) =~= cv);
    while i < changes.len()
        invariant
            cv == changes_view(changes@),
            i <= changes@.len(),
            i == 0 ==> active is None,
            i > 0 ==> active == Some(changes@[i - 1].0),
            out@ + mark_runs(
                cv.skip(i as int),
                *markers,
                match active {
                    Some(t) => Some(change_code(t)),
                    None => None,
                },
            ) == mark_runs(cv, *markers, None),
        decreases changes@.len() - i,
    {
        let tag = changes[i].0;
        let ghost prev = out@;
        let ghost act = match active {
            Some(t) => Some(change_code(t)),
            None => None,
        };
        let switch = match active {
            Some(a) => a != tag,
            None => true,
        };
        assert(switch == (act != Some(change_code(tag)))) by {
            if let Some(a) = active {
                assert(a == tag <==> change_code(a) == change_code(tag));
            }
        }
        if switch {
            close_diff_run(&mut out, markers, active);
            open_diff_run(&mut out, markers, tag);
            active = Some(tag);
        }
        out.push_str(changes[i].1.as_str());
        proof {
            let rest = cv.skip(i as int);
            assert(rest[0] == cv[i as int]);
            assert(rest.drop_first() =~= cv.skip(i + 1));
            assert(out@ + mark_runs(cv.skip(i + 1), *markers, Some(change_code(tag)))
                =~= prev + mark_runs(rest, *markers, act));
        }
        active = Some(tag);
        i += 1;
    }
    close_diff_run(&mut out, markers, active);
    assert(cv.skip(i as int) =~= Seq::<(u8, Seq<char>)>::empty());
    out
}

/// The Markdown of a diff, and the markers that bracket its runs.
pub struct DiffMarkdown {
    pub markdown: String,
    pub markers: DiffMarkers,
}

/// The lines of `new` and `old` as the line diff orders them, with each run of inserted
/// and deleted lines bracketed by the given markers.
pub fn diff_markdown_with(old: &str, new: &str, markers: &DiffMarkers) -> (out: String)
    ensures
        out@ == mark_runs(line_diff(old@, new@), *markers, None),
        side_text(line_diff(old@, new@), 2) == old@,
        side_text(line_diff(old@, new@), 1) == new@,
        (forall|k: int| 0 <= k < line_diff(old@, new@).len() ==> (#[trigger] line_diff(old@, new@)[k]).0
            == 0) ==> out@ == new@,
{
    let changes = diff_lines(old, new);
    proof {
        if forall|k: int| 0 <= k < line_diff(old@, new@).len() ==> (#[trigger] line_diff(old@, new@)[k]).0
            == 0 {
            lemma_unchanged_diff_is_plain(line_diff(old@, new@), *markers, None);
        }
    }
    mark_diff_runs(&changes, markers)
}

/// The lines of `new` and `old` as the line diff orders them, with each run of inserted
/// and deleted lines bracketed by fresh random markers.
pub fn diff_markdown(old: &str, new: &str) -> (d: DiffMarkdown)
    ensures
        d.markdown@ == mark_runs(line_diff(old@, new@), d.markers, None),
        side_text(line_diff(old@, new@), 2) == old@,
        side_text(line_diff(old@, new@), 1) == new@,
        (forall|k: int| 0 <= k < line_diff(old@, new@).len() ==> (#[trigger] line_diff(old@, new@)[k]).0
            == 0) ==> d.markdown@ == new@,
        exists|id: Seq<char>|
            id.len() == 32 && (forall|k: int| 0 <= k < id.len() ==> is_lower_hex(#[trigger] id[k]))
                && markers_for(d.markers, id),
{
    let markers = DiffMarkers::new();
    let markdown = diff_markdown_with(old, new, &markers);
    DiffMarkdown { markdown, markers }
}

/// The fixed markers of the in-page preview.
pub open spec fn preview_markers(m: DiffMarkers) -> bool {
    &&& m.add_start@ == "@@MDPDF_WASM_DIFF_ADD_START@@"@
    &&& m.add_end@ == "@@MDPDF_WASM_DIFF_ADD_END@@"@
    &&& m.del_start@ == "@@MDPDF_WASM_DIFF_DEL_START@@"@
    &&& m.del_end@ == "@@MDPDF_WASM_DIFF_DEL_END@@"@
}

impl Default for DiffMarkers {
    /// The fixed markers of the in-page preview.
    fn default() -> (m: Self)
        ensures
            preview_markers(m),
    {
        DiffMarkers {
            add_start: String::from_str("@@MDPDF_WASM_DIFF_ADD_START@@"),
            add_end: String::from_str("@@MDPDF_WASM_DIFF_ADD_END@@"),
            del_start: String::from_str("@@MDPDF_WASM_DIFF_DEL_START@@"),
            del_end: String::from_str("@@MDPDF_WASM_DIFF_DEL_END@@"),
        }
    }
}

/// The four paragraphs that hold the markers after rendering.
pub open spec fn marker_paragraphs(m: DiffMarkers) -> Seq<Seq<char>> {
    seq![
        "<p>"@ + m.add_start@ + "</p>"@,
        "<p>"@ + m.add_end@ + "</p>"@,
        "<p>"@ + m.del_start@ + "</p>"@,
        "<p>"@ + m.del_end@ + "</p>"@,
    ]
}

/// What replaces each marker paragraph: the start and end of an added or deleted block.
pub open spec fn marker_replacements() -> Seq<Seq<char>> {
    seq![
        "<div class=\"diff-add\">"@,
        "</div>"@,
        "<div class=\"diff-del\">"@,
        "</div>"@,
    ]
}

/// The rendered HTML with the marker paragraphs turned into diff blocks.
pub open spec fn with_diff_blocks(html: Seq<char>, m: DiffMarkers) -> Seq<char> {
    replace_tokens(html, marker_paragraphs(m), marker_replacements())
}

/// Turns the marker paragraphs into `<div class="diff-add">` / `<div class="diff-del">`
/// blocks; a marker left over anywhere else is an error.
pub fn apply_diff_markers(html: String, markers: &DiffMarkers) -> (r: Result<String, AppError>)
    ensures
        r is Ok <==> !any_marker_in(*markers, with_diff_blocks(html@, *markers)),
        r matches Ok(o) ==> o@ == with_diff_blocks(html@, *markers),
        r matches Err(e) ==> (e matches AppError::Conversion(msg) && msg@
            == "internal diff marker leaked into rendered HTML"@),
{
    let mut pats: Vec<Vec<char>> = Vec::new();
    let mut reps: Vec<String> = Vec::new();
    let mut p = String::new();
    p.push_str("<p>");
    p.push_str(markers.add_start.as_str());
    p.push_str("</p>");
    pats.push(chars_of(p.as_str()));
    reps.push(String::from_str("<div class=\"diff-add\">"));
    let mut p = String::new();
    p.push_str("<p>");
    p.push_str(markers.add_end.as_str());
    p.push_str("</p>");
    pats.push(chars_of(p.as_str()));
    reps.push(String::from_str("</div>"));
    let mut p = String::new();
    p.push_str("<p>");
    p.push_str(markers.del_start.as_str());
    p.push_str("</p>");
    pats.push(chars_of(p.as_str()));
    reps.push(String::from_str("<div class=\"diff-del\">"));
    let mut p = String::new();
    p.push_str("<p>");
    p.push_str(markers.del_end.as_str());
    p.push_str("</p>");
    pats.push(chars_of(p.as_str()));
    reps.push(String::from_str("</div>"));
    assert(pats_view(pats@) =~= marker_paragraphs(*markers));
    assert(Seq::new(reps@.len(), |k: int| reps@[k]@) =~= marker_replacements());
    let output = replace_tokens_exec(&chars_of(html.as_str()), &pats, &reps);
    if markers.contains_any(output.as_str()) {
        return Err(AppError::Conversion(String::from_str("internal diff marker leaked into rendered HTML")));
    }
    Ok(output)
}

} // verus!
