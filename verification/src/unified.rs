//! The unified diff format, and making a patch from two texts.

use vstd::prelude::*;
use vstd::string::StringExecFns;
use crate::lines::{ends_in_newline, lines_inclusive, split_inclusive};
use crate::numbers::decimal;
use crate::patch::{is_marker, patched};
use crate::patch_laws::{
    law_patch_round_trip, lemma_no_markers, lemma_normalized_end, lemma_patch_names_files,
    lemma_script_not_empty, no_lone_cr, no_markers, same_up_to_final_newline,
};
use crate::text::{same, starts, starts_with, texts};

verus! {

// ---------------------------------------------------------------------------
// The format
// ---------------------------------------------------------------------------

/// What happens to a line.
pub enum Tag {
    Equal,
    Delete,
    Insert,
}

/// One line of a hunk.
pub struct Change {
    pub tag: Tag,
    pub line: Seq<char>,
}

/// One hunk of a diff: the line of the old text it starts at, counted from zero, the other
/// numbers of its header, and its lines.
pub struct DiffHunk {
    pub old_start: nat,
    pub old_len: nat,
    pub new_start: nat,
    pub new_len: nat,
    pub changes: Seq<Change>,
}

/// The character that starts a line of a hunk.
pub open spec fn tag_char(t: Tag) -> char {
    match t {
        Tag::Equal => ' ',
        Tag::Delete => '-',
        Tag::Insert => '+',
    }
}

/// What follows a line that has no end of its own.
pub open spec fn end_hint(line: Seq<char>) -> Seq<char> {
    if line.len() > 0 && (line.last() == '\n' || line.last() == '\r') {
        Seq::empty()
    } else {
        "\n\\ No newline at end of file\n"@
    }
}

/// A line of a hunk in the diff.
pub open spec fn change_text(c: Change) -> Seq<char> {
    seq![tag_char(c.tag)] + c.line + end_hint(c.line)
}

/// The lines of a hunk in the diff.
pub open spec fn changes_text(cs: Seq<Change>) -> Seq<char>
    decreases cs.len(),
{
    if cs.len() == 0 {
        Seq::empty()
    } else {
        changes_text(cs.drop_last()) + change_text(cs.last())
    }
}

/// A range of lines in a hunk header.
pub open spec fn range_text(start: nat, len: nat) -> Seq<char> {
    if len == 1 {
        decimal(start + 1)
    } else if len == 0 {
        decimal(start) + ","@ + decimal(0)
    } else {
        decimal(start + 1) + ","@ + decimal(len)
    }
}

/// The header of a hunk.
pub open spec fn header_text(h: DiffHunk) -> Seq<char> {
    "@@ -"@ + range_text(h.old_start, h.old_len) + " +"@ + range_text(h.new_start, h.new_len)
        + " @@\n"@
}

/// The hunks of a diff.
pub open spec fn hunks_text(hs: Seq<DiffHunk>) -> Seq<char>
    decreases hs.len(),
{
    if hs.len() == 0 {
        Seq::empty()
    } else {
        hunks_text(hs.drop_last()) + (header_text(hs.last()) + changes_text(hs.last().changes))
    }
}

/// The two lines that name the files.
pub open spec fn file_header(old_name: Seq<char>, new_name: Seq<char>) -> Seq<char> {
    ("--- "@ + old_name + "\n"@) + ("+++ "@ + new_name + "\n"@)
}

/// A diff: nothing where there is no hunk, else the file names and the hunks.
pub open spec fn diff_text(hs: Seq<DiffHunk>, old_name: Seq<char>, new_name: Seq<char>) -> Seq<
    char,
> {
    if hs.len() == 0 {
        Seq::empty()
    } else {
        file_header(old_name, new_name) + hunks_text(hs)
    }
}

// ---------------------------------------------------------------------------
// What a diff says
// ---------------------------------------------------------------------------

/// Whether a line ends at position `i`: with a line feed, or with a carriage return that no line
/// feed follows.
pub open spec fn breaks_at(s: Seq<char>, i: int) -> bool {
    s[i] == '\n' || (s[i] == '\r' && !(i + 1 < s.len() && s[i + 1] == '\n'))
}

/// The position of the first end of a line at or after `i`; the length where there is none.
pub open spec fn first_break(s: Seq<char>, i: int) -> int
    decreases s.len() - i,
{
    if i >= s.len() || breaks_at(s, i) {
        i
    } else {
        first_break(s, i + 1)
    }
}

/// The lines that are compared, each with its end.
pub open spec fn diff_lines(s: Seq<char>) -> Seq<Seq<char>>
    decreases s.len(),
{
    if s.len() == 0 {
        Seq::empty()
    } else {
        let k = first_break(s, 0);
        if 0 <= k < s.len() {
            seq![s.take(k + 1)] + diff_lines(s.skip(k + 1))
        } else {
            seq![s]
        }
    }
}

/// The lines of the old text in a hunk.
pub open spec fn old_side(cs: Seq<Change>) -> Seq<Seq<char>>
    decreases cs.len(),
{
    if cs.len() == 0 {
        Seq::empty()
    } else {
        match cs.last().tag {
            Tag::Insert => old_side(cs.drop_last()),
            _ => old_side(cs.drop_last()).push(cs.last().line),
        }
    }
}

/// The lines of the new text in a hunk.
pub open spec fn new_side(cs: Seq<Change>) -> Seq<Seq<char>>
    decreases cs.len(),
{
    if cs.len() == 0 {
        Seq::empty()
    } else {
        match cs.last().tag {
            Tag::Delete => new_side(cs.drop_last()),
            _ => new_side(cs.drop_last()).push(cs.last().line),
        }
    }
}

/// The line of the old text behind the last hunk.
pub open spec fn old_end(hs: Seq<DiffHunk>) -> int {
    if hs.len() == 0 {
        0
    } else {
        (hs.last().old_start + old_side(hs.last().changes).len()) as int
    }
}

/// The line of the new text behind the last hunk.
pub open spec fn new_end(hs: Seq<DiffHunk>) -> int
    decreases hs.len(),
{
    if hs.len() == 0 {
        0
    } else {
        new_end(hs.drop_last()) + (hs.last().old_start - old_end(hs.drop_last())) + new_side(
            hs.last().changes,
        ).len()
    }
}

/// Whether the hunks spell out the two texts up to the end of the last hunk: in a hunk the lines
/// of both sides, and between hunks lines that are the same in both.
pub open spec fn spells(
    old_lines: Seq<Seq<char>>,
    new_lines: Seq<Seq<char>>,
    hs: Seq<DiffHunk>,
) -> bool
    decreases hs.len(),
{
    hs.len() == 0 || {
        let init = hs.drop_last();
        let h = hs.last();
        let o = old_end(init);
        let n = new_end(init);
        let gap = h.old_start - o;
        &&& spells(old_lines, new_lines, init)
        &&& gap >= 0
        &&& old_end(hs) <= old_lines.len()
        &&& new_end(hs) <= new_lines.len()
        &&& h.changes.len() > 0
        &&& old_lines.subrange(o, o + gap) == new_lines.subrange(n, n + gap)
        &&& old_lines.subrange(o + gap, old_end(hs)) == old_side(h.changes)
        &&& new_lines.subrange(n + gap, new_end(hs)) == new_side(h.changes)
    }
}

/// Whether the hunks turn the old text into the new one.
pub open spec fn is_edit_script(
    old_lines: Seq<Seq<char>>,
    new_lines: Seq<Seq<char>>,
    hs: Seq<DiffHunk>,
) -> bool {
    spells(old_lines, new_lines, hs) && old_lines.skip(old_end(hs)) == new_lines.skip(new_end(hs))
}

/// Whether a text is a unified diff from one text to another.
pub open spec fn is_unified_diff(
    diff: Seq<char>,
    original: Seq<char>,
    modified: Seq<char>,
    old_name: Seq<char>,
    new_name: Seq<char>,
) -> bool {
    exists|hs: Seq<DiffHunk>|
        diff == diff_text(hs, old_name, new_name) && #[trigger] is_edit_script(
            diff_lines(original),
            diff_lines(modified),
            hs,
        )
}

// ---------------------------------------------------------------------------
// Making a patch
// ---------------------------------------------------------------------------

/// The unified diff, with three lines of context, from one text to another under two file names.
pub uninterp spec fn unified_diff_text(
    original: Seq<char>,
    modified: Seq<char>,
    old_name: Seq<char>,
    new_name: Seq<char>,
) -> Seq<char>;

/// `similar::TextDiff::from_lines` with `unified_diff`, a context radius of three and a header.
///
/// Which of the possible diffs comes out is only named. Of each it is claimed that it is in the
/// unified format, that its hunks turn the lines of the old text into those of the new, and that
/// it is empty where the two texts are the same. Nothing is claimed of the three numbers of a hunk
/// header besides the first.
#[verifier::external_body]
pub(crate) fn unified_diff(original: &str, modified: &str, old_name: &str, new_name: &str) -> (r: String)
    ensures
        r@ == unified_diff_text(original@, modified@, old_name@, new_name@),
        is_unified_diff(r@, original@, modified@, old_name@, new_name@),
        original@ == modified@ ==> r@.len() == 0,
{
    similar::TextDiff::from_lines(original, modified)
        .unified_diff()
        .context_radius(3)
        .header(old_name, new_name)
        .to_string()
}

/// The unified diff of two texts; it is empty exactly where they are the same.
pub fn show_diff(original: &str, modified: &str, old_name: &str, new_name: &str) -> (r: String)
    ensures
        r@ == unified_diff_text(original@, modified@, old_name@, new_name@),
        is_unified_diff(r@, original@, modified@, old_name@, new_name@),
        r@.len() == 0 <==> original@ == modified@,
{
    let r = unified_diff(original, modified, old_name, new_name);
    proof {
        if original@ != modified@ {
            let hs = choose|hs: Seq<DiffHunk>|
                r@ == diff_text(hs, old_name@, new_name@) && #[trigger] is_edit_script(
                    diff_lines(original@),
                    diff_lines(modified@),
                    hs,
                );
            lemma_script_not_empty(original@, modified@, hs);
            reveal_strlit("--- ");
        }
    }
    r
}

/// A patch text with one more line of a diff: markers are left out, and each line gets an end.
pub open spec fn with_diff_line(acc: Seq<char>, line: Seq<char>) -> Seq<char> {
    if is_marker(line) {
        if acc.len() > 0 && acc.last() == '\n' {
            acc
        } else {
            acc.push('\n')
        }
    } else if line.len() > 0 && line.last() == '\n' {
        acc + line
    } else {
        (acc + line).push('\n')
    }
}

/// The patch text of the lines of a diff.
pub open spec fn normalized(ls: Seq<Seq<char>>) -> Seq<char>
    decreases ls.len(),
{
    if ls.len() == 0 {
        Seq::empty()
    } else {
        with_diff_line(normalized(ls.drop_last()), ls.last())
    }
}

/// The patch from one text to another.
pub open spec fn patch_between(
    original: Seq<char>,
    modified: Seq<char>,
    label: Seq<char>,
) -> Seq<char> {
    if original == modified {
        Seq::empty()
    } else {
        normalized(
            split_inclusive(unified_diff_text(original, modified, "a/"@ + label, "b/"@ + label)),
        )
    }
}

/// Whether a patch, applied to the original, gives the modified text, with a line feed added at the
/// end where the modified text has none. Nothing is said of texts with a lone carriage return and of
/// a label with a line feed; see [`law_patch_round_trip`].
pub open spec fn restores(
    original: Seq<char>,
    modified: Seq<char>,
    label: Seq<char>,
    patch: Seq<char>,
) -> bool {
    original == modified || (no_lone_cr(original) && no_lone_cr(modified) && !label.contains('\n')
        && original.len() < usize::MAX) ==> (patched(original, patch) matches Ok(t)
        && same_up_to_final_newline(t, modified))
}

/// Adds one line of a diff to a patch text.
fn normalize_diff_line(line: &str, result: &mut String)
    ensures
        final(result)@ == with_diff_line(old(result)@, line@),
{
    if starts(line, "\\ ") {
        if !ends_in_newline(result) {
            result.push('\n');
        }
        return;
    }
    result.append(line);
    if !ends_in_newline(line) {
        result.push('\n');
    }
}

/// Makes the patch text of a diff.
pub fn normalize_diff(raw: &str) -> (r: String)
    ensures
        r@ == normalized(split_inclusive(raw@)),
        no_markers(r@),
{
    let lines = lines_inclusive(raw);
    let ghost ls = texts(lines@);
    let mut result: String = String::new();
    let mut i: usize = 0;
    while i < lines.len()
        invariant
            ls == texts(lines@),
            i <= lines@.len(),
            result@ == normalized(ls.take(i as int)),
        decreases lines@.len() - i,
    {
        assert(ls.take(i + 1).drop_last() =~= ls.take(i as int));
        assert(ls.take(i + 1).last() == lines@[i as int]@);
        normalize_diff_line(&lines[i], &mut result);
        i += 1;
    }
    proof {
        assert(ls.take(i as int) =~= ls);
        lemma_no_markers(raw@);
    }
    result
}

/// Makes the patch from one text to another; empty where they are the same.
///
/// A patch starts with `--- a/label` and `+++ b/label`, behind which its first hunk starts. Each of
/// its lines has an end, and none is a marker. Applied to the original it [`restores`] the modified
/// text.
pub fn generate_patch(original: &str, modified: &str, label: &str) -> (r: String)
    ensures
        r@ == patch_between(original@, modified@, label@),
        r@.len() == 0 <==> original@ == modified@,
        r@.len() > 0 ==> r@.last() == '\n',
        r@.len() > 0 && !label@.contains('\n') ==> starts_with(
            r@,
            file_header("a/"@ + label@, "b/"@ + label@) + "@@ -"@,
        ),
        no_markers(r@),
        restores(original@, modified@, label@, r@),
{
    if same(original, modified) {
        assert(split_inclusive(Seq::<char>::empty()).len() == 0);
        return String::new();
    }
    let mut old_name: String = String::from_str("a/");
    old_name.append(label);
    let mut new_name: String = String::from_str("b/");
    new_name.append(label);
    let raw = unified_diff(original, modified, &old_name, &new_name);
    let r = normalize_diff(&raw);
    proof {
        let hs = choose|hs: Seq<DiffHunk>|
            raw@ == diff_text(hs, old_name@, new_name@) && #[trigger] is_edit_script(
                diff_lines(original@),
                diff_lines(modified@),
                hs,
            );
        lemma_script_not_empty(original@, modified@, hs);
        reveal_strlit("--- ");
        assert(raw@.len() > 0);
        assert(split_inclusive(raw@).len() > 0);
        lemma_normalized_end(split_inclusive(raw@));
        if !label@.contains('\n') {
            lemma_prefixed_label("a/"@, label@);
            lemma_prefixed_label("b/"@, label@);
            lemma_patch_names_files(hs, old_name@, new_name@);
        }
        law_patch_restores(original@, modified@, label@);
    }
    r
}

/// The patch from one text to another, applied to the first, gives the second. The diff that it is
/// made of has to be one, as that of [`show_diff`] is for any two texts.
pub proof fn law_patch_restores(original: Seq<char>, modified: Seq<char>, label: Seq<char>)
    requires
        is_unified_diff(
            unified_diff_text(original, modified, "a/"@ + label, "b/"@ + label),
            original,
            modified,
            "a/"@ + label,
            "b/"@ + label,
        ),
    ensures
        restores(original, modified, label, patch_between(original, modified, label)),
{
    let old_name = "a/"@ + label;
    let new_name = "b/"@ + label;
    if original != modified && no_lone_cr(original) && no_lone_cr(modified) && !label.contains(
        '\n',
    ) && original.len() < usize::MAX {
        let hs = choose|hs: Seq<DiffHunk>|
            unified_diff_text(original, modified, old_name, new_name) == diff_text(
                hs,
                old_name,
                new_name,
            ) && #[trigger] is_edit_script(diff_lines(original), diff_lines(modified), hs);
        lemma_prefixed_label("a/"@, label);
        lemma_prefixed_label("b/"@, label);
        law_patch_round_trip(original, modified, hs, old_name, new_name);
    }
}

proof fn lemma_prefixed_label(prefix: Seq<char>, label: Seq<char>)
    requires
        prefix == "a/"@ || prefix == "b/"@,
        !label.contains('\n'),
    ensures
        !(prefix + label).contains('\n'),
{
    reveal_strlit("a/");
    reveal_strlit("b/");
    assert forall|i: int| 0 <= i < (prefix + label).len() implies (prefix + label)[i] != '\n' by {
        if i >= 2 {
            assert((prefix + label)[i] == label[i - 2]);
        }
    }
}

} // verus!
