//! What making a patch and applying it have to do with each other.

use vstd::prelude::*;
use crate::lines::{
    is_line, is_open_line, lemma_concat_one, lemma_lines_shape, lemma_split_inclusive_concat,
    lemma_split_of_lines, lemma_word_len_is, split_at_char, split_inclusive, words,
};
use crate::numbers::{decimal, is_digit, law_decimal_round_trip, lemma_decimal, parse_decimal};
use crate::patch::{
    after_body, after_hunks, after_line, body_end, context, fits, header_start, hunks_of,
    is_file_header, is_hunk_header, is_marker, matches_at, nearest, parsed_hunks, patched, position,
    skip_file_headers, trim_dashes, trim_newlines, with_prefix, without_markers, HunkView, Progress,
};
use crate::text::{
    concat, lemma_concat_add, lemma_until_char_is, starts_with, until_char, white_space,
};
use crate::unified::{
    breaks_at, change_text, changes_text, diff_lines, diff_text, file_header, first_break,
    header_text, hunks_text, is_edit_script, new_end, new_side, normalized, old_end, old_side,
    range_text, spells, tag_char, Change, DiffHunk, Tag,
};

verus! {

// ---------------------------------------------------------------------------
// Texts and patches that the law speaks of
// ---------------------------------------------------------------------------

/// Whether each carriage return of a text is followed by a line feed.
pub open spec fn no_lone_cr(s: Seq<char>) -> bool {
    forall|i: int| 0 <= i < s.len() && #[trigger] s[i] == '\r' ==> i + 1 < s.len() && s[i + 1]
        == '\n'
}

/// Whether no line of a text is a marker.
pub open spec fn no_markers(text: Seq<char>) -> bool {
    forall|i: int|
        0 <= i < split_inclusive(text).len() ==> !is_marker(#[trigger] split_inclusive(text)[i])
}

/// Whether a text is another, or lacks only the line feed at the end of it.
pub open spec fn same_up_to_final_newline(result: Seq<char>, wanted: Seq<char>) -> bool {
    result == wanted || (wanted.len() > 0 && wanted.last() != '\n' && result == wanted.push('\n'))
}

// ---------------------------------------------------------------------------
// Lines of a diff
// ---------------------------------------------------------------------------

/// A line with an end.
pub open spec fn closed_line(l: Seq<char>) -> Seq<char> {
    if l.len() > 0 && l.last() == '\n' {
        l
    } else {
        l.push('\n')
    }
}

/// Whether a line is one of a text without lone carriage returns.
spec fn plain(l: Seq<char>) -> bool {
    is_line(l) || (is_open_line(l) && l.last() != '\r')
}

/// Whether all lines of a hunk are plain.
spec fn plain_changes(cs: Seq<Change>) -> bool {
    forall|i: int| 0 <= i < cs.len() ==> plain((#[trigger] cs[i]).line)
}

spec fn marker_line() -> Seq<char> {
    "\\ No newline at end of file\n"@
}

/// The line of a patch for a line of a hunk.
spec fn patch_line(c: Change) -> Seq<char> {
    seq![tag_char(c.tag)] + closed_line(c.line)
}

/// The lines of a diff for a line of a hunk.
spec fn change_lines(c: Change) -> Seq<Seq<char>> {
    if c.line.len() > 0 && c.line.last() == '\n' {
        seq![patch_line(c)]
    } else {
        seq![patch_line(c), marker_line()]
    }
}

spec fn body_lines(cs: Seq<Change>) -> Seq<Seq<char>>
    decreases cs.len(),
{
    if cs.len() == 0 {
        Seq::empty()
    } else {
        body_lines(cs.drop_last()).push(patch_line(cs.last()))
    }
}

spec fn raw_body(cs: Seq<Change>) -> Seq<Seq<char>>
    decreases cs.len(),
{
    if cs.len() == 0 {
        Seq::empty()
    } else {
        raw_body(cs.drop_last()) + change_lines(cs.last())
    }
}

spec fn patch_lines(hs: Seq<DiffHunk>) -> Seq<Seq<char>>
    decreases hs.len(),
{
    if hs.len() == 0 {
        Seq::empty()
    } else {
        patch_lines(hs.drop_last()) + (seq![header_text(hs.last())] + body_lines(
            hs.last().changes,
        ))
    }
}

spec fn raw_lines(hs: Seq<DiffHunk>) -> Seq<Seq<char>>
    decreases hs.len(),
{
    if hs.len() == 0 {
        Seq::empty()
    } else {
        raw_lines(hs.drop_last()) + (seq![header_text(hs.last())] + raw_body(hs.last().changes))
    }
}

spec fn all_lines(ls: Seq<Seq<char>>) -> bool {
    forall|i: int| 0 <= i < ls.len() ==> is_line(#[trigger] ls[i])
}

proof fn lemma_all_lines_add(a: Seq<Seq<char>>, b: Seq<Seq<char>>)
    requires
        all_lines(a),
        all_lines(b),
    ensures
        all_lines(a + b),
{
}

proof fn lemma_without_markers_add(a: Seq<Seq<char>>, b: Seq<Seq<char>>)
    ensures
        without_markers(a + b) == without_markers(a) + without_markers(b),
    decreases b.len(),
{
    if b.len() == 0 {
        assert(a + b =~= a);
        assert(without_markers(a) + without_markers(b) =~= without_markers(a));
    } else {
        assert((a + b).drop_last() =~= a + b.drop_last());
        lemma_without_markers_add(a, b.drop_last());
        assert((a + b).last() == b.last());
        assert(without_markers(a + b) =~= without_markers(a) + without_markers(b));
    }
}

proof fn lemma_closed(l: Seq<char>)
    requires
        plain(l),
    ensures
        is_line(closed_line(l)),
{
    if is_open_line(l) {
        assert(closed_line(l).drop_last() =~= l) by {
            if l.last() == '\n' {
                assert(l.contains('\n'));
            }
        }
    }
}

proof fn lemma_patch_line(c: Change)
    requires
        plain(c.line),
    ensures
        is_line(patch_line(c)),
        !is_marker(patch_line(c)),
        !is_hunk_header(patch_line(c)),
        patch_line(c)[0] == tag_char(c.tag),
        patch_line(c).skip(1) == closed_line(c.line),
{
    let l = closed_line(c.line);
    let p = patch_line(c);
    lemma_closed(c.line);
    assert(p.drop_last() =~= seq![tag_char(c.tag)] + l.drop_last());
    assert forall|i: int| 0 <= i < p.drop_last().len() implies p.drop_last()[i] != '\n' by {
        if i > 0 {
            assert(p.drop_last()[i] == l.drop_last()[i - 1]);
            if p.drop_last()[i] == '\n' {
                assert(l.drop_last().contains('\n'));
            }
        }
    }
    assert(p.skip(1) =~= l);
    reveal_strlit("\\ ");
    reveal_strlit("@@ ");
    if is_marker(p) {
        assert(p.subrange(0, 2)[0] == "\\ "@[0]);
    }
    if is_hunk_header(p) {
        assert(p.subrange(0, 3)[0] == "@@ "@[0]);
    }
}

proof fn lemma_marker_line()
    ensures
        is_line(marker_line()),
        is_marker(marker_line()),
        "\n\\ No newline at end of file\n"@ == seq!['\n'] + marker_line(),
{
    reveal_strlit("\\ No newline at end of file\n");
    reveal_strlit("\\ ");
    reveal_strlit("\n\\ No newline at end of file\n");
    let m = marker_line();
    assert(m.subrange(0, 2) =~= "\\ "@);
    assert("\n\\ No newline at end of file\n"@ =~= seq!['\n'] + m);
    assert forall|i: int| 0 <= i < m.drop_last().len() implies m.drop_last()[i] != '\n' by {
        assert(m.drop_last()[i] == m[i]);
    }
}

proof fn lemma_change_lines(c: Change)
    requires
        plain(c.line),
    ensures
        all_lines(change_lines(c)),
        concat(change_lines(c)) == change_text(c),
        without_markers(change_lines(c)) == seq![patch_line(c)],
{
    lemma_patch_line(c);
    lemma_marker_line();
    lemma_concat_one(patch_line(c));
    let p = patch_line(c);
    let one = seq![p];
    assert(one.drop_last() =~= Seq::empty());
    assert(without_markers(one) =~= one) by {
        assert(without_markers(one.drop_last()) =~= Seq::empty());
    }
    if c.line.last() == '\n' {
        assert(change_text(c) =~= p);
    } else {
        let two = seq![p, marker_line()];
        assert(two.drop_last() =~= one);
        assert(concat(two) == concat(one) + marker_line());
        assert(change_text(c) =~= p + marker_line());
    }
}

proof fn lemma_bodies(cs: Seq<Change>)
    requires
        plain_changes(cs),
    ensures
        all_lines(raw_body(cs)),
        concat(raw_body(cs)) == changes_text(cs),
        without_markers(raw_body(cs)) == body_lines(cs),
        body_lines(cs).len() == cs.len(),
        forall|i: int| 0 <= i < cs.len() ==> #[trigger] body_lines(cs)[i] == patch_line(cs[i]),
        all_lines(body_lines(cs)),
    decreases cs.len(),
{
    if cs.len() > 0 {
        let init = cs.drop_last();
        assert forall|i: int| 0 <= i < init.len() implies plain((#[trigger] init[i]).line) by {
            assert(init[i] == cs[i]);
        }
        assert(plain(cs[cs.len() - 1].line));
        lemma_bodies(init);
        lemma_change_lines(cs.last());
        lemma_patch_line(cs.last());
        lemma_concat_add(raw_body(init), change_lines(cs.last()));
        lemma_without_markers_add(raw_body(init), change_lines(cs.last()));
        assert(body_lines(init) + seq![patch_line(cs.last())] =~= body_lines(cs));
    }
}

// ---------------------------------------------------------------------------
// Headers
// ---------------------------------------------------------------------------

proof fn lemma_no_space_in_range(start: nat, len: nat)
    ensures
        range_text(start, len).len() > 0,
        is_digit(range_text(start, len)[0]),
        forall|i: int|
            0 <= i < range_text(start, len).len() ==> is_digit(#[trigger] range_text(start, len)[i])
                || range_text(start, len)[i] == ',',
{
    reveal_strlit(",");
    lemma_decimal(start);
    lemma_decimal(start + 1);
    lemma_decimal(len);
    lemma_decimal(0);
    let r = range_text(start, len);
    if len != 1 {
        let d = if len == 0 {
            decimal(start)
        } else {
            decimal(start + 1)
        };
        let e = decimal(len);
        assert(r == d + ","@ + e);
        assert forall|i: int| 0 <= i < r.len() implies is_digit(#[trigger] r[i]) || r[i] == ','
            by {
            if i < d.len() {
                assert(r[i] == d[i]);
            } else if i > d.len() {
                assert(r[i] == e[i - d.len() - 1]);
            }
        }
        assert(r[0] == d[0]);
    }
}

/// The header of a hunk is one line, and looks like nothing else.
proof fn lemma_header_line(h: DiffHunk)
    ensures
        is_line(header_text(h)),
        is_hunk_header(header_text(h)),
        !is_file_header(header_text(h)),
        !is_marker(header_text(h)),
        starts_with(header_text(h), "@@ -"@),
{
    reveal_strlit("@@ -");
    reveal_strlit("@@ ");
    reveal_strlit(" +");
    reveal_strlit(" @@\n");
    reveal_strlit("--- ");
    reveal_strlit("+++ ");
    reveal_strlit("\\ ");
    let l = header_text(h);
    let r = range_text(h.old_start, h.old_len);
    let r2 = range_text(h.new_start, h.new_len);
    lemma_no_space_in_range(h.old_start, h.old_len);
    lemma_no_space_in_range(h.new_start, h.new_len);
    let n = r.len() as int;
    let m = r2.len() as int;
    assert(l.len() == 4 + n + 2 + m + 4);
    assert forall|i: int| 4 <= i < 4 + n implies l[i] == r[i - 4] by {}
    assert forall|i: int| 6 + n <= i < 6 + n + m implies l[i] == r2[i - 6 - n] by {}
    assert(l[0] == '@' && l[1] == '@' && l[2] == ' ' && l[3] == '-' && l[4 + n] == ' ');
    assert(l.subrange(0, 3) =~= "@@ "@);
    assert(l.subrange(0, 4) =~= "@@ -"@);
    if is_file_header(l) {
        assert(l.subrange(0, 4)[0] == '@');
    }
    if is_marker(l) {
        assert(l.subrange(0, 2)[0] == '@');
    }
    assert(l.last() == '\n');
    assert forall|i: int| 0 <= i < l.len() - 1 implies l.drop_last()[i] != '\n' by {
        assert(l.drop_last()[i] == l[i]);
        if 4 <= i < 4 + n {
            assert(l[i] == r[i - 4]);
        } else if 6 + n <= i < 6 + n + m {
            assert(l[i] == r2[i - 6 - n]);
        } else if i == 4 + n + 1 {
            assert(l[i] == " +"@[1]);
        } else if i >= 6 + n + m {
            assert(l[i] == " @@\n"@[i - 6 - n - m]);
        }
    }
}

/// The header of a hunk names the line it starts at.
proof fn lemma_header(h: DiffHunk)
    requires
        h.old_start + 1 <= usize::MAX,
    ensures
        is_line(header_text(h)),
        is_hunk_header(header_text(h)),
        !is_file_header(header_text(h)),
        !is_marker(header_text(h)),
        header_start(header_text(h)) == Some(h.old_start),
{
    lemma_header_line(h);
    reveal_strlit("@@ -");
    reveal_strlit(" +");
    reveal_strlit(" @@\n");
    let l = header_text(h);
    let r = range_text(h.old_start, h.old_len);
    lemma_no_space_in_range(h.old_start, h.old_len);
    let n = r.len() as int;
    assert forall|i: int| 4 <= i < 4 + n implies l[i] == r[i - 4] by {}
    assert(l[0] == '@' && l[1] == '@' && l[2] == ' ' && l[3] == '-' && l[4 + n] == ' ');
    lemma_word_len_is(l, 2);
    let t = l.skip(2);
    assert(t[0] == ' ');
    let u = t.skip(1);
    assert(u =~= l.skip(3));
    assert forall|i: int| 0 <= i < n + 1 implies !white_space(u[i]) by {
        assert(u[i] == l[i + 3]);
        if i > 0 {
            assert(l[i + 3] == r[i - 1]);
        }
    }
    assert(u[n + 1] == l[4 + n]);
    lemma_word_len_is(u, n + 1);
    let w = u.take(n + 1);
    assert(words(u) == seq![w] + words(u.skip(n + 1)));
    assert(words(t) == words(u));
    assert(words(l) == seq![l.take(2)] + words(t));
    assert(words(l)[1] == w);
    assert(w =~= seq!['-'] + r);
    assert(w.skip(1) =~= r);
    assert(trim_dashes(w) == trim_dashes(r));
    assert(trim_dashes(r) == r);
    lemma_range(h.old_start, h.old_len);
}

/// A range names the line it starts at, and says whether it is empty.
proof fn lemma_range(start: nat, len: nat)
    requires
        start + 1 <= usize::MAX,
    ensures
        ({
            let parts = split_at_char(range_text(start, len), ',');
            &&& parse_decimal(parts[0], usize::MAX as nat) == Some(
                if len == 0 {
                    start
                } else {
                    start + 1
                },
            )
            &&& (parts.len() > 1 && parts[1] == "0"@) == (len == 0)
        }),
{
    reveal_strlit(",");
    reveal_strlit("0");
    let r = range_text(start, len);
    let n = if len == 0 {
        start
    } else {
        start + 1
    };
    let d = decimal(n);
    lemma_decimal(n);
    lemma_decimal(len);
    lemma_decimal(0);
    assert(d.len() <= r.len() && r.take(d.len() as int) =~= d);
    assert(d.len() < r.len() ==> r[d.len() as int] == ',');
    assert forall|j: int| 0 <= j < d.len() implies r[j] != ',' by {
        assert(r[j] == d[j]);
    }
    lemma_until_char_is(r, ',', d.len() as int);
    assert(split_at_char(r, ',')[0] == d);
    law_decimal_round_trip(n, usize::MAX as nat);
    if len != 1 {
        let e = decimal(len);
        let rest = r.skip(d.len() as int + 1);
        assert(rest =~= e);
        assert forall|j: int| 0 <= j < e.len() implies e[j] != ',' by {}
        lemma_until_char_is(e, ',', e.len() as int);
        assert(split_at_char(r, ',')[1] == split_at_char(rest, ',')[0]);
        assert(split_at_char(e, ',')[0] =~= e);
        assert(decimal(0) =~= "0"@);
        if len != 0 && e == decimal(0) {
            law_decimal_round_trip(len, len);
            law_decimal_round_trip(0, len);
        }
    }
}

// ---------------------------------------------------------------------------
// From the diff to the patch and back to hunks
// ---------------------------------------------------------------------------

/// Whether the lines of all hunks are plain, and their numbers are sizes.
spec fn plain_hunks(hs: Seq<DiffHunk>) -> bool {
    forall|i: int|
        0 <= i < hs.len() ==> plain_changes((#[trigger] hs[i]).changes) && hs[i].old_start + 1
            <= usize::MAX
}

spec fn parsed_hunk(h: DiffHunk) -> HunkView {
    HunkView { start: h.old_start, body: body_lines(h.changes) }
}

spec fn parsed_all(hs: Seq<DiffHunk>) -> Seq<HunkView> {
    hs.map_values(|h: DiffHunk| parsed_hunk(h))
}

proof fn lemma_hunk_lines(hs: Seq<DiffHunk>)
    requires
        plain_hunks(hs),
    ensures
        all_lines(raw_lines(hs)),
        concat(raw_lines(hs)) == hunks_text(hs),
        without_markers(raw_lines(hs)) == patch_lines(hs),
        all_lines(patch_lines(hs)),
    decreases hs.len(),
{
    if hs.len() > 0 {
        let init = hs.drop_last();
        let h = hs.last();
        assert(h == hs[hs.len() - 1]);
        assert forall|i: int| 0 <= i < init.len() implies plain_changes((#[trigger] init[i]).changes)
            && init[i].old_start + 1 <= usize::MAX by {
            assert(init[i] == hs[i]);
        }
        lemma_hunk_lines(init);
        lemma_header(h);
        lemma_bodies(h.changes);
        let head = seq![header_text(h)];
        assert(head.drop_last() =~= Seq::empty());
        assert(without_markers(head) =~= head) by {
            assert(without_markers(head.drop_last()) =~= Seq::empty());
        }
        lemma_concat_one(header_text(h));
        lemma_concat_add(head, raw_body(h.changes));
        lemma_without_markers_add(head, raw_body(h.changes));
        lemma_concat_add(raw_lines(init), head + raw_body(h.changes));
        lemma_without_markers_add(raw_lines(init), head + raw_body(h.changes));
    }
}

proof fn lemma_normalized(ls: Seq<Seq<char>>)
    requires
        all_lines(ls),
        ls.len() > 0 ==> !is_marker(ls[0]),
    ensures
        normalized(ls) == concat(without_markers(ls)),
        ls.len() > 0 ==> normalized(ls).len() > 0 && normalized(ls).last() == '\n',
    decreases ls.len(),
{
    if ls.len() > 0 {
        let init = ls.drop_last();
        let l = ls.last();
        assert(is_line(ls[ls.len() - 1]));
        if init.len() > 0 {
            assert(init[0] == ls[0]);
        }
        lemma_normalized(init);
        if is_marker(l) {
            assert(init.len() > 0);
        } else {
            let wm = without_markers(init);
            assert(without_markers(ls) == wm.push(l));
            assert(wm.push(l).drop_last() =~= wm);
            assert((normalized(init) + l).last() == l.last());
        }
    }
}

proof fn lemma_body_end(body: Seq<Seq<char>>, tail: Seq<Seq<char>>)
    requires
        forall|i: int| 0 <= i < body.len() ==> !is_hunk_header(#[trigger] body[i]),
        tail.len() == 0 || is_hunk_header(tail[0]),
    ensures
        body_end(body + tail) == body.len(),
    decreases body.len(),
{
    if body.len() > 0 {
        let rest = body.skip(1);
        assert forall|i: int| 0 <= i < rest.len() implies !is_hunk_header(#[trigger] rest[i]) by {
            assert(rest[i] == body[i + 1]);
        }
        lemma_body_end(rest, tail);
        assert((body + tail)[0] == body[0]);
        assert((body + tail).skip(1) =~= rest + tail);
    } else {
        assert(body + tail =~= tail);
    }
}

proof fn lemma_without_markers_body(cs: Seq<Change>)
    requires
        plain_changes(cs),
    ensures
        without_markers(body_lines(cs)) == body_lines(cs),
    decreases cs.len(),
{
    if cs.len() > 0 {
        let init = cs.drop_last();
        assert forall|i: int| 0 <= i < init.len() implies plain((#[trigger] init[i]).line) by {
            assert(init[i] == cs[i]);
        }
        assert(plain(cs[cs.len() - 1].line));
        lemma_without_markers_body(init);
        lemma_patch_line(cs.last());
        assert(body_lines(cs).drop_last() =~= body_lines(init));
        assert(body_lines(cs) =~= without_markers(body_lines(cs)));
    }
}

/// The hunks of a patch are read back.
proof fn lemma_hunks_read_back(hs: Seq<DiffHunk>, tail: Seq<Seq<char>>)
    requires
        plain_hunks(hs),
        tail.len() == 0 || is_hunk_header(tail[0]),
    ensures
        hunks_of(patch_lines(hs) + tail) == with_prefix(parsed_all(hs), hunks_of(tail)),
    decreases hs.len(),
{
    if hs.len() == 0 {
        assert(patch_lines(hs) + tail =~= tail);
        match hunks_of(tail) {
            Ok(t) => {
                assert(parsed_all(hs) + t =~= t);
            },
            Err(_) => {},
        }
    } else {
        let init = hs.drop_last();
        let h = hs.last();
        let body = body_lines(h.changes);
        let here = seq![header_text(h)] + body;
        let tail2 = here + tail;
        assert(h == hs[hs.len() - 1]);
        assert forall|i: int| 0 <= i < init.len() implies plain_changes((#[trigger] init[i]).changes)
            && init[i].old_start + 1 <= usize::MAX by {
            assert(init[i] == hs[i]);
        }
        lemma_header(h);
        lemma_bodies(h.changes);
        assert(tail2[0] == header_text(h));
        lemma_hunks_read_back(init, tail2);
        assert(patch_lines(hs) + tail =~= patch_lines(init) + tail2);
        // the last hunk
        assert forall|i: int| 0 <= i < body.len() implies !is_hunk_header(#[trigger] body[i]) by {
            assert(plain(h.changes[i].line));
            lemma_patch_line(h.changes[i]);
        }
        lemma_body_end(body, tail);
        assert(tail2.skip(1) =~= body + tail);
        assert((body + tail).skip(body.len() as int) =~= tail);
        assert((body + tail).take(body.len() as int) =~= body);
        lemma_without_markers_body(h.changes);
        assert(parsed_all(hs) =~= parsed_all(init).push(parsed_hunk(h)));
        match hunks_of(tail) {
            Ok(t) => {
                assert(parsed_all(init) + (seq![parsed_hunk(h)] + t) =~= parsed_all(hs) + t);
            },
            Err(_) => {},
        }
    }
}

// ---------------------------------------------------------------------------
// Applying the hunks
// ---------------------------------------------------------------------------

proof fn lemma_trim_closed(l: Seq<char>)
    requires
        plain(l),
    ensures
        trim_newlines(closed_line(l)) == trim_newlines(l),
{
    if !(l.len() > 0 && l.last() == '\n') {
        assert(closed_line(l).drop_last() =~= l);
    }
}

/// The lines a hunk expects are its old side, without ends.
proof fn lemma_context_is_old_side(cs: Seq<Change>)
    requires
        plain_changes(cs),
    ensures
        context(body_lines(cs)).len() == old_side(cs).len(),
        forall|i: int|
            0 <= i < old_side(cs).len() ==> #[trigger] context(body_lines(cs))[i] == trim_newlines(
                old_side(cs)[i],
            ),
    decreases cs.len(),
{
    if cs.len() > 0 {
        let init = cs.drop_last();
        let c = cs.last();
        assert forall|i: int| 0 <= i < init.len() implies plain((#[trigger] init[i]).line) by {
            assert(init[i] == cs[i]);
        }
        assert(plain(cs[cs.len() - 1].line));
        lemma_context_is_old_side(init);
        lemma_patch_line(c);
        lemma_trim_closed(c.line);
        assert(body_lines(cs).drop_last() =~= body_lines(init));
    }
}

/// Whether lines are those of a text, but for an end that was added.
spec fn same_lines(out: Seq<Seq<char>>, wanted: Seq<Seq<char>>) -> bool {
    &&& out.len() == wanted.len()
    &&& forall|i: int|
        0 <= i < out.len() ==> #[trigger] out[i] == wanted[i] || out[i] == closed_line(wanted[i])
}

/// The lines of a hunk write its new side and advance over its old side.
proof fn lemma_after_body(ls: Seq<Seq<char>>, st: Progress, cs: Seq<Change>)
    requires
        plain_changes(cs),
        0 <= st.pos,
        st.pos + old_side(cs).len() <= ls.len(),
        ls.subrange(st.pos, st.pos + old_side(cs).len()) == old_side(cs),
    ensures
        ({
            let r = after_body(ls, st, body_lines(cs));
            &&& r.pos == st.pos + old_side(cs).len()
            &&& r.output.len() == st.output.len() + new_side(cs).len()
            &&& r.output.take(st.output.len() as int) == st.output
            &&& same_lines(r.output.skip(st.output.len() as int), new_side(cs))
        }),
    decreases cs.len(),
{
    let n = st.output.len() as int;
    if cs.len() == 0 {
        assert(st.output.take(n) =~= st.output);
    } else {
        let init = cs.drop_last();
        let c = cs.last();
        let old = old_side(cs);
        let k = old_side(init).len() as int;
        assert forall|i: int| 0 <= i < init.len() implies plain((#[trigger] init[i]).line) by {
            assert(init[i] == cs[i]);
        }
        assert(plain(cs[cs.len() - 1].line));
        assert(old_side(init) =~= old.take(k));
        assert(ls.subrange(st.pos, st.pos + k) =~= old.take(k)) by {
            assert forall|i: int| 0 <= i < k implies ls.subrange(st.pos, st.pos + k)[i]
                == old.take(k)[i] by {
                assert(ls.subrange(st.pos, st.pos + old.len())[i] == old[i]);
            }
        }
        lemma_after_body(ls, st, init);
        lemma_patch_line(c);
        assert(body_lines(cs).drop_last() =~= body_lines(init));
        let mid = after_body(ls, st, body_lines(init));
        let r = after_body(ls, st, body_lines(cs));
        assert(r == after_line(ls, mid, patch_line(c)));
        match c.tag {
            Tag::Equal => {
                assert(ls.subrange(st.pos, st.pos + old.len())[k] == old[k]);
                assert(ls[mid.pos] == c.line);
                assert(r.output == mid.output.push(c.line));
                assert(r.output.take(n) =~= mid.output.take(n));
                assert(r.output.skip(n) =~= mid.output.skip(n).push(c.line));
                lemma_same_lines_push(
                    mid.output.skip(n),
                    new_side(init),
                    r.output.skip(n),
                    c.line,
                    c.line,
                );
            },
            Tag::Delete => {
                assert(r.output == mid.output);
            },
            Tag::Insert => {
                assert(r.output == mid.output.push(closed_line(c.line)));
                assert(r.output.take(n) =~= mid.output.take(n));
                assert(r.output.skip(n) =~= mid.output.skip(n).push(closed_line(c.line)));
                lemma_same_lines_push(
                    mid.output.skip(n),
                    new_side(init),
                    r.output.skip(n),
                    closed_line(c.line),
                    c.line,
                );
            },
        }
    }
}

proof fn lemma_same_lines_push(
    out: Seq<Seq<char>>,
    wanted: Seq<Seq<char>>,
    longer: Seq<Seq<char>>,
    l: Seq<char>,
    w: Seq<char>,
)
    requires
        same_lines(out, wanted),
        longer == out.push(l),
        l == w || l == closed_line(w),
    ensures
        same_lines(longer, wanted.push(w)),
{
    assert forall|i: int| 0 <= i < longer.len() implies #[trigger] longer[i] == wanted.push(w)[i]
        || longer[i] == closed_line(wanted.push(w)[i]) by {
        if i < out.len() {
            assert(longer[i] == out[i]);
        }
    }
}

/// The hunks write the new text up to their end, and advance through the old text up to theirs.
proof fn lemma_after_hunks(
    old_lines: Seq<Seq<char>>,
    new_lines: Seq<Seq<char>>,
    hs: Seq<DiffHunk>,
)
    requires
        spells(old_lines, new_lines, hs),
        plain_hunks(hs),
    ensures
        0 <= old_end(hs) <= old_lines.len(),
        0 <= new_end(hs) <= new_lines.len(),
        after_hunks(old_lines, parsed_all(hs)) matches Ok(st) && st.pos == old_end(hs)
            && same_lines(st.output, new_lines.take(new_end(hs))),
    decreases hs.len(),
{
    if hs.len() == 0 {
        assert(parsed_all(hs).len() == 0);
        assert(new_lines.take(0).len() == 0);
    } else {
        let init = hs.drop_last();
        let h = hs.last();
        let cs = h.changes;
        assert(h == hs[hs.len() - 1]);
        assert forall|i: int| 0 <= i < init.len() implies plain_changes((#[trigger] init[i]).changes)
            && init[i].old_start + 1 <= usize::MAX by {
            assert(init[i] == hs[i]);
        }
        lemma_after_hunks(old_lines, new_lines, init);
        let o = old_end(init);
        let n = new_end(init);
        let gap = h.old_start - o;
        let p = h.old_start as int;
        assert(parsed_all(hs).drop_last() =~= parsed_all(init));
        assert(parsed_all(hs).last() == parsed_hunk(h));
        let st = after_hunks(old_lines, parsed_all(init))->Ok_0;
        let ctx = context(body_lines(cs));
        lemma_context_is_old_side(cs);
        assert(matches_at(old_lines, p, ctx)) by {
            assert forall|i: int| 0 <= i < ctx.len() implies trim_newlines(old_lines[p + i])
                == #[trigger] ctx[i] by {
                assert(old_lines.subrange(p, p + old_side(cs).len())[i] == old_side(cs)[i]);
            }
        }
        assert(fits(old_lines, st.pos, ctx, p));
        assert(position(old_lines, st.pos, ctx, p) == Some(p));
        let copied = old_lines.subrange(o, p);
        let st2 = Progress { output: st.output + copied, pos: p };
        lemma_after_body(old_lines, st2, cs);
        let r = after_body(old_lines, st2, body_lines(cs));
        assert(after_hunks(old_lines, parsed_all(hs)) == Ok::<Progress, Seq<char>>(r));
        assert(r.output.len() == n + gap + new_side(cs).len());
        let want = new_lines.take(new_end(hs));
        assert forall|i: int| 0 <= i < r.output.len() implies #[trigger] r.output[i] == want[i]
            || r.output[i] == closed_line(want[i]) by {
            if i < n {
                assert(r.output[i] == r.output.take(st2.output.len() as int)[i]);
                assert(r.output[i] == st.output[i]);
                assert(new_lines.take(n)[i] == want[i]);
            } else if i < n + gap {
                assert(r.output[i] == r.output.take(st2.output.len() as int)[i]);
                assert(r.output[i] == copied[i - n]);
                assert(copied[i - n] == new_lines.subrange(n, n + gap)[i - n]);
            } else {
                let j = i - n - gap;
                let tail = r.output.skip(st2.output.len() as int);
                assert(r.output[i] == tail[j]);
                assert(new_side(cs)[j] == new_lines.subrange(n + gap, new_end(hs))[j]);
            }
        }
    }
}

// ---------------------------------------------------------------------------
// Lines of texts without lone carriage returns
// ---------------------------------------------------------------------------

proof fn lemma_first_break(s: Seq<char>, i: int)
    requires
        no_lone_cr(s),
        0 <= i <= s.len(),
    ensures
        i <= first_break(s, i) <= s.len(),
        forall|j: int| i <= j < first_break(s, i) ==> s[j] != '\n',
        first_break(s, i) < s.len() ==> s[first_break(s, i)] == '\n',
    decreases s.len() - i,
{
    if i < s.len() && !breaks_at(s, i) {
        lemma_first_break(s, i + 1);
    }
}

/// Without lone carriage returns the lines that are compared are those between line feeds.
proof fn lemma_diff_lines(s: Seq<char>)
    requires
        no_lone_cr(s),
    ensures
        diff_lines(s) == split_inclusive(s),
    decreases s.len(),
{
    if s.len() > 0 {
        lemma_first_break(s, 0);
        let k = first_break(s, 0);
        lemma_until_char_is(s, '\n', k);
        if k < s.len() {
            let rest = s.skip(k + 1);
            assert forall|i: int| 0 <= i < rest.len() && #[trigger] rest[i] == '\r' implies i + 1
                < rest.len() && rest[i + 1] == '\n' by {
                assert(s[i + k + 1] == '\r');
            }
            lemma_diff_lines(rest);
        }
    }
}

proof fn lemma_lines_plain(s: Seq<char>)
    requires
        no_lone_cr(s),
    ensures
        forall|i: int| 0 <= i < split_inclusive(s).len() ==> plain(#[trigger] split_inclusive(s)[i]),
{
    lemma_lines_shape(s);
    let ls = split_inclusive(s);
    lemma_split_inclusive_concat(s);
    if ls.len() > 0 {
        let l = ls.last();
        assert(s == concat(ls.drop_last()) + l);
        assert(s.last() == l.last());
        if l.last() == '\r' {
            assert(s[s.len() - 1] == '\r');
        }
    }
}

/// The lines of a hunk are lines of one of the two texts.
proof fn lemma_sides_plain(cs: Seq<Change>)
    requires
        forall|i: int| 0 <= i < old_side(cs).len() ==> plain(#[trigger] old_side(cs)[i]),
        forall|i: int| 0 <= i < new_side(cs).len() ==> plain(#[trigger] new_side(cs)[i]),
    ensures
        plain_changes(cs),
    decreases cs.len(),
{
    if cs.len() > 0 {
        let init = cs.drop_last();
        let c = cs.last();
        assert forall|i: int| 0 <= i < old_side(init).len() implies plain(
            #[trigger] old_side(init)[i],
        ) by {
            assert(old_side(init)[i] == old_side(cs)[i]);
        }
        assert forall|i: int| 0 <= i < new_side(init).len() implies plain(
            #[trigger] new_side(init)[i],
        ) by {
            assert(new_side(init)[i] == new_side(cs)[i]);
        }
        lemma_sides_plain(init);
        assert(plain(c.line)) by {
            match c.tag {
                Tag::Insert => {
                    assert(new_side(cs)[new_side(cs).len() - 1] == c.line);
                },
                _ => {
                    assert(old_side(cs)[old_side(cs).len() - 1] == c.line);
                },
            }
        }
        assert forall|i: int| 0 <= i < cs.len() implies plain((#[trigger] cs[i]).line) by {
            if i < init.len() {
                assert(cs[i] == init[i]);
            }
        }
    }
}

proof fn lemma_script_plain(
    old_lines: Seq<Seq<char>>,
    new_lines: Seq<Seq<char>>,
    hs: Seq<DiffHunk>,
)
    requires
        spells(old_lines, new_lines, hs),
        old_lines.len() < usize::MAX,
        forall|i: int| 0 <= i < old_lines.len() ==> plain(#[trigger] old_lines[i]),
        forall|i: int| 0 <= i < new_lines.len() ==> plain(#[trigger] new_lines[i]),
    ensures
        plain_hunks(hs),
        0 <= old_end(hs),
        0 <= new_end(hs),
    decreases hs.len(),
{
    if hs.len() > 0 {
        let init = hs.drop_last();
        let h = hs.last();
        lemma_script_plain(old_lines, new_lines, init);
        let p = h.old_start as int;
        let n = new_end(init) + (p - old_end(init));
        assert forall|i: int| 0 <= i < old_side(h.changes).len() implies plain(
            #[trigger] old_side(h.changes)[i],
        ) by {
            assert(old_lines.subrange(p, old_end(hs))[i] == old_lines[p + i]);
        }
        assert forall|i: int| 0 <= i < new_side(h.changes).len() implies plain(
            #[trigger] new_side(h.changes)[i],
        ) by {
            assert(new_lines.subrange(n, new_end(hs))[i] == new_lines[n + i]);
        }
        lemma_sides_plain(h.changes);
        assert forall|i: int| 0 <= i < hs.len() implies plain_changes((#[trigger] hs[i]).changes)
            && hs[i].old_start + 1 <= usize::MAX by {
            if i < init.len() {
                assert(hs[i] == init[i]);
            }
        }
    }
}

// ---------------------------------------------------------------------------
// The law
// ---------------------------------------------------------------------------

proof fn lemma_concat_same_lines(out: Seq<Seq<char>>, text: Seq<char>)
    requires
        same_lines(out, split_inclusive(text)),
    ensures
        same_up_to_final_newline(concat(out), text),
{
    let ls = split_inclusive(text);
    lemma_lines_shape(text);
    lemma_split_inclusive_concat(text);
    if ls.len() > 0 {
        assert(out.drop_last() =~= ls.drop_last()) by {
            assert forall|i: int| 0 <= i < ls.len() - 1 implies out[i] == ls[i] by {
                assert(is_line(ls[i]));
            }
        }
        let k = ls.len() - 1;
        assert(out[k] == ls[k] || out[k] == closed_line(ls[k]));
        if out[k] != ls[k] {
            assert(concat(out) =~= text.push('\n'));
            assert(text.last() == ls[k].last());
        }
    } else {
        assert(out =~= ls);
    }
}

proof fn lemma_file_lines(old_name: Seq<char>, new_name: Seq<char>)
    requires
        !old_name.contains('\n'),
        !new_name.contains('\n'),
    ensures
        ({
            let a = "--- "@ + old_name + "\n"@;
            let b = "+++ "@ + new_name + "\n"@;
            &&& is_line(a) && is_file_header(a) && !is_marker(a)
            &&& is_line(b) && is_file_header(b) && !is_marker(b)
            &&& file_header(old_name, new_name) == concat(seq![a, b])
        }),
{
    reveal_strlit("--- ");
    reveal_strlit("+++ ");
    reveal_strlit("\n");
    reveal_strlit("\\ ");
    let a = "--- "@ + old_name + "\n"@;
    let b = "+++ "@ + new_name + "\n"@;
    assert(a.subrange(0, 4) =~= "--- "@);
    assert(b.subrange(0, 4) =~= "+++ "@);
    if is_marker(a) {
        assert(a.subrange(0, 2)[0] == '\\');
    }
    if is_marker(b) {
        assert(b.subrange(0, 2)[0] == '\\');
    }
    assert forall|i: int| 0 <= i < a.drop_last().len() implies a.drop_last()[i] != '\n' by {
        assert(a.drop_last()[i] == a[i]);
        if i >= 4 {
            assert(a[i] == old_name[i - 4]);
        }
    }
    assert forall|i: int| 0 <= i < b.drop_last().len() implies b.drop_last()[i] != '\n' by {
        assert(b.drop_last()[i] == b[i]);
        if i >= 4 {
            assert(b[i] == new_name[i - 4]);
        }
    }
    let two = seq![a, b];
    assert(two.drop_last() =~= seq![a]);
    lemma_concat_one(a);
}

/// The two lines above the hunks of a diff.
spec fn header_lines(old_name: Seq<char>, new_name: Seq<char>) -> Seq<Seq<char>> {
    seq!["--- "@ + old_name + "\n"@, "+++ "@ + new_name + "\n"@]
}

proof fn lemma_patch_split(hs: Seq<DiffHunk>, old_name: Seq<char>, new_name: Seq<char>)
    requires
        hs.len() > 0,
        plain_hunks(hs),
        !old_name.contains('\n'),
        !new_name.contains('\n'),
    ensures
        ({
            let patch = normalized(split_inclusive(diff_text(hs, old_name, new_name)));
            let pl = header_lines(old_name, new_name) + patch_lines(hs);
            patch == concat(pl) && split_inclusive(patch) == pl
        }),
{
    let raw = diff_text(hs, old_name, new_name);
    let patch = normalized(split_inclusive(raw));
    lemma_file_lines(old_name, new_name);
    lemma_hunk_lines(hs);
    let two = header_lines(old_name, new_name);
    let a = two[0];
    let full = two + raw_lines(hs);
    lemma_concat_add(two, raw_lines(hs));
    assert(raw == concat(full));
    lemma_all_lines_add(two, raw_lines(hs));
    lemma_split_of_lines(full, Seq::empty());
    assert(concat(full) + Seq::<char>::empty() =~= concat(full));
    assert(full + split_inclusive(Seq::empty()) =~= full);
    assert(full[0] == a);
    lemma_normalized(full);
    lemma_without_markers_add(two, raw_lines(hs));
    assert(without_markers(two) =~= two) by {
        assert(two.drop_last() =~= seq![a]);
        assert(seq![a].drop_last() =~= Seq::empty());
        assert(without_markers(Seq::<Seq<char>>::empty()) =~= Seq::empty());
        assert(without_markers(seq![a]) =~= seq![a]);
    }
    let pl = two + patch_lines(hs);
    assert(patch == concat(pl));
    lemma_all_lines_add(two, patch_lines(hs));
    lemma_split_of_lines(pl, Seq::empty());
    assert(concat(pl) + Seq::<char>::empty() =~= concat(pl));
    assert(pl + split_inclusive(Seq::empty()) =~= pl);
}

/// The patch of a diff is read back as the hunks of the diff.
proof fn lemma_patch_is_read(hs: Seq<DiffHunk>, old_name: Seq<char>, new_name: Seq<char>)
    requires
        hs.len() > 0,
        plain_hunks(hs),
        !old_name.contains('\n'),
        !new_name.contains('\n'),
    ensures
        ({
            let patch = normalized(split_inclusive(diff_text(hs, old_name, new_name)));
            patch.len() > 0 && parsed_hunks(patch) == Ok::<Seq<HunkView>, Seq<char>>(parsed_all(hs))
        }),
{
    lemma_patch_split(hs, old_name, new_name);
    lemma_file_lines(old_name, new_name);
    let two = header_lines(old_name, new_name);
    let pl = two + patch_lines(hs);
    assert(pl.skip(2) =~= patch_lines(hs));
    lemma_concat_add(two, patch_lines(hs));
    lemma_headers_skipped(old_name, new_name, hs);
    lemma_hunks_read_back(hs, Seq::empty());
    assert(patch_lines(hs) + Seq::<Seq<char>>::empty() =~= patch_lines(hs));
    assert(parsed_all(hs) + Seq::<HunkView>::empty() =~= parsed_all(hs));
}

proof fn lemma_headers_skipped(old_name: Seq<char>, new_name: Seq<char>, hs: Seq<DiffHunk>)
    requires
        hs.len() > 0,
        plain_hunks(hs),
        !old_name.contains('\n'),
        !new_name.contains('\n'),
    ensures
        skip_file_headers(header_lines(old_name, new_name) + patch_lines(hs)) == patch_lines(hs),
        concat(header_lines(old_name, new_name)).len() > 0,
{
    lemma_file_lines(old_name, new_name);
    lemma_patch_lines_start(hs);
    let two = header_lines(old_name, new_name);
    let pl = two + patch_lines(hs);
    assert(pl[0] == two[0]);
    assert(pl.skip(1)[0] == two[1]);
    assert(pl.skip(1).skip(1) =~= patch_lines(hs));
    assert(skip_file_headers(pl) == skip_file_headers(pl.skip(1)));
    assert(skip_file_headers(pl.skip(1)) == skip_file_headers(patch_lines(hs)));
    reveal_strlit("--- ");
    lemma_concat_one(two[0]);
    assert(two.drop_last() =~= seq![two[0]]);
}

/// A patch whose hunks turn one text into another gives the other text when it is applied to the
/// first. Only a line feed at the end may be added, where the other text has none.
///
/// This holds where no carriage return stands alone in either text and the file names hold no line
/// feed.
pub proof fn law_patch_round_trip(
    original: Seq<char>,
    modified: Seq<char>,
    hs: Seq<DiffHunk>,
    old_name: Seq<char>,
    new_name: Seq<char>,
)
    requires
        is_edit_script(diff_lines(original), diff_lines(modified), hs),
        no_lone_cr(original),
        no_lone_cr(modified),
        !old_name.contains('\n'),
        !new_name.contains('\n'),
        original.len() < usize::MAX,
    ensures
        patched(
            original,
            normalized(split_inclusive(diff_text(hs, old_name, new_name))),
        ) matches Ok(t) && same_up_to_final_newline(t, modified),
{
    let old_lines = split_inclusive(original);
    let new_lines = split_inclusive(modified);
    lemma_diff_lines(original);
    lemma_diff_lines(modified);
    lemma_lines_plain(original);
    lemma_lines_plain(modified);
    lemma_line_count(original);
    lemma_script_plain(old_lines, new_lines, hs);
    let raw = diff_text(hs, old_name, new_name);
    let patch = normalized(split_inclusive(raw));
    if hs.len() == 0 {
        assert(split_inclusive(raw) =~= Seq::empty());
        assert(old_lines.skip(0) =~= old_lines);
        assert(new_lines.skip(0) =~= new_lines);
        lemma_split_inclusive_concat(original);
        lemma_split_inclusive_concat(modified);
    } else {
        lemma_patch_is_read(hs, old_name, new_name);
        lemma_after_hunks(old_lines, new_lines, hs);
        let st = after_hunks(old_lines, parsed_all(hs))->Ok_0;
        let out = st.output + old_lines.skip(st.pos);
        assert(same_lines(out, new_lines)) by {
            assert forall|i: int| 0 <= i < out.len() implies #[trigger] out[i] == new_lines[i]
                || out[i] == closed_line(new_lines[i]) by {
                if i < st.output.len() {
                    assert(out[i] == st.output[i]);
                    assert(new_lines.take(new_end(hs))[i] == new_lines[i]);
                } else {
                    let j = i - st.output.len();
                    assert(out[i] == old_lines.skip(st.pos)[j]);
                    assert(new_lines.skip(new_end(hs))[j] == new_lines[i]);
                }
            }
            assert(old_lines.skip(st.pos).len() == new_lines.skip(new_end(hs)).len());
        }
        lemma_concat_same_lines(out, modified);
        assert(patch.len() > 0);
    }
}

/// A text has no more lines than characters.
proof fn lemma_line_count(s: Seq<char>)
    ensures
        split_inclusive(s).len() <= s.len(),
    decreases s.len(),
{
    if s.len() > 0 {
        let k = until_char(s, '\n') as int;
        if k < s.len() {
            lemma_line_count(s.skip(k + 1));
        }
    }
}

proof fn lemma_patch_lines_start(hs: Seq<DiffHunk>)
    requires
        plain_hunks(hs),
        hs.len() > 0,
    ensures
        patch_lines(hs).len() > 0,
        is_hunk_header(patch_lines(hs)[0]),
        !is_file_header(patch_lines(hs)[0]),
    decreases hs.len(),
{
    let init = hs.drop_last();
    assert(hs.last() == hs[hs.len() - 1]);
    lemma_header(hs.last());
    if init.len() > 0 {
        assert forall|i: int| 0 <= i < init.len() implies plain_changes((#[trigger] init[i]).changes)
            && init[i].old_start + 1 <= usize::MAX by {
            assert(init[i] == hs[i]);
        }
        lemma_patch_lines_start(init);
        assert(patch_lines(hs)[0] == patch_lines(init)[0]);
    } else {
        assert(patch_lines(init).len() == 0);
        assert(patch_lines(hs)[0] == header_text(hs.last()));
    }
}

/// The lines that are compared make up the text.
proof fn lemma_diff_lines_concat(s: Seq<char>)
    ensures
        concat(diff_lines(s)) == s,
    decreases s.len(),
{
    if s.len() > 0 {
        let k = first_break(s, 0);
        if 0 <= k < s.len() {
            let rest = s.skip(k + 1);
            lemma_diff_lines_concat(rest);
            lemma_concat_add(seq![s.take(k + 1)], diff_lines(rest));
            lemma_concat_one(s.take(k + 1));
            assert(s =~= s.take(k + 1) + rest);
        } else {
            lemma_concat_one(s);
        }
    }
}

/// Texts that differ have a diff with a hunk.
pub proof fn lemma_script_not_empty(
    original: Seq<char>,
    modified: Seq<char>,
    hs: Seq<DiffHunk>,
)
    requires
        is_edit_script(diff_lines(original), diff_lines(modified), hs),
        original != modified,
    ensures
        hs.len() > 0,
{
    if hs.len() == 0 {
        assert(diff_lines(original).skip(0) =~= diff_lines(original));
        assert(diff_lines(modified).skip(0) =~= diff_lines(modified));
        lemma_diff_lines_concat(original);
        lemma_diff_lines_concat(modified);
    }
}

/// A patch text that is not empty ends in a line feed.
pub proof fn lemma_normalized_end(ls: Seq<Seq<char>>)
    requires
        ls.len() > 0,
    ensures
        normalized(ls).len() > 0,
        normalized(ls).last() == '\n',
{
    let acc = normalized(ls.drop_last());
    let l = ls.last();
    if l.len() > 0 && l.last() == '\n' && !is_marker(l) {
        assert((acc + l).last() == l.last());
    }
}

/// More lines of a diff make a longer patch text.
pub proof fn lemma_normalized_prefix(a: Seq<Seq<char>>, b: Seq<Seq<char>>)
    ensures
        starts_with(normalized(a + b), normalized(a)),
    decreases b.len(),
{
    let whole = normalized(a + b);
    let start = normalized(a);
    if b.len() == 0 {
        assert(a + b =~= a);
        assert(whole.subrange(0, start.len() as int) =~= start);
    } else {
        assert((a + b).drop_last() =~= a + b.drop_last());
        lemma_normalized_prefix(a, b.drop_last());
        let mid = normalized(a + b.drop_last());
        assert(whole.subrange(0, start.len() as int) =~= start) by {
            assert forall|i: int| 0 <= i < start.len() implies whole[i] == start[i] by {
                assert(whole[i] == mid[i]);
                assert(mid.subrange(0, start.len() as int)[i] == start[i]);
            }
        }
    }
}

/// A diff with a hunk has the header of its first hunk behind the names of the files.
proof fn lemma_hunks_text_start(hs: Seq<DiffHunk>) -> (rest: Seq<char>)
    requires
        hs.len() > 0,
    ensures
        hunks_text(hs) == header_text(hs[0]) + rest,
    decreases hs.len(),
{
    let init = hs.drop_last();
    let last = header_text(hs.last()) + changes_text(hs.last().changes);
    if init.len() == 0 {
        assert(hunks_text(init).len() == 0);
        assert(hs.last() == hs[0]);
        assert(hunks_text(hs) =~= header_text(hs[0]) + changes_text(hs[0].changes));
        changes_text(hs[0].changes)
    } else {
        let rest = lemma_hunks_text_start(init);
        assert(init[0] == hs[0]);
        assert(hunks_text(hs) =~= header_text(hs[0]) + (rest + last));
        rest + last
    }
}

/// The patch of a diff with a hunk starts with the names of the files and the header of a hunk.
pub proof fn lemma_patch_names_files(hs: Seq<DiffHunk>, old_name: Seq<char>, new_name: Seq<char>)
    requires
        hs.len() > 0,
        !old_name.contains('\n'),
        !new_name.contains('\n'),
    ensures
        starts_with(
            normalized(split_inclusive(diff_text(hs, old_name, new_name))),
            file_header(old_name, new_name) + "@@ -"@,
        ),
{
    lemma_file_lines(old_name, new_name);
    let a = "--- "@ + old_name + "\n"@;
    let b = "+++ "@ + new_name + "\n"@;
    let two = seq![a, b];
    let c = header_text(hs[0]);
    let three = two.push(c);
    let rest = lemma_hunks_text_start(hs);
    lemma_header_line(hs[0]);
    assert(three.drop_last() =~= two);
    assert(diff_text(hs, old_name, new_name) =~= concat(three) + rest);
    lemma_split_of_lines(three, rest);
    lemma_normalized(three);
    assert(without_markers(three) =~= three) by {
        assert(two.drop_last() =~= seq![a]);
        assert(seq![a].drop_last() =~= Seq::empty());
        assert(without_markers(Seq::<Seq<char>>::empty()) =~= Seq::empty());
        assert(without_markers(seq![a]) =~= seq![a]);
        assert(without_markers(two) =~= two);
    }
    lemma_normalized_prefix(three, split_inclusive(rest));
    let patch = normalized(split_inclusive(diff_text(hs, old_name, new_name)));
    let start = file_header(old_name, new_name) + "@@ -"@;
    assert(concat(three) == file_header(old_name, new_name) + c);
    let n = file_header(old_name, new_name).len() as int;
    assert(patch.subrange(0, start.len() as int) =~= start) by {
        assert forall|i: int| 0 <= i < start.len() implies patch[i] == start[i] by {
            assert(patch.subrange(0, concat(three).len() as int)[i] == concat(three)[i]);
            if i >= n {
                assert(concat(three)[i] == c[i - n]);
                assert(c.subrange(0, "@@ -"@.len() as int)[i - n] == "@@ -"@[i - n]);
            }
        }
    }
}

/// The lines that a patch text keeps of a diff.
spec fn kept_lines(ls: Seq<Seq<char>>) -> Seq<Seq<char>>
    decreases ls.len(),
{
    if ls.len() == 0 {
        Seq::empty()
    } else {
        let kept = kept_lines(ls.drop_last());
        if !is_marker(ls.last()) {
            kept.push(closed_line(ls.last()))
        } else if kept.len() == 0 {
            kept.push(seq!['\n'])
        } else {
            kept
        }
    }
}

proof fn lemma_kept_lines(ls: Seq<Seq<char>>)
    requires
        forall|i: int| 0 <= i < ls.len() ==> is_line(#[trigger] ls[i]) || is_open_line(ls[i]),
    ensures
        all_lines(kept_lines(ls)),
        forall|i: int| 0 <= i < kept_lines(ls).len() ==> !is_marker(#[trigger] kept_lines(ls)[i]),
        normalized(ls) == concat(kept_lines(ls)),
        kept_lines(ls).len() > 0 ==> normalized(ls).len() > 0 && normalized(ls).last() == '\n',
    decreases ls.len(),
{
    if ls.len() > 0 {
        let init = ls.drop_last();
        let l = ls.last();
        assert(l == ls[ls.len() - 1]);
        assert forall|i: int| 0 <= i < init.len() implies is_line(#[trigger] init[i])
            || is_open_line(init[i]) by {
            assert(init[i] == ls[i]);
        }
        lemma_kept_lines(init);
        let kept = kept_lines(init);
        reveal_strlit("\\ ");
        if is_marker(l) {
            if kept.len() == 0 {
                let e = seq!['\n'];
                assert(e.drop_last() =~= Seq::empty());
                assert(kept.push(e).drop_last() =~= kept);
                assert(normalized(ls) =~= concat(kept.push(e)));
            }
        } else {
            let c = closed_line(l);
            assert(is_line(c)) by {
                if is_open_line(l) {
                    assert(l.last() != '\n') by {
                        if l.last() == '\n' {
                            assert(l.contains('\n'));
                        }
                    }
                    assert(c.drop_last() =~= l);
                }
            }
            assert(!is_marker(c)) by {
                if is_marker(c) {
                    if c != l {
                        assert(c.subrange(0, 2)[1] == ' ');
                        assert(l.len() >= 2);
                        assert(l.subrange(0, 2) =~= c.subrange(0, 2));
                    }
                }
            }
            assert(kept.push(c).drop_last() =~= kept);
            assert(normalized(ls) =~= normalized(init) + c);
        }
    }
}

/// No line of a patch text is a marker.
pub proof fn lemma_no_markers(raw: Seq<char>)
    ensures
        no_markers(normalized(split_inclusive(raw))),
{
    let ls = split_inclusive(raw);
    lemma_lines_shape(raw);
    assert forall|i: int| 0 <= i < ls.len() implies is_line(#[trigger] ls[i]) || is_open_line(ls[i])
        by {
        if i == ls.len() - 1 {
            assert(ls[i] == ls.last());
        }
    }
    lemma_kept_lines(ls);
    let kept = kept_lines(ls);
    lemma_split_of_lines(kept, Seq::empty());
    assert(concat(kept) + Seq::<char>::empty() =~= concat(kept));
    assert(kept + split_inclusive(Seq::empty()) =~= kept);
}

// ---------------------------------------------------------------------------
// Texts whose lines have moved
// ---------------------------------------------------------------------------

/// Whether lines stand in a text from position `c` on, and not before position `from`.
pub open spec fn stands(ls: Seq<Seq<char>>, from: int, expected: Seq<Seq<char>>, c: int) -> bool {
    &&& 0 <= c
    &&& from <= c
    &&& c + expected.len() <= ls.len()
    &&& forall|i: int| 0 <= i < expected.len() ==> trim_newlines(ls[c + i]) == #[trigger] expected[i]
}

/// Lines without their ends.
pub open spec fn bare_lines(ls: Seq<Seq<char>>) -> Seq<Seq<char>> {
    ls.map_values(|l: Seq<char>| trim_newlines(l))
}

/// How far two positions are apart.
pub open spec fn apart(c: int, start: int) -> int {
    if c >= start {
        c - start
    } else {
        start - c
    }
}

proof fn lemma_nearest(
    ls: Seq<Seq<char>>,
    from: int,
    expected: Seq<Seq<char>>,
    start: int,
    delta: int,
)
    requires
        delta > 0,
    ensures
        match nearest(ls, from, expected, start, delta) {
            Some(p) => {
                &&& stands(ls, from, expected, p)
                &&& delta <= apart(p, start) < 100
                &&& forall|c: int| #[trigger]
                    stands(ls, from, expected, c) && apart(c, start) >= delta ==> apart(p, start)
                        <= apart(c, start) && (apart(p, start) == apart(c, start) ==> c <= p)
            },
            None => forall|c: int| #[trigger]
                stands(ls, from, expected, c) ==> apart(c, start) < delta || apart(c, start) >= 100,
        },
    decreases 100 - delta,
{
    if delta < 100 {
        lemma_nearest(ls, from, expected, start, delta + 1);
        assert forall|c: int| #[trigger] stands(ls, from, expected, c) && apart(c, start)
            == delta implies fits(ls, from, expected, c) && (c == start + delta || c == start
            - delta) by {}
    }
}

/// A hunk is applied wherever the lines it expects stand less than a hundred lines from where its
/// header says, earlier or later, but not before the end of the hunk in front of it. Of such places
/// the nearest is taken, and of two as near as each other the later one.
pub proof fn law_nearest_place(
    ls: Seq<Seq<char>>,
    from: int,
    expected: Seq<Seq<char>>,
    start: int,
)
    ensures
        match position(ls, from, expected, start) {
            Some(p) => {
                &&& stands(ls, from, expected, p)
                &&& apart(p, start) < 100
                &&& forall|c: int| #[trigger]
                    stands(ls, from, expected, c) ==> apart(p, start) <= apart(c, start) && (apart(
                        p,
                        start,
                    ) == apart(c, start) ==> c <= p)
            },
            None => forall|c: int| #[trigger]
                stands(ls, from, expected, c) ==> apart(c, start) >= 100,
        },
{
    lemma_nearest(ls, from, expected, start, 1);
    if stands(ls, from, expected, start) {
        assert(fits(ls, from, expected, start));
    }
}

/// A hunk applies exactly where the lines it expects stand less than a hundred lines from where its
/// header says, behind the hunks before it. The lines in front of that place stay as they are.
pub proof fn law_hunk_applies(ls: Seq<Seq<char>>, hs: Seq<HunkView>, i: int)
    requires
        0 <= i < hs.len(),
        after_hunks(ls, hs.take(i)) is Ok,
    ensures
        ({
            let before = after_hunks(ls, hs.take(i))->Ok_0;
            let expected = context(hs[i].body);
            let start = hs[i].start as int;
            let after = after_hunks(ls, hs.take(i + 1));
            &&& after is Ok <==> exists|c: int| #[trigger]
                stands(ls, before.pos, expected, c) && apart(c, start) < 100
            &&& after matches Ok(st) ==> exists|p: int|
                {
                    &&& #[trigger] stands(ls, before.pos, expected, p)
                    &&& forall|c: int| #[trigger]
                        stands(ls, before.pos, expected, c) ==> apart(p, start) <= apart(c, start)
                    &&& st == after_body(
                        ls,
                        Progress {
                            output: before.output + ls.subrange(before.pos, p),
                            pos: p,
                        },
                        hs[i].body,
                    )
                }
        }),
{
    let upto = hs.take(i + 1);
    assert(upto.drop_last() =~= hs.take(i));
    assert(upto.last() == hs[i]);
    let before = after_hunks(ls, hs.take(i))->Ok_0;
    let expected = context(hs[i].body);
    let start = hs[i].start as int;
    law_nearest_place(ls, before.pos, expected, start);
}

/// The lines of one side of a hunk, each with an end.
spec fn closed_lines(ls: Seq<Seq<char>>) -> bool {
    forall|i: int| 0 <= i < ls.len() ==> is_line(#[trigger] ls[i])
}

/// A patch of one hunk finds its lines again in a text in which they have moved: behind any other
/// lines and in front of anything, they become the new lines, and the rest stays as it is.
///
/// They are found less than a hundred lines from where they stood, earlier or later, where they do
/// not stand in another place as near.
pub proof fn law_patch_follows_moved_lines(
    h: DiffHunk,
    old_name: Seq<char>,
    new_name: Seq<char>,
    before: Seq<Seq<char>>,
    behind: Seq<char>,
)
    requires
        forall|i: int| 0 <= i < before.len() ==> is_line(#[trigger] before[i]),
        forall|i: int| 0 <= i < h.changes.len() ==> is_line((#[trigger] h.changes[i]).line),
        !old_name.contains('\n'),
        !new_name.contains('\n'),
        h.old_start < usize::MAX,
        apart(before.len() as int, h.old_start as int) < 100,
        forall|c: int| #[trigger]
            stands(
                split_inclusive(concat(before) + concat(old_side(h.changes)) + behind),
                0,
                bare_lines(old_side(h.changes)),
                c,
            ) && c != before.len() ==> apart(c, h.old_start as int) > apart(
                before.len() as int,
                h.old_start as int,
            ),
    ensures
        patched(
            concat(before) + concat(old_side(h.changes)) + behind,
            normalized(split_inclusive(diff_text(seq![h], old_name, new_name))),
        ) == Ok::<Seq<char>, Seq<char>>(concat(before) + concat(new_side(h.changes)) + behind),
{
    let cs = h.changes;
    let old = old_side(cs);
    let new = new_side(cs);
    let text = concat(before) + concat(old) + behind;
    let hs = seq![h];
    let p = before.len() as int;
    assert(plain_changes(cs)) by {
        assert forall|i: int| 0 <= i < cs.len() implies plain((#[trigger] cs[i]).line) by {}
    }
    assert(plain_hunks(hs));
    lemma_patch_is_read(hs, old_name, new_name);
    lemma_sides_are_lines(cs);
    // the lines of the text
    let head = before + old;
    lemma_concat_add(before, old);
    lemma_split_of_lines(head, behind);
    let ls = split_inclusive(text);
    assert(ls == head + split_inclusive(behind));
    assert(ls.subrange(p, p + old.len()) =~= old);
    // the place
    let ctx = context(body_lines(cs));
    lemma_context_is_old_side(cs);
    let expected = bare_lines(old);
    assert(ctx =~= expected);
    assert(stands(ls, 0, ctx, p)) by {
        assert forall|i: int| 0 <= i < ctx.len() implies trim_newlines(ls[p + i])
            == #[trigger] ctx[i] by {
            assert(ls.subrange(p, p + old.len())[i] == old[i]);
        }
    }
    law_nearest_place(ls, 0, ctx, h.old_start as int);
    assert(position(ls, 0, ctx, h.old_start as int) == Some(p));
    // what is written
    assert(parsed_all(hs) =~= seq![parsed_hunk(h)]);
    assert(parsed_all(hs).drop_last() =~= Seq::empty());
    let st = Progress { output: Seq::<Seq<char>>::empty() + ls.subrange(0, p), pos: p };
    assert(st.output =~= before);
    lemma_after_body(ls, st, cs);
    let r = after_body(ls, st, body_lines(cs));
    assert(after_hunks(ls, Seq::empty()) == Ok::<Progress, Seq<char>>(
        Progress { output: Seq::empty(), pos: 0 },
    ));
    assert(parsed_all(hs).last() == parsed_hunk(h));
    assert(after_hunks(ls, parsed_all(hs)) == Ok::<Progress, Seq<char>>(r));
    let written = r.output.skip(p);
    assert(written =~= new) by {
        assert forall|i: int| 0 <= i < new.len() implies written[i] == new[i] by {
            assert(is_line(new[i]));
            assert(written[i] == new[i] || written[i] == closed_line(new[i]));
        }
    }
    assert(r.output =~= before + new) by {
        assert(r.output =~= r.output.take(p) + written);
    }
    assert(ls.skip(r.pos) =~= split_inclusive(behind));
    lemma_concat_add(before, new);
    lemma_concat_add(before + new, split_inclusive(behind));
    lemma_split_inclusive_concat(behind);
}

proof fn lemma_sides_are_lines(cs: Seq<Change>)
    requires
        forall|i: int| 0 <= i < cs.len() ==> is_line((#[trigger] cs[i]).line),
    ensures
        closed_lines(old_side(cs)),
        closed_lines(new_side(cs)),
    decreases cs.len(),
{
    if cs.len() > 0 {
        let init = cs.drop_last();
        assert forall|i: int| 0 <= i < init.len() implies is_line((#[trigger] init[i]).line) by {
            assert(init[i] == cs[i]);
        }
        assert(cs.last() == cs[cs.len() - 1]);
        lemma_sides_are_lines(init);
    }
}

} // verus!
