//! What writing a manifest and reading it have to do with each other.

use vstd::prelude::*;
use crate::commands::add::{appended, closed_text, with_entry};
use crate::commands::remove::{declares, first_index, without_entry, without_first, without_line};
use crate::commands::sort::{
    canonical_lines, canonical_text, comments_in, entry_comments, entry_fields, entry_line,
    has_space, headers_of, in_order, law_in_order, lines_of_entries, lines_of_entry,
    lines_of_groups, of_type, repo_groups, section_lines, source_fields, target_line, target_lines,
    written_field, written_fields, INSTALL_COMMENT,
};
use crate::lines::{
    is_line, lemma_lines_shape, lemma_split_of_lines, lines, split_inclusive, strip_eol,
};
use crate::models::{EntityType, EntryView, ManifestView, SourceView, TargetView};
use crate::parser::{
    before_comment, entry_of_fields, entry_of_line, field_of, fields, fields_from, has_name,
    inferred_name, known_source, law_quoted_text_is_kept, lemma_plain_start, line_fields,
    line_meaning, looks_like_path, manifest_of, manifest_of_lines, text_without_bom, valid_name,
    LineView,
};
use crate::text::{concat, join, starts_with, trim_both, trim_end, trim_start, white_space};

verus! {

// ---------------------------------------------------------------------------
// Entries and targets that can be written
// ---------------------------------------------------------------------------

/// Whether a text can be written as a field: not empty, without quotes and line feeds, and not like
/// a comment.
pub open spec fn writable_field(s: Seq<char>) -> bool {
    s.len() > 0 && s[0] != '#' && !s.contains('"') && !s.contains('\n')
}

/// Whether a text can be written as a field without quotes: not empty, without white space and
/// quotes, and not like a comment.
pub open spec fn plain_field(s: Seq<char>) -> bool {
    s.len() > 0 && s[0] != '#' && forall|i: int|
        0 <= i < s.len() ==> !white_space(#[trigger] s[i]) && s[i] != '"'
}

/// Whether an entry can be written as a line: each field can be written, and the third one is taken for
/// what it is, a name or not.
pub open spec fn writable(e: EntryView) -> bool {
    let third = source_fields(e)[0];
    &&& forall|i: int|
        0 <= i < source_fields(e).len() ==> writable_field(#[trigger] source_fields(e)[i])
    &&& match e.source {
        SourceView::Github { path_in_repo, .. } => third.contains('/') == (e.name == inferred_name(
            path_in_repo,
        )),
        SourceView::Local { path } => looks_like_path(third) == (e.name == inferred_name(path)),
        SourceView::Url { url } => starts_with(third, "http"@) == (e.name == inferred_name(url)),
    }
}

// ---------------------------------------------------------------------------
// Fields of joined fields
// ---------------------------------------------------------------------------

/// What a field looks like when it is written.
proof fn lemma_written_field(f: Seq<char>)
    requires
        writable_field(f),
    ensures
        ({
            let w = written_field(f);
            &&& w.len() > 0
            &&& !w.contains('\n')
            &&& !white_space(w[0])
            &&& !white_space(w.last())
        }),
        plain_field(f) ==> written_field(f) == f,
{
    let w = written_field(f);
    assert forall|i: int| 0 <= i < w.len() implies w[i] != '\n' by {
        if has_space(f) {
            if 0 < i < w.len() - 1 {
                assert(w[i] == f[i - 1]);
                assert(f.contains(f[i - 1]));
            }
        } else {
            assert(f.contains(f[i]));
        }
    }
    if !has_space(f) {
        assert(!white_space(f[0]));
        assert(!white_space(f[f.len() - 1]));
    }
}

/// A field that is written is read as it was.
proof fn lemma_field_is_read(f: Seq<char>, rest: Seq<char>)
    requires
        writable_field(f),
    ensures
        fields_from(Seq::empty(), false, written_field(f) + rest) == fields_from(f, false, rest),
{
    assert(Seq::<char>::empty() + f =~= f);
    if has_space(f) {
        law_quoted_text_is_kept(Seq::empty(), f, rest);
    } else {
        assert forall|i: int| 0 <= i < f.len() implies !white_space(#[trigger] f[i]) && f[i] != '"'
            by {
            assert(f.contains(f[i]));
        }
        lemma_plain_start(Seq::empty(), f, rest);
    }
}

/// The fields of fields that are written one after another are the fields.
proof fn lemma_written_fields(fs: Seq<Seq<char>>, tail: Seq<char>)
    requires
        fs.len() > 0,
        forall|i: int| 0 <= i < fs.len() ==> writable_field(#[trigger] fs[i]),
        tail.len() > 0 ==> white_space(tail[0]) && tail[0] != '"',
    ensures
        fields_from(Seq::empty(), false, join(written_fields(fs), "  "@) + tail) == fs
            + fields_from(Seq::empty(), false, tail),
        !join(written_fields(fs), "  "@).contains('\n'),
        join(written_fields(fs), "  "@).len() > 0,
        join(written_fields(fs), "  "@)[0] == written_field(fs[0])[0],
        !white_space(join(written_fields(fs), "  "@).last()),
    decreases fs.len(),
{
    reveal_strlit("  ");
    let ws = written_fields(fs);
    let line = join(ws, "  "@);
    let l = fs.last();
    let w = written_field(l);
    let init = fs.drop_last();
    assert(l == fs[fs.len() - 1]);
    assert(ws.last() == w);
    lemma_written_field(l);
    lemma_field_is_read(l, tail);
    // the last field ends where the tail starts
    let after = fields_from(Seq::empty(), false, tail);
    assert(fields_from(l, false, tail) =~= seq![l] + after) by {
        if tail.len() > 0 {
            let more = fields_from(Seq::empty(), false, tail.skip(1));
            assert(after =~= field_of(Seq::empty()) + more);
            assert(after =~= more);
        } else {
            assert(after =~= Seq::empty());
        }
    }
    if fs.len() == 1 {
        assert(line == w);
        assert(fs =~= seq![l]);
    } else {
        assert forall|i: int| 0 <= i < init.len() implies writable_field(#[trigger] init[i]) by {
            assert(init[i] == fs[i]);
        }
        assert(ws.drop_last() =~= written_fields(init));
        let a = join(written_fields(init), "  "@);
        let one = w + tail;
        let two = seq![' '] + one;
        let three = seq![' '] + two;
        assert(line + tail =~= a + three);
        lemma_written_fields(init, three);
        assert(init[0] == fs[0]);
        assert(three.skip(1) =~= two);
        assert(two.skip(1) =~= one);
        assert(fields_from(Seq::empty(), false, three) =~= fields_from(Seq::empty(), false, two));
        assert(fields_from(Seq::empty(), false, two) =~= fields_from(Seq::empty(), false, one));
        assert(init + (seq![l] + after) =~= fs + after);
        assert forall|i: int| 0 <= i < line.len() implies line[i] != '\n' by {
            if i < a.len() {
                assert(line[i] == a[i]);
                assert(a.contains(a[i]));
            } else if i >= a.len() + 2 {
                assert(line[i] == w[i - a.len() - 2]);
                assert(w.contains(w[i - a.len() - 2]));
            }
        }
    }
}

proof fn lemma_no_comment(fs: Seq<Seq<char>>)
    requires
        forall|i: int| 0 <= i < fs.len() ==> writable_field(#[trigger] fs[i]),
    ensures
        before_comment(fs) == fs.len(),
    decreases fs.len(),
{
    if fs.len() > 0 {
        let rest = fs.skip(1);
        assert forall|i: int| 0 <= i < rest.len() implies writable_field(#[trigger] rest[i]) by {
            assert(rest[i] == fs[i + 1]);
        }
        lemma_no_comment(rest);
    }
}

/// The fields of the line that fields are written to are the fields.
proof fn lemma_fields_of_join(fs: Seq<Seq<char>>)
    requires
        fs.len() > 0,
        forall|i: int| 0 <= i < fs.len() ==> writable_field(#[trigger] fs[i]),
    ensures
        line_fields(join(written_fields(fs), "  "@)) == fs,
{
    let line = join(written_fields(fs), "  "@);
    lemma_written_fields(fs, Seq::empty());
    assert(line + Seq::<char>::empty() =~= line);
    assert(fields_from(Seq::empty(), false, Seq::empty()) =~= Seq::empty());
    assert(fields(line) =~= fs);
    lemma_no_comment(fs);
    assert(fs.take(fs.len() as int) =~= fs);
}

/// Each field of a line that is read can be written.
pub proof fn law_parsed_fields_are_writable(line: Seq<char>, i: int)
    requires
        !line.contains('\n'),
        0 <= i < line_fields(line).len(),
    ensures
        writable_field(line_fields(line)[i]),
{
    lemma_fields_hold_no_quote(Seq::empty(), false, line);
    lemma_before_comment(fields(line));
    assert(line_fields(line)[i] == fields(line)[i]);
}

/// Whether no field is empty or holds a quote or a line feed.
spec fn hold_no_quote(fs: Seq<Seq<char>>) -> bool {
    forall|i: int|
        0 <= i < fs.len() ==> (#[trigger] fs[i]).len() > 0 && !fs[i].contains('"')
            && !fs[i].contains('\n')
}

proof fn lemma_fields_hold_no_quote(current: Seq<char>, in_quotes: bool, rest: Seq<char>)
    requires
        !current.contains('"'),
        !current.contains('\n'),
        !rest.contains('\n'),
    ensures
        hold_no_quote(fields_from(current, in_quotes, rest)),
    decreases rest.len(),
{
    if rest.len() == 0 {
        assert(hold_no_quote(field_of(current)));
    } else {
        let c = rest[0];
        let tail = rest.skip(1);
        assert(rest.contains(c));
        assert forall|i: int| 0 <= i < tail.len() implies tail[i] != '\n' by {
            assert(rest.contains(rest[i + 1]));
        }
        if c == '"' {
            lemma_fields_hold_no_quote(current, !in_quotes, tail);
        } else if white_space(c) && !in_quotes {
            lemma_fields_hold_no_quote(Seq::empty(), in_quotes, tail);
            let all = fields_from(current, in_quotes, rest);
            let first = field_of(current);
            let more = fields_from(Seq::empty(), in_quotes, tail);
            assert forall|i: int| 0 <= i < all.len() implies (#[trigger] all[i]).len() > 0
                && !all[i].contains('"') && !all[i].contains('\n') by {
                if i >= first.len() {
                    assert(all[i] == more[i - first.len()]);
                }
            }
        } else {
            let next = current.push(c);
            assert forall|i: int| 0 <= i < next.len() implies next[i] != '"' && next[i] != '\n' by {
                if i < current.len() {
                    assert(current.contains(current[i]));
                }
            }
            lemma_fields_hold_no_quote(next, in_quotes, tail);
        }
    }
}

/// No field before a comment starts one.
pub proof fn lemma_before_comment(parts: Seq<Seq<char>>)
    ensures
        before_comment(parts) <= parts.len(),
        forall|i: int|
            0 <= i < before_comment(parts) ==> !((#[trigger] parts[i]).len() > 0 && parts[i][0]
                == '#'),
    decreases parts.len(),
{
    if parts.len() > 0 && !(parts[0].len() > 0 && parts[0][0] == '#') {
        let rest = parts.skip(1);
        lemma_before_comment(rest);
        assert forall|i: int| 0 <= i < before_comment(parts) implies !((#[trigger] parts[i]).len()
            > 0 && parts[i][0] == '#') by {
            if i > 0 {
                assert(parts[i] == rest[i - 1]);
            }
        }
    }
}

proof fn lemma_words_are_plain(e: EntryView)
    ensures
        writable_field(e.source.word()),
        written_field(e.source.word()) == e.source.word(),
        writable_field(e.entity_type.word()),
        known_source(e.source.word()),
{
    reveal_strlit("github");
    reveal_strlit("local");
    reveal_strlit("url");
    reveal_strlit("skill");
    reveal_strlit("agent");
}

proof fn lemma_entry_fields_plain(e: EntryView)
    requires
        writable(e),
    ensures
        forall|i: int|
            0 <= i < entry_fields(e).len() ==> writable_field(#[trigger] entry_fields(e)[i]),
        entry_fields(e).len() >= 3,
{
    lemma_words_are_plain(e);
    let fs = entry_fields(e);
    assert forall|i: int| 0 <= i < fs.len() implies writable_field(#[trigger] fs[i]) by {
        if i >= 2 {
            assert(fs[i] == source_fields(e)[i - 2]);
        }
    }
}

proof fn lemma_entry_of_own_fields(e: EntryView)
    requires
        writable(e),
    ensures
        entry_of_fields(entry_fields(e)) == Ok::<EntryView, Seq<char>>(e),
{
    let fs = entry_fields(e);
    crate::models::law_entity_type_words(e.entity_type, e.entity_type, fs[1]);
    reveal_strlit("github");
    reveal_strlit("local");
    reveal_strlit("url");
    assert("github"@.len() == 6 && "local"@.len() == 5 && "url"@.len() == 3);
    assert(fs[1] == e.entity_type.word());
    assert(fs[2] == source_fields(e)[0]);
}

/// An entry that is written as a line is read back as it was.
pub proof fn law_entry_line_round_trip(e: EntryView)
    requires
        writable(e),
    ensures
        entry_of_line(entry_line(e)) == Some(e),
{
    lemma_entry_fields_plain(e);
    lemma_fields_of_join(entry_fields(e));
    lemma_words_are_plain(e);
    lemma_entry_of_own_fields(e);
}

// ---------------------------------------------------------------------------
// Trimming
// ---------------------------------------------------------------------------

pub proof fn lemma_trim_start_at(s: Seq<char>, k: int)
    requires
        0 <= k <= s.len(),
        forall|j: int| 0 <= j < k ==> white_space(#[trigger] s[j]),
        k < s.len() ==> !white_space(s[k]),
    ensures
        trim_start(s) == s.skip(k),
    decreases k,
{
    if k == 0 {
        assert(s.skip(0) =~= s);
    } else {
        let t = s.skip(1);
        assert forall|j: int| 0 <= j < k - 1 implies white_space(#[trigger] t[j]) by {
            assert(t[j] == s[j + 1]);
        }
        lemma_trim_start_at(t, k - 1);
        assert(t.skip(k - 1) =~= s.skip(k));
    }
}

proof fn lemma_trim_start_index(s: Seq<char>) -> (k: int)
    ensures
        0 <= k <= s.len(),
        forall|j: int| 0 <= j < k ==> white_space(#[trigger] s[j]),
        k < s.len() ==> !white_space(s[k]),
        trim_start(s) == s.skip(k),
    decreases s.len(),
{
    if s.len() > 0 && white_space(s[0]) {
        let t = s.skip(1);
        let k = lemma_trim_start_index(t);
        assert forall|j: int| 0 <= j < k + 1 implies white_space(#[trigger] s[j]) by {
            if j > 0 {
                assert(s[j] == t[j - 1]);
            }
        }
        assert(t.skip(k) =~= s.skip(k + 1));
        k + 1
    } else {
        assert(s.skip(0) =~= s);
        0
    }
}

/// Taking white space off the end leaves the start.
pub proof fn lemma_trim_end_prefix(s: Seq<char>)
    ensures
        trim_end(s).len() <= s.len(),
        trim_end(s) == s.take(trim_end(s).len() as int),
        forall|j: int| trim_end(s).len() <= j < s.len() ==> white_space(#[trigger] s[j]),
        trim_end(s).len() > 0 ==> !white_space(trim_end(s).last()),
    decreases s.len(),
{
    if s.len() > 0 && white_space(s.last()) {
        let t = s.drop_last();
        lemma_trim_end_prefix(t);
        assert(t.take(trim_end(t).len() as int) =~= s.take(trim_end(t).len() as int));
        assert forall|j: int| trim_end(s).len() <= j < s.len() implies white_space(
            #[trigger] s[j],
        ) by {
            if j < t.len() {
                assert(s[j] == t[j]);
            }
        }
    } else {
        assert(s.take(s.len() as int) =~= s);
    }
}

/// A text that starts and ends without white space is trimmed already.
proof fn lemma_trimmed_already(s: Seq<char>)
    requires
        s.len() > 0,
        !white_space(s[0]),
        !white_space(s.last()),
    ensures
        trim_both(s) == s,
{
}

/// A text that starts with a character other than white space still does when it is trimmed.
pub proof fn lemma_trim_keeps_first(s: Seq<char>)
    requires
        s.len() > 0,
        !white_space(s[0]),
    ensures
        trim_both(s).len() > 0,
        trim_both(s)[0] == s[0],
        trim_end(s).len() > 0,
        trim_end(s)[0] == s[0],
{
    lemma_trim_end_prefix(s);
    if trim_end(s).len() == 0 {
        assert(white_space(s[0]));
    }
}

// ---------------------------------------------------------------------------
// Lines that are joined
// ---------------------------------------------------------------------------

/// Whether a text can be a line: no line feed in it, no carriage return at its end.
pub open spec fn line_safe(l: Seq<char>) -> bool {
    !l.contains('\n') && (l.len() > 0 ==> l.last() != '\r')
}

pub open spec fn terminated(ls: Seq<Seq<char>>) -> Seq<Seq<char>> {
    ls.map_values(|l: Seq<char>| l.push('\n'))
}

proof fn lemma_join_terminated(ls: Seq<Seq<char>>)
    requires
        ls.len() > 0,
    ensures
        join(ls, "\n"@) + "\n"@ == concat(terminated(ls)),
    decreases ls.len(),
{
    reveal_strlit("\n");
    assert("\n"@ =~= seq!['\n']);
    let t = terminated(ls);
    assert(t.last() == ls.last().push('\n'));
    assert(t.drop_last() =~= terminated(ls.drop_last()));
    if ls.len() == 1 {
        assert(terminated(ls.drop_last()) =~= Seq::empty());
        assert(concat(t.drop_last()) =~= Seq::empty());
        assert(concat(t) =~= ls[0].push('\n'));
        assert(join(ls, "\n"@) + "\n"@ =~= ls[0].push('\n'));
    } else {
        lemma_join_terminated(ls.drop_last());
        assert(join(ls, "\n"@) + "\n"@ =~= concat(t));
    }
}

/// Lines that are joined split into the lines.
pub proof fn lemma_lines_of_join(ls: Seq<Seq<char>>)
    requires
        ls.len() > 0,
        forall|i: int| 0 <= i < ls.len() ==> line_safe(#[trigger] ls[i]),
    ensures
        lines(join(ls, "\n"@) + "\n"@) == ls,
{
    lemma_join_terminated(ls);
    let t = terminated(ls);
    assert forall|i: int| 0 <= i < t.len() implies is_line(#[trigger] t[i]) by {
        assert(t[i] == ls[i].push('\n'));
        assert(t[i].drop_last() =~= ls[i]);
        assert(line_safe(ls[i]));
    }
    lemma_split_of_lines(t, Seq::empty());
    assert(concat(t) + Seq::<char>::empty() =~= concat(t));
    assert(t + split_inclusive(Seq::empty()) =~= t);
    let r = lines(concat(t));
    assert forall|i: int| 0 <= i < r.len() implies r[i] == ls[i] by {
        assert(r[i] == strip_eol(t[i]));
        assert(t[i] == ls[i].push('\n'));
        assert(t[i].drop_last() =~= ls[i]);
        assert(line_safe(ls[i]));
    }
    assert(r =~= ls);
}

// ---------------------------------------------------------------------------
// What lines declare
// ---------------------------------------------------------------------------

/// The entries that lines declare.
pub open spec fn entries_in(ls: Seq<Seq<char>>) -> Seq<EntryView>
    decreases ls.len(),
{
    if ls.len() == 0 {
        Seq::empty()
    } else {
        match line_meaning(ls.last()) {
            LineView::Entry(e) => entries_in(ls.drop_last()).push(e),
            _ => entries_in(ls.drop_last()),
        }
    }
}

/// The install targets that lines declare.
pub open spec fn targets_in(ls: Seq<Seq<char>>) -> Seq<TargetView>
    decreases ls.len(),
{
    if ls.len() == 0 {
        Seq::empty()
    } else {
        match line_meaning(ls.last()) {
            LineView::Target(t) => targets_in(ls.drop_last()).push(t),
            _ => targets_in(ls.drop_last()),
        }
    }
}

pub proof fn lemma_manifest_parts(ls: Seq<Seq<char>>)
    ensures
        manifest_of_lines(ls).entries == entries_in(ls),
        manifest_of_lines(ls).install_targets == targets_in(ls),
    decreases ls.len(),
{
    if ls.len() > 0 {
        lemma_manifest_parts(ls.drop_last());
    }
}

pub proof fn lemma_declared_add(a: Seq<Seq<char>>, b: Seq<Seq<char>>)
    ensures
        entries_in(a + b) == entries_in(a) + entries_in(b),
        targets_in(a + b) == targets_in(a) + targets_in(b),
    decreases b.len(),
{
    if b.len() == 0 {
        assert(a + b =~= a);
        assert(entries_in(a) + entries_in(b) =~= entries_in(a));
        assert(targets_in(a) + targets_in(b) =~= targets_in(a));
    } else {
        assert((a + b).drop_last() =~= a + b.drop_last());
        assert((a + b).last() == b.last());
        lemma_declared_add(a, b.drop_last());
        assert(entries_in(a + b) =~= entries_in(a) + entries_in(b));
        assert(targets_in(a + b) =~= targets_in(a) + targets_in(b));
    }
}

pub proof fn lemma_declared_one(l: Seq<char>)
    ensures
        entries_in(seq![l]) == (match line_meaning(l) {
            LineView::Entry(e) => seq![e],
            _ => Seq::empty(),
        }),
        targets_in(seq![l]) == (match line_meaning(l) {
            LineView::Target(t) => seq![t],
            _ => Seq::empty(),
        }),
{
    let s = seq![l];
    assert(s.drop_last() =~= Seq::empty());
    assert(s.last() == l);
    assert(entries_in(s.drop_last()) =~= Seq::empty());
    assert(targets_in(s.drop_last()) =~= Seq::empty());
    match line_meaning(l) {
        LineView::Entry(e) => {
            assert(entries_in(s) =~= seq![e]);
        },
        LineView::Target(t) => {
            assert(targets_in(s) =~= seq![t]);
        },
        _ => {},
    }
}

/// Lines that declare nothing.
pub open spec fn silent(l: Seq<char>) -> bool {
    line_meaning(l) == LineView::Nothing
}

proof fn lemma_silent_lines(ls: Seq<Seq<char>>)
    requires
        forall|i: int| 0 <= i < ls.len() ==> silent(#[trigger] ls[i]),
    ensures
        entries_in(ls) == Seq::<EntryView>::empty(),
        targets_in(ls) == Seq::<TargetView>::empty(),
    decreases ls.len(),
{
    if ls.len() > 0 {
        let init = ls.drop_last();
        assert forall|i: int| 0 <= i < init.len() implies silent(#[trigger] init[i]) by {
            assert(init[i] == ls[i]);
        }
        assert(silent(ls[ls.len() - 1]));
        lemma_silent_lines(init);
    }
}

pub proof fn lemma_hash_line(l: Seq<char>)
    requires
        l.len() > 0,
        l[0] == '#',
    ensures
        silent(l),
{
    lemma_trim_keeps_first(l);
}

// ---------------------------------------------------------------------------
// The lines of a canonical text
// ---------------------------------------------------------------------------

proof fn lemma_plain_field(s: Seq<char>)
    requires
        plain_field(s),
    ensures
        writable_field(s),
        written_field(s) == s,
{
    assert forall|i: int| 0 <= i < s.len() implies s[i] != '"' && s[i] != '\n' by {
        assert(!white_space(s[i]));
    }
}

/// Whether an entry can be written and keeps its name when it is read.
pub open spec fn writable_entry(e: EntryView) -> bool {
    writable(e) && valid_name(e.name)
}

pub proof fn lemma_entry_line_meaning(e: EntryView)
    requires
        writable_entry(e),
    ensures
        line_meaning(entry_line(e)) == LineView::Entry(e),
        line_safe(entry_line(e)),
        trim_both(entry_line(e)) == entry_line(e),
        entry_line(e).len() > 0,
        entry_line(e)[0] != '#',
        !starts_with(entry_line(e), "install"@),
{
    let fs = entry_fields(e);
    let l = entry_line(e);
    lemma_entry_fields_plain(e);
    lemma_fields_of_join(fs);
    lemma_written_fields(fs, Seq::empty());
    lemma_words_are_plain(e);
    lemma_entry_of_own_fields(e);
    lemma_written_field(fs[0]);
    lemma_trimmed_already(l);
    reveal_strlit("install");
    reveal_strlit("github");
    reveal_strlit("local");
    reveal_strlit("url");
    assert(fs[0] == e.source.word());
    if starts_with(l, "install"@) {
        assert(l.subrange(0, 7)[0] == 'i');
    }
}

/// Whether an install target can be written.
pub open spec fn writable_target(t: TargetView) -> bool {
    plain_field(t.adapter)
}

pub proof fn lemma_target_line_meaning(t: TargetView)
    requires
        writable_target(t),
    ensures
        line_meaning(target_line(t)) == LineView::Target(t),
        line_safe(target_line(t)),
        trim_both(target_line(t)) == target_line(t),
        starts_with(target_line(t), "install"@),
{
    let fs = seq!["install"@, t.adapter, t.scope.word()];
    let l = target_line(t);
    reveal_strlit("install  ");
    reveal_strlit("install");
    reveal_strlit("  ");
    reveal_strlit("global");
    reveal_strlit("local");
    assert(plain_field("install"@));
    assert(plain_field(t.scope.word()));
    assert(fs.drop_last() =~= seq!["install"@, t.adapter]);
    assert(fs.drop_last().drop_last() =~= seq!["install"@]);
    assert(join(fs.drop_last().drop_last(), "  "@) == "install"@);
    assert(join(fs.drop_last(), "  "@) == "install"@ + "  "@ + t.adapter);
    assert(join(fs, "  "@) == join(fs.drop_last(), "  "@) + "  "@ + t.scope.word());
    assert(l =~= join(fs, "  "@));
    assert forall|i: int| 0 <= i < fs.len() implies writable_field(#[trigger] fs[i])
        && written_field(fs[i]) == fs[i] by {
        assert(plain_field(fs[i]));
        lemma_plain_field(fs[i]);
    }
    assert(written_fields(fs) =~= fs);
    lemma_fields_of_join(fs);
    lemma_written_fields(fs, Seq::empty());
    lemma_trimmed_already(l);
    crate::models::law_scope_words(t.scope, t.scope.word());
    assert(l.subrange(0, 7) =~= "install"@);
}

/// What holds of each comment that is kept.
pub open spec fn is_comment(c: Seq<char>) -> bool {
    &&& line_safe(c)
    &&& trim_end(c) == c
    &&& trim_both(c).len() > 0
    &&& trim_both(c)[0] == '#'
}

pub open spec fn all_comments(cs: Seq<Seq<char>>) -> bool {
    forall|i: int| 0 <= i < cs.len() ==> is_comment(#[trigger] cs[i])
}

pub open spec fn attached_comments(m: Map<Seq<char>, Seq<Seq<char>>>) -> bool {
    forall|k: Seq<char>| #[trigger]
        m.dom().contains(k) ==> m[k].len() > 0 && all_comments(m[k])
}

proof fn lemma_trimmed_comment(line: Seq<char>)
    requires
        !line.contains('\n'),
        trim_both(line).len() > 0,
        trim_both(line)[0] == '#',
    ensures
        is_comment(trim_end(line)),
{
    let c = trim_end(line);
    lemma_trim_end_prefix(line);
    let k = lemma_trim_start_index(line);
    let t = line.skip(k);
    lemma_trim_end_prefix(t);
    assert(t[0] == '#');
    assert(line[k] == '#');
    if c.len() <= k {
        assert(white_space(line[k]));
    }
    assert forall|j: int| 0 <= j < k implies white_space(#[trigger] c[j]) by {
        assert(c[j] == line[j]);
    }
    assert(c[k] == '#');
    lemma_trim_start_at(c, k);
    assert(c.skip(k)[0] == '#');
    lemma_trim_keeps_first(c.skip(k));
    assert forall|i: int| 0 <= i < c.len() implies c[i] != '\n' by {
        assert(c[i] == line[i]);
        assert(line.contains(line[i]));
    }
}

pub proof fn lemma_comments_kept(ls: Seq<Seq<char>>)
    requires
        forall|i: int| 0 <= i < ls.len() ==> !(#[trigger] ls[i]).contains('\n'),
    ensures
        attached_comments(comments_in(ls).attached),
        all_comments(comments_in(ls).pending),
    decreases ls.len(),
{
    if ls.len() > 0 {
        let init = ls.drop_last();
        assert forall|i: int| 0 <= i < init.len() implies !(#[trigger] init[i]).contains('\n') by {
            assert(init[i] == ls[i]);
        }
        lemma_comments_kept(init);
        let line = ls.last();
        assert(!ls[ls.len() - 1].contains('\n'));
        let stripped = trim_both(line);
        if stripped.len() > 0 && stripped[0] == '#' {
            lemma_trimmed_comment(line);
        }
    }
}

pub proof fn lemma_no_newline_in_lines(s: Seq<char>)
    ensures
        forall|i: int| 0 <= i < lines(s).len() ==> !(#[trigger] lines(s)[i]).contains('\n'),
{
    lemma_lines_shape(s);
    let ls = split_inclusive(s);
    assert forall|i: int| 0 <= i < lines(s).len() implies !(#[trigger] lines(s)[i]).contains(
        '\n',
    ) by {
        let l = ls[i];
        let r = strip_eol(l);
        assert(lines(s)[i] == r);
        assert forall|j: int| 0 <= j < r.len() implies r[j] != '\n' by {
            if is_line(l) {
                assert(r[j] == l.drop_last()[j]);
                assert(l.drop_last().contains(l.drop_last()[j]));
            } else {
                assert(r[j] == l[j]);
                assert(l.contains(l[j]));
            }
        }
    }
}

/// Whether all entries can be written.
pub open spec fn all_writable(s: Seq<EntryView>) -> bool {
    forall|i: int| 0 <= i < s.len() ==> writable_entry(#[trigger] s[i])
}

pub open spec fn all_safe(ls: Seq<Seq<char>>) -> bool {
    forall|i: int| 0 <= i < ls.len() ==> line_safe(#[trigger] ls[i])
}

proof fn lemma_entry_lines(e: EntryView, c: Map<Seq<char>, Seq<Seq<char>>>)
    requires
        writable_entry(e),
        attached_comments(c),
    ensures
        all_safe(lines_of_entry(e, c)),
        entries_in(lines_of_entry(e, c)) == seq![e],
        targets_in(lines_of_entry(e, c)) == Seq::<TargetView>::empty(),
{
    lemma_entry_line_meaning(e);
    let l = entry_line(e);
    lemma_declared_one(l);
    if c.dom().contains(l) {
        let cs = c[l];
        assert(all_comments(cs));
        assert forall|i: int| 0 <= i < cs.len() implies silent(#[trigger] cs[i]) by {
            assert(is_comment(cs[i]));
        }
        lemma_silent_lines(cs);
        lemma_declared_add(cs, seq![l]);
        assert(cs + seq![l] =~= cs.push(l));
        assert(entries_in(cs) + seq![e] =~= seq![e]);
        assert(targets_in(cs) + targets_in(seq![l]) =~= Seq::empty());
        assert forall|i: int| 0 <= i < cs.push(l).len() implies line_safe(#[trigger] cs.push(l)[i])
            by {
            if i < cs.len() {
                assert(is_comment(cs[i]));
            }
        }
    }
}

proof fn lemma_entries_lines(s: Seq<EntryView>, c: Map<Seq<char>, Seq<Seq<char>>>)
    requires
        all_writable(s),
        attached_comments(c),
    ensures
        all_safe(lines_of_entries(s, c)),
        entries_in(lines_of_entries(s, c)) == s,
        targets_in(lines_of_entries(s, c)) == Seq::<TargetView>::empty(),
    decreases s.len(),
{
    if s.len() == 0 {
        assert(entries_in(lines_of_entries(s, c)) =~= s);
    } else {
        let init = s.drop_last();
        assert forall|i: int| 0 <= i < init.len() implies writable_entry(#[trigger] init[i]) by {
            assert(init[i] == s[i]);
        }
        assert(writable_entry(s[s.len() - 1]));
        lemma_entries_lines(init, c);
        lemma_entry_lines(s.last(), c);
        lemma_declared_add(lines_of_entries(init, c), lines_of_entry(s.last(), c));
        assert(init + seq![s.last()] =~= s);
        assert(targets_in(lines_of_entries(s, c)) =~= Seq::empty());
    }
}

/// All entries of groups, one after another.
pub open spec fn flat(gs: Seq<Seq<EntryView>>) -> Seq<EntryView>
    decreases gs.len(),
{
    if gs.len() == 0 {
        Seq::empty()
    } else {
        flat(gs.drop_last()) + gs.last()
    }
}

pub proof fn lemma_groups_flat(s: Seq<EntryView>)
    ensures
        flat(repo_groups(s)) == s,
        s.len() > 0 ==> repo_groups(s).len() > 0,
    decreases s.len(),
{
    if s.len() == 0 {
        assert(flat(repo_groups(s)) =~= s);
    } else {
        let init = s.drop_last();
        lemma_groups_flat(init);
        let g = repo_groups(init);
        let r = repo_groups(s);
        if s.len() > 1 && crate::commands::sort::same_repo(s[s.len() - 2], s.last()) {
            assert(r.drop_last() =~= g.drop_last());
            assert(flat(r) =~= flat(g).push(s.last()));
        } else {
            assert(r.drop_last() =~= g);
            assert(flat(r) =~= flat(g) + seq![s.last()]);
        }
        assert(flat(r) =~= s);
    }
}

pub proof fn lemma_blank_line()
    ensures
        silent(Seq::empty()),
        line_safe(Seq::empty()),
        trim_both(Seq::<char>::empty()).len() == 0,
{
}

proof fn lemma_groups_lines(gs: Seq<Seq<EntryView>>, c: Map<Seq<char>, Seq<Seq<char>>>)
    requires
        all_writable(flat(gs)),
        attached_comments(c),
    ensures
        all_safe(lines_of_groups(gs, c)),
        entries_in(lines_of_groups(gs, c)) == flat(gs),
        targets_in(lines_of_groups(gs, c)) == Seq::<TargetView>::empty(),
    decreases gs.len(),
{
    if gs.len() == 0 {
        assert(entries_in(lines_of_groups(gs, c)) =~= flat(gs));
    } else {
        let init = gs.drop_last();
        let g = gs.last();
        let f = flat(init);
        assert forall|i: int| 0 <= i < f.len() implies writable_entry(#[trigger] f[i]) by {
            assert(flat(gs)[i] == f[i]);
        }
        assert forall|i: int| 0 <= i < g.len() implies writable_entry(#[trigger] g[i]) by {
            assert(flat(gs)[f.len() + i] == g[i]);
        }
        lemma_groups_lines(init, c);
        lemma_entries_lines(g, c);
        lemma_blank_line();
        let a = lines_of_groups(init, c);
        let blank = Seq::<char>::empty();
        lemma_declared_one(blank);
        lemma_declared_add(a, seq![blank]);
        assert(a + seq![blank] =~= a.push(blank));
        lemma_declared_add(a.push(blank), lines_of_entries(g, c));
        assert(entries_in(lines_of_groups(gs, c)) =~= flat(gs));
        assert(targets_in(lines_of_groups(gs, c)) =~= Seq::empty());
        let r = lines_of_groups(gs, c);
        assert forall|i: int| 0 <= i < r.len() implies line_safe(#[trigger] r[i]) by {
            if i < a.len() {
                assert(r[i] == a[i]);
            } else if i > a.len() {
                assert(r[i] == lines_of_entries(g, c)[i - a.len() - 1]);
            }
        }
    }
}

pub proof fn lemma_headers(t: EntityType)
    ensures
        all_safe(headers_of(t)),
        entries_in(headers_of(t)) == Seq::<EntryView>::empty(),
        targets_in(headers_of(t)) == Seq::<TargetView>::empty(),
        forall|i: int|
            0 <= i < headers_of(t).len() ==> silent(#[trigger] headers_of(t)[i])
                && headers_of(t)[i].len() > 0 && headers_of(t)[i][0] == '#',
{
    reveal_strlit("# --- Agents ---");
    reveal_strlit("# github  agent  [name]  <owner/repo>  <path-or-dir>  [ref]");
    reveal_strlit("# --- Skills ---");
    reveal_strlit("# github  skill  [name]  <owner/repo>  <path-or-dir>  [ref]");
    let h = headers_of(t);
    assert forall|i: int| 0 <= i < h.len() implies silent(#[trigger] h[i]) && line_safe(h[i])
        && h[i].len() > 0 && h[i][0] == '#' by {
        lemma_hash_line(h[i]);
        assert forall|j: int| 0 <= j < h[i].len() implies h[i][j] != '\n' by {}
    }
    lemma_silent_lines(h);
}

proof fn lemma_of_type_writable(s: Seq<EntryView>, t: EntityType)
    requires
        all_writable(s),
    ensures
        all_writable(of_type(s, t)),
        forall|i: int| 0 <= i < of_type(s, t).len() ==> (#[trigger] of_type(s, t)[i]).entity_type == t,
    decreases s.len(),
{
    if s.len() > 0 {
        let init = s.drop_last();
        assert forall|i: int| 0 <= i < init.len() implies writable_entry(#[trigger] init[i]) by {
            assert(init[i] == s[i]);
        }
        assert(writable_entry(s[s.len() - 1]));
        lemma_of_type_writable(init, t);
    }
}

proof fn lemma_in_order_members(s: Seq<EntryView>, i: int)
    requires
        0 <= i < s.len(),
    ensures
        in_order(s).len() == s.len(),
        s.contains(in_order(s)[i]),
{
    law_in_order(s);
    let e = in_order(s)[i];
    assert(in_order(s).contains(e));
    in_order(s).to_multiset_ensures();
    s.to_multiset_ensures();
    assert(in_order(s).to_multiset().count(e) > 0);
    assert(s.to_multiset().count(e) > 0);
}

pub proof fn lemma_sorted_writable(s: Seq<EntryView>, t: EntityType)
    requires
        all_writable(s),
    ensures
        all_writable(in_order(of_type(s, t))),
        forall|i: int|
            0 <= i < in_order(of_type(s, t)).len() ==> (#[trigger] in_order(
                of_type(s, t),
            )[i]).entity_type == t,
{
    lemma_of_type_writable(s, t);
    let o = of_type(s, t);
    law_in_order(o);
    assert forall|i: int| 0 <= i < in_order(o).len() implies writable_entry(
        #[trigger] in_order(o)[i],
    ) && in_order(o)[i].entity_type == t by {
        lemma_in_order_members(o, i);
        let k = choose|k: int| 0 <= k < o.len() && o[k] == in_order(o)[i];
        assert(writable_entry(o[k]));
    }
}

pub proof fn lemma_section(s: Seq<EntryView>, t: EntityType, c: Map<Seq<char>, Seq<Seq<char>>>)
    requires
        all_writable(s),
        attached_comments(c),
    ensures
        all_safe(section_lines(s, t, c)),
        entries_in(section_lines(s, t, c)) == in_order(of_type(s, t)),
        targets_in(section_lines(s, t, c)) == Seq::<TargetView>::empty(),
{
    let o = in_order(of_type(s, t));
    let r = section_lines(s, t, c);
    if o.len() == 0 {
        assert(entries_in(r) =~= o);
    } else {
        lemma_sorted_writable(s, t);
        lemma_groups_flat(o);
        lemma_groups_lines(repo_groups(o), c);
        lemma_headers(t);
        lemma_blank_line();
        let blank = seq![Seq::<char>::empty()];
        lemma_declared_one(Seq::empty());
        lemma_declared_add(blank, headers_of(t));
        lemma_declared_add(blank + headers_of(t), lines_of_groups(repo_groups(o), c));
        assert(entries_in(r) =~= o);
        assert(targets_in(r) =~= Seq::empty());
        assert forall|i: int| 0 <= i < r.len() implies line_safe(#[trigger] r[i]) by {
            if 1 <= i < 1 + headers_of(t).len() {
                assert(r[i] == headers_of(t)[i - 1]);
            } else if i > headers_of(t).len() {
                assert(r[i] == lines_of_groups(repo_groups(o), c)[i - 1 - headers_of(t).len()]);
            }
        }
    }
}

pub proof fn lemma_targets_section(ts: Seq<TargetView>)
    requires
        forall|i: int| 0 <= i < ts.len() ==> writable_target(#[trigger] ts[i]),
    ensures
        all_safe(target_lines(ts)),
        entries_in(target_lines(ts)) == Seq::<EntryView>::empty(),
        targets_in(target_lines(ts)) == ts,
{
    let ls = ts.map_values(|t: TargetView| target_line(t));
    lemma_target_list(ts);
    if ts.len() == 0 {
        assert(targets_in(target_lines(ts)) =~= ts);
    } else {
        reveal_strlit("# install  <platform>  <scope>");
        lemma_hash_line(INSTALL_COMMENT@);
        lemma_declared_one(INSTALL_COMMENT@);
        lemma_declared_add(seq![INSTALL_COMMENT@], ls);
        assert(entries_in(target_lines(ts)) =~= Seq::empty());
        assert(targets_in(target_lines(ts)) =~= ts);
        let r = target_lines(ts);
        assert forall|i: int| 0 <= i < r.len() implies line_safe(#[trigger] r[i]) by {
            if i == 0 {
                assert forall|j: int| 0 <= j < r[0].len() implies r[0][j] != '\n' by {}
            } else {
                assert(r[i] == ls[i - 1]);
            }
        }
    }
}

pub proof fn lemma_target_list(ts: Seq<TargetView>)
    requires
        forall|i: int| 0 <= i < ts.len() ==> writable_target(#[trigger] ts[i]),
    ensures
        all_safe(ts.map_values(|t: TargetView| target_line(t))),
        entries_in(ts.map_values(|t: TargetView| target_line(t))) == Seq::<EntryView>::empty(),
        targets_in(ts.map_values(|t: TargetView| target_line(t))) == ts,
    decreases ts.len(),
{
    let ls = ts.map_values(|t: TargetView| target_line(t));
    if ts.len() == 0 {
        assert(targets_in(ls) =~= ts);
    } else {
        let init = ts.drop_last();
        assert forall|i: int| 0 <= i < init.len() implies writable_target(#[trigger] init[i]) by {
            assert(init[i] == ts[i]);
        }
        lemma_target_list(init);
        assert(writable_target(ts[ts.len() - 1]));
        lemma_target_line_meaning(ts.last());
        assert(ls.drop_last() =~= init.map_values(|t: TargetView| target_line(t)));
        assert(ls.last() == target_line(ts.last()));
        assert(targets_in(ls) =~= ts);
        assert forall|i: int| 0 <= i < ls.len() implies line_safe(#[trigger] ls[i]) by {
            if i < ls.len() - 1 {
                assert(ls[i] == ls.drop_last()[i]);
            }
        }
    }
}

/// A manifest that is written in canonical order and read again has the same install targets, and
/// its entries are the agents in order and then the skills in order.
pub proof fn law_canonical_text_round_trip(m: ManifestView, raw: Seq<char>)
    requires
        forall|i: int| 0 <= i < m.entries.len() ==> writable_entry(#[trigger] m.entries[i]),
        forall|i: int|
            0 <= i < m.install_targets.len() ==> writable_target(#[trigger] m.install_targets[i]),
    ensures
        manifest_of(canonical_text(m, raw)).install_targets == m.install_targets,
        manifest_of(canonical_text(m, raw)).entries == in_order(
            of_type(m.entries, EntityType::Agent),
        ) + in_order(of_type(m.entries, EntityType::Skill)),
{
    let c = entry_comments(raw);
    lemma_no_newline_in_lines(text_without_bom(raw));
    lemma_comments_kept(lines(text_without_bom(raw)));
    let a = target_lines(m.install_targets);
    let b = section_lines(m.entries, EntityType::Agent, c);
    let d = section_lines(m.entries, EntityType::Skill, c);
    lemma_targets_section(m.install_targets);
    lemma_section(m.entries, EntityType::Agent, c);
    lemma_section(m.entries, EntityType::Skill, c);
    lemma_declared_add(a, b);
    lemma_declared_add(a + b, d);
    let ls = canonical_lines(m, c);
    assert(ls == a + b + d);
    let text = canonical_text(m, raw);
    if ls.len() == 0 {
        assert(a.len() == 0 && b.len() == 0 && d.len() == 0);
        lemma_declared_empty();
        reveal_strlit("\n");
        let nl = "\n"@;
        assert(text =~= nl);
        assert(nl =~= seq!['\n']);
        assert(is_line(nl));
        crate::lines::lemma_split_line_first(nl, Seq::empty());
        assert(nl + Seq::<char>::empty() =~= nl);
        assert(split_inclusive(nl) =~= seq![nl]);
        assert(lines(nl) =~= seq![Seq::<char>::empty()]) by {
            assert(lines(nl)[0] == strip_eol(nl));
            assert(strip_eol(nl) =~= Seq::<char>::empty());
        }
        lemma_blank_line();
        lemma_declared_one(Seq::empty());
        lemma_manifest_parts(lines(nl));
        assert(in_order(of_type(m.entries, EntityType::Agent)) =~= Seq::empty());
        assert(in_order(of_type(m.entries, EntityType::Skill)) =~= Seq::empty());
        assert(m.install_targets =~= Seq::empty());
    } else {
        assert forall|i: int| 0 <= i < ls.len() implies line_safe(#[trigger] ls[i]) by {
            if i < a.len() {
                assert(ls[i] == a[i]);
            } else if i < a.len() + b.len() {
                assert(ls[i] == b[i - a.len()]);
            } else {
                assert(ls[i] == d[i - a.len() - b.len()]);
            }
        }
        lemma_lines_of_join(ls);
        lemma_manifest_parts(ls);
        assert(manifest_of(text).entries =~= in_order(of_type(m.entries, EntityType::Agent))
            + in_order(of_type(m.entries, EntityType::Skill)));
        assert(manifest_of(text).install_targets =~= m.install_targets);
    }
}

proof fn lemma_declared_empty()
    ensures
        entries_in(Seq::empty()) == Seq::<EntryView>::empty(),
        targets_in(Seq::empty()) == Seq::<TargetView>::empty(),
{
}

// ---------------------------------------------------------------------------
// Adding an entry
// ---------------------------------------------------------------------------

proof fn lemma_of_type_counts(s: Seq<EntryView>)
    ensures
        (of_type(s, EntityType::Agent) + of_type(s, EntityType::Skill)).to_multiset()
            == s.to_multiset(),
    decreases s.len(),
{
    let a = of_type(s, EntityType::Agent);
    let b = of_type(s, EntityType::Skill);
    if s.len() == 0 {
        assert(a + b =~= s);
    } else {
        let init = s.drop_last();
        let e = s.last();
        lemma_of_type_counts(init);
        let x = of_type(init, EntityType::Agent);
        let y = of_type(init, EntityType::Skill);
        assert(init.push(e) =~= s);
        vstd::seq_lib::to_multiset_build(init, e);
        vstd::seq_lib::lemma_multiset_commutative(a, b);
        vstd::seq_lib::lemma_multiset_commutative(x, y);
        match e.entity_type {
            EntityType::Agent => {
                vstd::seq_lib::to_multiset_build(x, e);
                assert(a.to_multiset().add(b.to_multiset()) =~= x.to_multiset().add(
                    y.to_multiset(),
                ).insert(e));
            },
            EntityType::Skill => {
                vstd::seq_lib::to_multiset_build(y, e);
                assert(a.to_multiset().add(b.to_multiset()) =~= x.to_multiset().add(
                    y.to_multiset(),
                ).insert(e));
            },
        }
    }
}

/// The canonical order holds each entry as often as the manifest does.
proof fn lemma_canonical_counts(s: Seq<EntryView>)
    ensures
        (in_order(of_type(s, EntityType::Agent)) + in_order(
            of_type(s, EntityType::Skill),
        )).to_multiset() == s.to_multiset(),
{
    let a = of_type(s, EntityType::Agent);
    let b = of_type(s, EntityType::Skill);
    law_in_order(a);
    law_in_order(b);
    vstd::seq_lib::lemma_multiset_commutative(in_order(a), in_order(b));
    vstd::seq_lib::lemma_multiset_commutative(a, b);
    lemma_of_type_counts(s);
}

proof fn lemma_lines_appended(a: Seq<char>, l: Seq<char>)
    requires
        a.len() == 0 || a.last() == '\n',
        line_safe(l),
    ensures
        lines((a + l).push('\n')) == lines(a).push(l),
{
    let t = (a + l).push('\n');
    let ls = split_inclusive(a);
    lemma_lines_shape(a);
    crate::lines::lemma_split_inclusive_concat(a);
    assert forall|i: int| 0 <= i < ls.len() implies is_line(#[trigger] ls[i]) by {
        if i == ls.len() - 1 {
            assert(ls[i] == ls.last());
        }
    }
    let last = l.push('\n');
    assert(last.drop_last() =~= l);
    assert(is_line(last));
    assert(t =~= concat(ls) + last);
    lemma_split_of_lines(ls, last);
    crate::lines::lemma_split_line_first(last, Seq::empty());
    assert(last + Seq::<char>::empty() =~= last);
    assert(split_inclusive(last) =~= seq![last]);
    assert(split_inclusive(t) =~= ls.push(last));
    assert(strip_eol(last) =~= l);
    assert(lines(t) =~= lines(a).push(l));
}

/// A line feed behind the last line of a text does not change what the text declares.
proof fn lemma_closed_declares(text: Seq<char>)
    requires
        text.len() == 0 || text.last() != '\n',
    ensures
        entries_in(lines(text.push('\n'))) == entries_in(lines(text)),
        targets_in(lines(text.push('\n'))) == targets_in(lines(text)),
{
    let t = text.push('\n');
    let ls = split_inclusive(text);
    lemma_lines_shape(text);
    crate::lines::lemma_split_inclusive_concat(text);
    let init = if ls.len() > 0 {
        ls.drop_last()
    } else {
        ls
    };
    let l = if ls.len() > 0 {
        ls.last()
    } else {
        Seq::empty()
    };
    assert(concat(init) + l =~= text);
    assert(!l.contains('\n'));
    let last = l.push('\n');
    assert(last.drop_last() =~= l);
    assert(t =~= concat(init) + last);
    lemma_split_of_lines(init, last);
    crate::lines::lemma_split_line_first(last, Seq::empty());
    assert(last + Seq::<char>::empty() =~= last);
    assert(split_inclusive(last) =~= seq![last]);
    let head = init.map_values(|x: Seq<char>| strip_eol(x));
    assert(lines(t) =~= head + seq![strip_eol(last)]);
    assert(strip_eol(last) == drop_cr(l));
    lemma_drop_cr_meaning(l);
    lemma_declared_add(head, seq![drop_cr(l)]);
    lemma_declared_one(drop_cr(l));
    if ls.len() > 0 {
        assert(lines(text) =~= head + seq![l]) by {
            assert(strip_eol(l) == l);
        }
        lemma_declared_add(head, seq![l]);
        lemma_declared_one(l);
    } else {
        lemma_blank_line();
        lemma_declared_empty();
        assert(head =~= Seq::empty());
        assert(lines(text) =~= Seq::empty());
        assert(entries_in(lines(t)) =~= Seq::empty());
        assert(targets_in(lines(t)) =~= Seq::empty());
    }
}

/// Adding an entry keeps all entries and install targets that were there, and the entry is there:
/// the agents in order, and then the skills in order.
pub proof fn law_add_keeps_entries(original: Seq<char>, e: EntryView)
    requires
        writable_entry(e),
        forall|i: int|
            0 <= i < manifest_of(text_without_bom(original)).entries.len() ==> writable_entry(
                #[trigger] manifest_of(text_without_bom(original)).entries[i],
            ),
        forall|i: int|
            0 <= i < manifest_of(text_without_bom(original)).install_targets.len()
                ==> writable_target(
                #[trigger] manifest_of(text_without_bom(original)).install_targets[i],
            ),
    ensures
        ({
            let before = manifest_of(text_without_bom(original));
            let after = manifest_of(text_without_bom(with_entry(original, e)));
            &&& after.entries == in_order(of_type(before.entries.push(e), EntityType::Agent))
                + in_order(of_type(before.entries.push(e), EntityType::Skill))
            &&& after.entries.to_multiset() == before.entries.to_multiset().insert(e)
            &&& after.install_targets == before.install_targets
        }),
{
    let content = appended(original, e);
    let l = entry_line(e);
    lemma_entry_line_meaning(e);
    lemma_line_start(e);
    let o = text_without_bom(original);
    let t = text_without_bom(content);
    if original.len() > 0 {
        assert(content[0] == original[0]);
    } else {
        assert(content[0] == l[0]);
    }
    // the text in front of the new line
    let c = if closed_text(original) == original {
        o
    } else {
        o.push('\n')
    };
    assert(t =~= (c + l).push('\n'));
    if o.len() > 0 {
        assert(o.last() == original.last());
    }
    if closed_text(original) != original {
        lemma_closed_declares(o);
    }
    lemma_lines_appended(c, l);
    lemma_manifest_parts(lines(o));
    lemma_manifest_parts(lines(t));
    lemma_declared_one(l);
    lemma_declared_add(lines(c), seq![l]);
    assert(lines(c) + seq![l] =~= lines(t));
    let m = manifest_of(t);
    let before = manifest_of(o);
    assert(m.entries =~= before.entries.push(e));
    assert(m.install_targets =~= before.install_targets);
    vstd::seq_lib::to_multiset_build(before.entries, e);
    assert forall|i: int| 0 <= i < m.entries.len() implies writable_entry(#[trigger] m.entries[i])
        by {
        if i < before.entries.len() {
            assert(m.entries[i] == before.entries[i]);
        }
    }
    law_canonical_text_round_trip(m.manifest(), content);
    lemma_canonical_counts(m.entries);
    lemma_canonical_start(m.manifest(), content);
}

proof fn lemma_line_start(e: EntryView)
    requires
        writable_entry(e),
    ensures
        entry_line(e).len() > 0,
        entry_line(e)[0] != '\u{feff}',
{
    let fs = entry_fields(e);
    lemma_entry_fields_plain(e);
    lemma_written_fields(fs, Seq::empty());
    lemma_words_are_plain(e);
    reveal_strlit("github");
    reveal_strlit("local");
    reveal_strlit("url");
    assert(fs[0] == e.source.word());
}

/// A canonical text starts with `#` or a line feed, not with a byte order mark.
proof fn lemma_canonical_start(m: ManifestView, raw: Seq<char>)
    ensures
        text_without_bom(canonical_text(m, raw)) == canonical_text(m, raw),
{
    let c = entry_comments(raw);
    let ls = canonical_lines(m, c);
    let text = canonical_text(m, raw);
    reveal_strlit("\n");
    if ls.len() == 0 {
        assert(text[0] == '\n');
    } else {
        let a = target_lines(m.install_targets);
        reveal_strlit("# install  <platform>  <scope>");
        lemma_join_first(ls);
        if m.install_targets.len() > 0 {
            assert(ls[0] == INSTALL_COMMENT@);
        } else {
            let b = section_lines(m.entries, EntityType::Agent, c);
            if b.len() > 0 {
                assert(ls[0] == b[0]);
            } else {
                assert(ls[0] == section_lines(m.entries, EntityType::Skill, c)[0]);
            }
            assert(ls[0] == Seq::<char>::empty());
            assert(ls.len() > 1);
        }
    }
}

proof fn lemma_join_first(ls: Seq<Seq<char>>)
    requires
        ls.len() > 0,
    ensures
        ls[0].len() > 0 ==> join(ls, "\n"@).len() > 0 && join(ls, "\n"@)[0] == ls[0][0],
        ls[0].len() == 0 && ls.len() > 1 ==> join(ls, "\n"@).len() > 0 && join(ls, "\n"@)[0]
            == '\n',
    decreases ls.len(),
{
    reveal_strlit("\n");
    if ls.len() > 1 {
        let init = ls.drop_last();
        lemma_join_first(init);
        assert(init[0] == ls[0]);
        if ls.len() == 2 {
            assert(join(init, "\n"@) == ls[0]);
        }
    }
}

// ---------------------------------------------------------------------------
// Removing an entry
// ---------------------------------------------------------------------------

/// A line without a carriage return at its end.
spec fn drop_cr(l: Seq<char>) -> Seq<char> {
    if l.len() > 0 && l.last() == '\r' {
        l.drop_last()
    } else {
        l
    }
}

/// A carriage return at the end of a line does not change what it declares.
proof fn lemma_drop_cr_meaning(l: Seq<char>)
    ensures
        line_meaning(drop_cr(l)) == line_meaning(l),
{
    if l.len() > 0 && l.last() == '\r' {
        let d = l.drop_last();
        let k = lemma_trim_start_index(l);
        if k == l.len() {
            assert forall|j: int| 0 <= j < d.len() implies white_space(#[trigger] d[j]) by {
                assert(d[j] == l[j]);
            }
            lemma_trim_start_at(d, d.len() as int);
            assert(d.skip(d.len() as int) =~= Seq::empty());
            assert(l.skip(k) =~= Seq::empty());
        } else {
            assert(k < l.len() - 1);
            assert forall|j: int| 0 <= j < k implies white_space(#[trigger] d[j]) by {
                assert(d[j] == l[j]);
            }
            assert(d[k] == l[k]);
            lemma_trim_start_at(d, k);
            let t = l.skip(k);
            assert(t.last() == '\r');
            assert(t.drop_last() =~= d.skip(k));
        }
        assert(trim_both(d) == trim_both(l));
    }
}

proof fn lemma_same_meaning(a: Seq<Seq<char>>, b: Seq<Seq<char>>)
    requires
        a.len() == b.len(),
        forall|i: int| 0 <= i < a.len() ==> line_meaning(#[trigger] a[i]) == line_meaning(b[i]),
    ensures
        entries_in(a) == entries_in(b),
        targets_in(a) == targets_in(b),
    decreases a.len(),
{
    if a.len() > 0 {
        let x = a.drop_last();
        let y = b.drop_last();
        assert forall|i: int| 0 <= i < x.len() implies line_meaning(#[trigger] x[i])
            == line_meaning(y[i]) by {
            assert(x[i] == a[i]);
        }
        lemma_same_meaning(x, y);
        assert(line_meaning(a[a.len() - 1]) == line_meaning(b[b.len() - 1]));
    }
}

/// Lines that are joined, with a line feed at the end or not, declare what the lines do.
proof fn lemma_joined_declares(ls: Seq<Seq<char>>, newline: bool)
    requires
        forall|i: int| 0 <= i < ls.len() ==> !(#[trigger] ls[i]).contains('\n'),
    ensures
        ({
            let t = if newline {
                join(ls, "\n"@).push('\n')
            } else {
                join(ls, "\n"@)
            };
            entries_in(lines(t)) == entries_in(ls) && targets_in(lines(t)) == targets_in(ls)
        }),
{
    reveal_strlit("\n");
    assert("\n"@ =~= seq!['\n']);
    let t = if newline {
        join(ls, "\n"@).push('\n')
    } else {
        join(ls, "\n"@)
    };
    lemma_blank_line();
    lemma_declared_empty();
    if ls.len() == 0 {
        if newline {
            assert(t =~= seq!['\n']);
            assert(is_line(t)) by {
                assert(t.drop_last() =~= Seq::empty());
            }
            crate::lines::lemma_split_line_first(t, Seq::empty());
            assert(t + Seq::<char>::empty() =~= t);
            assert(split_inclusive(t) =~= seq![t]);
            assert(strip_eol(t) =~= Seq::empty());
            assert(lines(t) =~= seq![Seq::<char>::empty()]);
            lemma_declared_one(Seq::empty());
        } else {
            assert(lines(t) =~= Seq::empty());
        }
        assert(ls =~= Seq::empty());
    } else if newline {
        lemma_join_terminated(ls);
        assert(t =~= join(ls, "\n"@) + "\n"@);
        lemma_terminated_lines(ls);
        let r = lines(t);
        assert forall|i: int| 0 <= i < r.len() implies line_meaning(#[trigger] r[i])
            == line_meaning(ls[i]) by {
            lemma_drop_cr_meaning(ls[i]);
        }
        lemma_same_meaning(r, ls);
    } else {
        let init = ls.drop_last();
        let l = ls.last();
        assert forall|i: int| 0 <= i < init.len() implies !(#[trigger] init[i]).contains('\n') by {
            assert(init[i] == ls[i]);
        }
        assert(!ls[ls.len() - 1].contains('\n'));
        // all lines but the last have an end
        let head = terminated(init);
        assert(t =~= concat(head) + l) by {
            if init.len() > 0 {
                lemma_join_terminated(init);
            } else {
                assert(head =~= Seq::empty());
                assert(ls[0] == l);
            }
        }
        lemma_terminated_are_lines(init);
        lemma_split_of_lines(head, l);
        let tail = split_inclusive(l);
        crate::text::lemma_until_char(l, '\n');
        assert(l.len() > 0 ==> tail =~= seq![l]);
        let r = lines(t);
        let rh = head.map_values(|x: Seq<char>| strip_eol(x));
        let rt = tail.map_values(|x: Seq<char>| strip_eol(x));
        assert(r =~= rh + rt);
        lemma_declared_add(rh, rt);
        assert forall|i: int| 0 <= i < rh.len() implies line_meaning(#[trigger] rh[i])
            == line_meaning(init[i]) by {
            assert(head[i] == init[i].push('\n'));
            assert(head[i].drop_last() =~= init[i]);
            assert(rh[i] == strip_eol(head[i]));
            lemma_drop_cr_meaning(init[i]);
        }
        lemma_same_meaning(rh, init);
        lemma_declared_add(init, seq![l]);
        assert(init + seq![l] =~= ls);
        lemma_declared_one(l);
        if l.len() > 0 {
            assert(l.last() != '\n') by {
                assert(l.contains(l[l.len() - 1]));
            }
            assert(rt =~= seq![l]);
        } else {
            assert(rt =~= Seq::empty());
            assert(l =~= Seq::empty());
        }
    }
}

proof fn lemma_terminated_are_lines(ls: Seq<Seq<char>>)
    requires
        forall|i: int| 0 <= i < ls.len() ==> !(#[trigger] ls[i]).contains('\n'),
    ensures
        forall|i: int| 0 <= i < terminated(ls).len() ==> is_line(#[trigger] terminated(ls)[i]),
{
    let t = terminated(ls);
    assert forall|i: int| 0 <= i < t.len() implies is_line(#[trigger] t[i]) by {
        assert(t[i] == ls[i].push('\n'));
        assert(t[i].drop_last() =~= ls[i]);
    }
}

proof fn lemma_terminated_lines(ls: Seq<Seq<char>>)
    requires
        forall|i: int| 0 <= i < ls.len() ==> !(#[trigger] ls[i]).contains('\n'),
    ensures
        lines(concat(terminated(ls))).len() == ls.len(),
        forall|i: int|
            0 <= i < ls.len() ==> #[trigger] lines(concat(terminated(ls)))[i] == drop_cr(ls[i]),
{
    let t = terminated(ls);
    lemma_terminated_are_lines(ls);
    lemma_split_of_lines(t, Seq::empty());
    assert(concat(t) + Seq::<char>::empty() =~= concat(t));
    assert(t + split_inclusive(Seq::empty()) =~= t);
    let r = lines(concat(t));
    assert forall|i: int| 0 <= i < ls.len() implies #[trigger] r[i] == drop_cr(ls[i]) by {
        assert(r[i] == strip_eol(t[i]));
        assert(t[i] == ls[i].push('\n'));
        assert(t[i].drop_last() =~= ls[i]);
    }
}

/// A line declares an entry of a valid name exactly when the entry counts in the manifest.
proof fn lemma_declares(l: Seq<char>, name: Seq<char>)
    requires
        valid_name(name),
    ensures
        declares(l, name) <==> (line_meaning(l) matches LineView::Entry(e) && e.name == name),
{
    reveal_strlit("install");
    reveal_strlit("github");
    reveal_strlit("local");
    reveal_strlit("url");
    assert("install"@.len() == 7);
}

#[verifier::spinoff_prover]
proof fn lemma_without_first(ls: Seq<Seq<char>>, name: Seq<char>)
    requires
        valid_name(name),
        has_name(entries_in(ls), name),
    ensures
        ({
            let es = entries_in(ls);
            let k = first_index(es, name);
            &&& 0 <= k < es.len()
            &&& entries_in(without_first(ls, name)) == es.remove(k)
            &&& targets_in(without_first(ls, name)) == targets_in(ls)
        }),
    decreases ls.len(),
{
    let es = entries_in(ls);
    let i = choose|i: int| 0 <= i < es.len() && (#[trigger] es[i]).name == name;
    assert(ls.len() > 0);
    let first = ls[0];
    let rest = ls.skip(1);
    assert(seq![first] + rest =~= ls);
    lemma_declared_add(seq![first], rest);
    lemma_declared_one(first);
    lemma_declares(first, name);
    let er = entries_in(rest);
    match line_meaning(first) {
        LineView::Entry(e) => {
            assert(es =~= seq![e] + er);
            if e.name == name {
                assert(es[0].name == name);
                assert(es.remove(0) =~= er);
            } else {
                assert(es[0].name != name);
                assert(es.skip(1) =~= er);
                assert(er[i - 1].name == name);
                lemma_without_first(rest, name);
                let k = first_index(er, name);
                lemma_declared_add(seq![first], without_first(rest, name));
                assert(seq![e] + er.remove(k) =~= es.remove(k + 1));
            }
        },
        _ => {
            assert(es =~= er);
            lemma_without_first(rest, name);
            lemma_declared_add(seq![first], without_first(rest, name));
            let k = first_index(er, name);
            assert(Seq::<EntryView>::empty() + er.remove(k) =~= es.remove(k));
        },
    }
    assert(targets_in(without_first(ls, name)) =~= targets_in(ls));
}

proof fn lemma_no_newline_without_first(ls: Seq<Seq<char>>, name: Seq<char>)
    requires
        forall|i: int| 0 <= i < ls.len() ==> !(#[trigger] ls[i]).contains('\n'),
    ensures
        forall|i: int|
            0 <= i < without_first(ls, name).len() ==> !(#[trigger] without_first(
                ls,
                name,
            )[i]).contains('\n'),
    decreases ls.len(),
{
    if ls.len() > 0 {
        let rest = ls.skip(1);
        assert forall|i: int| 0 <= i < rest.len() implies !(#[trigger] rest[i]).contains('\n') by {
            assert(rest[i] == ls[i + 1]);
        }
        lemma_no_newline_without_first(rest, name);
        let r = without_first(ls, name);
        assert forall|i: int| 0 <= i < r.len() implies !(#[trigger] r[i]).contains('\n') by {
            if declares(ls[0], name) {
                assert(r[i] == rest[i]);
            } else if i == 0 {
                assert(r[0] == ls[0]);
            } else {
                assert(r[i] == without_first(rest, name)[i - 1]);
            }
        }
    }
}

/// The first field of a line starts with what has been read of it.
proof fn lemma_first_field(current: Seq<char>, in_quotes: bool, rest: Seq<char>)
    requires
        current.len() > 0,
    ensures
        fields_from(current, in_quotes, rest).len() > 0,
        fields_from(current, in_quotes, rest)[0].len() > 0,
        fields_from(current, in_quotes, rest)[0][0] == current[0],
    decreases rest.len(),
{
    if rest.len() > 0 {
        let tail = rest.skip(1);
        if rest[0] == '"' {
            lemma_first_field(current, !in_quotes, tail);
        } else if !(white_space(rest[0]) && !in_quotes) {
            lemma_first_field(current.push(rest[0]), in_quotes, tail);
        }
    }
}

/// A line that starts with a byte order mark declares nothing that the line behind it does not.
proof fn lemma_marked_line(l: Seq<char>)
    requires
        l.len() > 0,
        l[0] == '\u{feff}',
    ensures
        line_meaning(l) == line_meaning(l.skip(1)) || (!(line_meaning(l) is Entry) && !(
        line_meaning(l) is Target)),
{
    if !white_space(l[0]) {
        lemma_marked_word(l);
    }
}

proof fn lemma_marked_word(l: Seq<char>)
    requires
        l.len() > 0,
        l[0] == '\u{feff}',
        !white_space(l[0]),
    ensures
        !(line_meaning(l) is Entry),
        !(line_meaning(l) is Target),
{
    lemma_trim_keeps_first(l);
    let s = trim_both(l);
    let c = Seq::<char>::empty().push(s[0]);
    lemma_first_field(c, false, s.skip(1));
    let fs = fields(s);
    assert(fs == fields_from(c, false, s.skip(1)));
    let parts = line_fields(s);
    lemma_before_comment(fs);
    assert(before_comment(fs) >= 1);
    assert(parts[0] == fs[0]);
    reveal_strlit("install");
    reveal_strlit("github");
    reveal_strlit("local");
    reveal_strlit("url");
    assert(parts[0][0] == '\u{feff}');
}

/// Whether a text starts with a byte order mark in front of a line that declares something.
pub open spec fn uncovers(text: Seq<char>) -> bool {
    text_without_bom(text) != text && lines(text_without_bom(text)).len() > 0 && (line_meaning(
        lines(text_without_bom(text))[0],
    ) is Entry || line_meaning(lines(text_without_bom(text))[0]) is Target)
}

/// Removing an entry takes the first entry of that name out of the manifest, and nothing else.
///
/// Left out are texts that have no byte order mark at their start but one in front of another line,
/// which declares something once what stands before it is gone.
pub proof fn law_remove_drops_one_entry(raw: Seq<char>, name: Seq<char>)
    requires
        has_name(manifest_of(text_without_bom(raw)).entries, name),
        text_without_bom(raw) == raw ==> !uncovers(without_entry(raw, name)),
    ensures
        ({
            let before = manifest_of(text_without_bom(raw));
            let after = manifest_of(text_without_bom(without_entry(raw, name)));
            let k = first_index(before.entries, name);
            &&& 0 <= k < before.entries.len()
            &&& before.entries[k].name == name
            &&& forall|j: int| 0 <= j < k ==> (#[trigger] before.entries[j]).name != name
            &&& after.entries == before.entries.remove(k)
            &&& after.install_targets == before.install_targets
        }),
{
    let t = text_without_bom(raw);
    let ls = lines(t);
    let es = manifest_of(t).entries;
    let i = choose|i: int| 0 <= i < es.len() && (#[trigger] es[i]).name == name;
    crate::parser::law_parsed_names_are_valid(t, i);
    lemma_manifest_parts(ls);
    lemma_without_first(ls, name);
    lemma_first_index(es, name);
    lemma_no_newline_in_lines(t);
    lemma_no_newline_without_first(ls, name);
    lemma_joined_declares(without_first(ls, name), t.len() > 0 && t.last() == '\n');
    let out = without_line(t, name);
    lemma_manifest_parts(lines(out));
    if t == raw {
        if text_without_bom(out) != out {
            lemma_uncovers_nothing(out);
            lemma_manifest_parts(lines(text_without_bom(out)));
        }
    } else {
        let marked = seq!['\u{feff}'] + out;
        assert(text_without_bom(marked) =~= out);
    }
}

/// A byte order mark that is taken off a line that declares nothing changes nothing.
proof fn lemma_uncovers_nothing(text: Seq<char>)
    requires
        text_without_bom(text) != text,
        !uncovers(text),
    ensures
        entries_in(lines(text_without_bom(text))) == entries_in(lines(text)),
        targets_in(lines(text_without_bom(text))) == targets_in(lines(text)),
{
    let rest = text_without_bom(text);
    assert(text[0] == '\u{feff}');
    crate::text::lemma_until_char(text, '\n');
    crate::text::lemma_until_char(rest, '\n');
    let k = crate::text::until_char(text, '\n') as int;
    assert(k > 0);
    assert forall|j: int| 0 <= j < k - 1 implies rest[j] != '\n' by {
        assert(rest[j] == text[j + 1]);
    }
    crate::text::lemma_until_char_is(rest, '\n', k - 1);
    let a = split_inclusive(text);
    let first = if k < text.len() {
        text.take(k + 1)
    } else {
        text
    };
    let more = if k < text.len() {
        split_inclusive(text.skip(k + 1))
    } else {
        Seq::empty()
    };
    assert(a =~= seq![first] + more);
    assert(k < text.len() ==> rest.skip(k) =~= text.skip(k + 1));
    let l = strip_eol(first);
    assert(l.len() > 0 && l[0] == '\u{feff}');
    let tail = more.map_values(|x: Seq<char>| strip_eol(x));
    assert(lines(text) =~= seq![l] + tail);
    lemma_marked_line(l);
    lemma_declared_one(l);
    lemma_declared_add(seq![l], tail);
    if rest.len() > 0 {
        let second = if k < text.len() {
            rest.take(k)
        } else {
            rest
        };
        assert(split_inclusive(rest) =~= seq![second] + more);
        let m = strip_eol(second);
        assert(m =~= l.skip(1));
        assert(lines(rest) =~= seq![m] + tail);
        assert(lines(rest)[0] == m);
        lemma_declared_one(m);
        lemma_declared_add(seq![m], tail);
    } else {
        assert(lines(rest) =~= Seq::empty());
        assert(tail =~= Seq::empty());
        assert(l.skip(1) =~= Seq::empty());
        lemma_blank_line();
        lemma_declared_empty();
    }
    assert(entries_in(lines(text)) =~= entries_in(lines(rest)));
    assert(targets_in(lines(text)) =~= targets_in(lines(rest)));
}

proof fn lemma_first_index(es: Seq<EntryView>, name: Seq<char>)
    requires
        has_name(es, name),
    ensures
        0 <= first_index(es, name) < es.len(),
        es[first_index(es, name)].name == name,
        forall|j: int| 0 <= j < first_index(es, name) ==> (#[trigger] es[j]).name != name,
    decreases es.len(),
{
    let i = choose|i: int| 0 <= i < es.len() && (#[trigger] es[i]).name == name;
    if es[0].name != name {
        let rest = es.skip(1);
        assert(rest[i - 1].name == name);
        lemma_first_index(rest, name);
        assert forall|j: int| 0 <= j < first_index(es, name) implies (#[trigger] es[j]).name
            != name by {
            if j > 0 {
                assert(rest[j - 1] == es[j]);
            }
        }
    }
}

} // verus!
