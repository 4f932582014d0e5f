//! Writing a manifest in its canonical order.

use vstd::prelude::*;
use vstd::string::StringExecFns;
use crate::commands::common::{missing_manifest, missing_manifest_text, push_text, sentence};
use crate::commands::init::entry_word;
use crate::error::SkillfileError;
use crate::lines::{lines, plain_lines};
use crate::models::{
    entry_views, target_views, EntityType, Entry, EntryView, InstallTarget, Manifest, ManifestView,
    SourceFields, SourceView, TargetView, DEFAULT_REF,
};
use crate::numbers::{decimal, size_number};
use crate::parser::{
    infer_name, inferred_name, manifest_of, parse_manifest_str, strip_bom, text_without_bom,
};
use crate::text::{
    join, join_all, less, opt_text, same, starts, starts_with, text_less, texts, to_chars,
    trim_both, trim_end, trimmed, trimmed_end, white_space,
};

verus! {

/// The comment above the install targets.
pub const INSTALL_COMMENT: &'static str = "# install  <platform>  <scope>";

// ---------------------------------------------------------------------------
// One line
// ---------------------------------------------------------------------------

/// The name as a field, unless it is the one the path gives anyway.
pub open spec fn name_field(name: Seq<char>, path: Seq<char>) -> Seq<Seq<char>> {
    if name == inferred_name(path) {
        Seq::empty()
    } else {
        seq![name]
    }
}

/// The fields of an entry that depend on its source. What would be filled in anyway is left out:
/// a name that is inferred, and the default reference.
pub open spec fn source_fields(e: EntryView) -> Seq<Seq<char>> {
    match e.source {
        SourceView::Github { owner_repo, path_in_repo, ref_ } => {
            let parts = name_field(e.name, path_in_repo).push(owner_repo).push(path_in_repo);
            if ref_ == DEFAULT_REF@ {
                parts
            } else {
                parts.push(ref_)
            }
        },
        SourceView::Local { path } => name_field(e.name, path).push(path),
        SourceView::Url { url } => name_field(e.name, url).push(url),
    }
}

/// The fields of an entry's line.
pub open spec fn entry_fields(e: EntryView) -> Seq<Seq<char>> {
    seq![e.source.word(), e.entity_type.word()] + source_fields(e)
}

/// Whether a text holds white space.
pub open spec fn has_space(s: Seq<char>) -> bool {
    exists|i: int| 0 <= i < s.len() && white_space(#[trigger] s[i])
}

/// A field as it is written: between quotes where it holds white space.
pub open spec fn written_field(s: Seq<char>) -> Seq<char> {
    if has_space(s) {
        seq!['"'] + s + seq!['"']
    } else {
        s
    }
}

/// Fields as they are written.
pub open spec fn written_fields(fs: Seq<Seq<char>>) -> Seq<Seq<char>> {
    fs.map_values(|s: Seq<char>| written_field(s))
}

/// The line of an entry.
pub open spec fn entry_line(e: EntryView) -> Seq<char> {
    join(written_fields(entry_fields(e)), "  "@)
}

fn write_field(s: &str) -> (r: String)
    ensures
        r@ == written_field(s@),
{
    let v = to_chars(s);
    let mut i: usize = 0;
    while i < v.len()
        invariant
            v@ == s@,
            i <= v@.len(),
            forall|j: int| 0 <= j < i ==> !white_space(#[trigger] v@[j]),
        decreases v@.len() - i,
    {
        if v[i].is_whitespace() {
            assert(white_space(s@[i as int]));
            let mut r: String = String::new();
            r.push('"');
            r.append(s);
            r.push('"');
            assert(r@ =~= seq!['"'] + s@ + seq!['"']);
            return r;
        }
        i += 1;
    }
    s.to_owned()
}

/// The fields of an entry that depend on its source, as they are written.
pub fn format_parts(entry: &Entry) -> (r: Vec<String>)
    ensures
        texts(r@) == written_fields(source_fields(entry@)),
{
    let parts = source_parts(entry);
    let ghost fs = source_fields(entry@);
    let mut out: Vec<String> = Vec::new();
    let mut i: usize = 0;
    assert(texts(out@) =~= written_fields(fs).take(0));
    while i < parts.len()
        invariant
            texts(parts@) == fs,
            i <= parts@.len(),
            texts(out@) == written_fields(fs).take(i as int),
        decreases parts@.len() - i,
    {
        let w = write_field(&parts[i]);
        push_text(&mut out, &w);
        assert(fs[i as int] == parts@[i as int]@);
        assert(written_fields(fs).take(i + 1) =~= written_fields(fs).take(i as int).push(w@));
        i += 1;
    }
    assert(written_fields(fs).take(i as int) =~= written_fields(fs));
    out
}

/// The fields of an entry that depend on its source.
fn source_parts(entry: &Entry) -> (r: Vec<String>)
    ensures
        texts(r@) == source_fields(entry@),
{
    let mut parts: Vec<String> = Vec::new();
    match &entry.source {
        SourceFields::Github { owner_repo, path_in_repo, ref_ } => {
            if !same(&entry.name, &infer_name(path_in_repo)) {
                parts.push(entry.name.clone());
            }
            parts.push(owner_repo.clone());
            parts.push(path_in_repo.clone());
            if !same(ref_, DEFAULT_REF) {
                parts.push(ref_.clone());
            }
        },
        SourceFields::Local { path } => {
            if !same(&entry.name, &infer_name(path)) {
                parts.push(entry.name.clone());
            }
            parts.push(path.clone());
        },
        SourceFields::Url { url } => {
            if !same(&entry.name, &infer_name(url)) {
                parts.push(entry.name.clone());
            }
            parts.push(url.clone());
        },
    }
    assert(texts(parts@) =~= source_fields(entry@));
    parts
}

/// The words that start a line are written as they are.
proof fn lemma_words_are_written(e: EntryView)
    ensures
        written_field(e.source.word()) == e.source.word(),
        written_field(e.entity_type.word()) == e.entity_type.word(),
{
    reveal_strlit("github");
    reveal_strlit("local");
    reveal_strlit("url");
    reveal_strlit("skill");
    reveal_strlit("agent");
}

/// Writes an entry as a line of a manifest.
pub fn format_line(entry: &Entry) -> (r: String)
    ensures
        r@ == entry_line(entry@),
{
    let mut parts: Vec<String> = Vec::new();
    parts.push(String::from_str(entry.source_type()));
    parts.push(String::from_str(entry.entity_type.as_str()));
    let ghost head = texts(parts@);
    assert(head =~= seq![entry@.source.word(), entry@.entity_type.word()]);
    let mut rest = format_parts(entry);
    let ghost tail = texts(rest@);
    parts.append(&mut rest);
    proof {
        lemma_words_are_written(entry@);
        assert(texts(parts@) =~= head + tail);
        assert(head + tail =~= written_fields(entry_fields(entry@)));
    }
    join_all(&parts, "  ")
}

// ---------------------------------------------------------------------------
// Order
// ---------------------------------------------------------------------------

/// The repository of an entry; empty for one that has none.
pub open spec fn repo_of(e: EntryView) -> Seq<char> {
    match e.source {
        SourceView::Github { owner_repo, .. } => owner_repo,
        _ => Seq::empty(),
    }
}

/// The path or address of an entry.
pub open spec fn path_of(e: EntryView) -> Seq<char> {
    match e.source {
        SourceView::Github { path_in_repo, .. } => path_in_repo,
        SourceView::Local { path } => path,
        SourceView::Url { url } => url,
    }
}

/// What entries are ordered by: kind of source, repository, path.
pub open spec fn sort_key_of(e: EntryView) -> (Seq<char>, Seq<char>, Seq<char>) {
    (e.source.word(), repo_of(e), path_of(e))
}

/// Whether one entry comes before another.
pub open spec fn comes_before(a: EntryView, b: EntryView) -> bool {
    let (s, r, p) = sort_key_of(a);
    let (t, q, o) = sort_key_of(b);
    if s != t {
        text_less(s, t)
    } else if r != q {
        text_less(r, q)
    } else {
        text_less(p, o)
    }
}

/// Sorted entries with one more, behind those it does not come before.
pub open spec fn insert_sorted(s: Seq<EntryView>, e: EntryView) -> Seq<EntryView>
    decreases s.len(),
{
    if s.len() == 0 || !comes_before(e, s.last()) {
        s.push(e)
    } else {
        insert_sorted(s.drop_last(), e).push(s.last())
    }
}

/// Entries in order; entries with the same key stay as they were.
pub open spec fn in_order(s: Seq<EntryView>) -> Seq<EntryView>
    decreases s.len(),
{
    if s.len() == 0 {
        s
    } else {
        insert_sorted(in_order(s.drop_last()), s.last())
    }
}

/// The entries of one type.
pub open spec fn of_type(s: Seq<EntryView>, t: EntityType) -> Seq<EntryView>
    decreases s.len(),
{
    if s.len() == 0 {
        s
    } else {
        let init = of_type(s.drop_last(), t);
        if s.last().entity_type == t {
            init.push(s.last())
        } else {
            init
        }
    }
}

fn sort_key(entry: &Entry) -> (r: (&'static str, &str, &str))
    ensures
        (r.0@, r.1@, r.2@) == sort_key_of(entry@),
{
    let repo = entry.owner_repo();
    match &entry.source {
        SourceFields::Github { path_in_repo, .. } => (
            entry.source_type(),
            repo,
            path_in_repo.as_str(),
        ),
        SourceFields::Local { path } => (entry.source_type(), repo, path.as_str()),
        SourceFields::Url { url } => (entry.source_type(), repo, url.as_str()),
    }
}

fn is_before(a: &Entry, b: &Entry) -> (r: bool)
    ensures
        r == comes_before(a@, b@),
{
    let (s, x, p) = sort_key(a);
    let (t, y, o) = sort_key(b);
    if !same(s, t) {
        less(s, t)
    } else if !same(x, y) {
        less(x, y)
    } else {
        less(p, o)
    }
}

fn insert_entry(v: &mut Vec<Entry>, e: Entry)
    ensures
        entry_views(final(v)@) == insert_sorted(entry_views(old(v)@), e@),
{
    let ghost s = entry_views(v@);
    let ghost ev = e@;
    let mut i: usize = v.len();
    assert(s.take(i as int) =~= s);
    assert(s.skip(i as int) =~= Seq::empty());
    assert(insert_sorted(s, ev) =~= insert_sorted(s.take(i as int), ev) + s.skip(i as int));
    while i > 0 && is_before(&e, &v[i - 1])
        invariant
            s == entry_views(v@),
            v@ == old(v)@,
            ev == e@,
            i <= v@.len(),
            insert_sorted(s, ev) == insert_sorted(s.take(i as int), ev) + s.skip(i as int),
        decreases i,
    {
        assert(s.take(i as int).last() == v@[i - 1]@);
        assert(s.take(i as int).drop_last() =~= s.take(i - 1));
        assert(insert_sorted(s.take(i - 1), ev).push(s[i - 1]) + s.skip(i as int)
            =~= insert_sorted(s.take(i - 1), ev) + s.skip(i - 1));
        i -= 1;
    }
    proof {
        if i > 0 {
            assert(s.take(i as int).last() == v@[i - 1]@);
        }
        assert(insert_sorted(s.take(i as int), ev) == s.take(i as int).push(ev));
    }
    v.insert(i, e);
    assert(entry_views(v@) =~= s.take(i as int).push(ev) + s.skip(i as int));
}

/// The entries of one type, in order.
fn sorted_of_type(entries: &Vec<Entry>, t: EntityType) -> (r: Vec<Entry>)
    ensures
        entry_views(r@) == in_order(of_type(entry_views(entries@), t)),
{
    let ghost es = entry_views(entries@);
    let mut out: Vec<Entry> = Vec::new();
    let mut i: usize = 0;
    assert(entry_views(out@) =~= in_order(of_type(es.take(0), t)));
    while i < entries.len()
        invariant
            es == entry_views(entries@),
            i <= entries@.len(),
            entry_views(out@) == in_order(of_type(es.take(i as int), t)),
        decreases entries@.len() - i,
    {
        assert(es.take(i + 1).drop_last() =~= es.take(i as int));
        assert(es.take(i + 1).last() == entries@[i as int]@);
        if entries[i].entity_type == t {
            let e = entries[i].clone();
            let ghost init = of_type(es.take(i as int), t);
            assert(init.push(e@).drop_last() =~= init);
            insert_entry(&mut out, e);
        }
        i += 1;
    }
    assert(es.take(i as int) =~= es);
    out
}

/// In the order of entries every entry stands once, none before one that comes before it, and
/// entries with the same key in the order they had.
pub proof fn law_in_order(s: Seq<EntryView>)
    ensures
        in_order(s).to_multiset() == s.to_multiset(),
        in_order(s).len() == s.len(),
        forall|i: int, j: int|
            0 <= i < j < s.len() ==> !comes_before(#[trigger] in_order(s)[j], #[trigger] in_order(s)[i]),
        forall|k: (Seq<char>, Seq<char>, Seq<char>)|
            #[trigger] with_key(in_order(s), k) == with_key(s, k),
    decreases s.len(),
{
    if s.len() > 0 {
        law_in_order(s.drop_last());
        let t = in_order(s.drop_last());
        lemma_insert_sorted(t, s.last());
        assert(s.drop_last().push(s.last()) =~= s);
        vstd::seq_lib::to_multiset_build(s.drop_last(), s.last());
        assert forall|k: (Seq<char>, Seq<char>, Seq<char>)| #[trigger]
            with_key(in_order(s), k) == with_key(s, k) by {
            assert(with_key(t, k) == with_key(s.drop_last(), k));
            assert(t.push(s.last()).drop_last() =~= t);
        }
    }
}

/// The entries with one sort key, in the order they stand in.
pub open spec fn with_key(s: Seq<EntryView>, k: (Seq<char>, Seq<char>, Seq<char>)) -> Seq<EntryView>
    decreases s.len(),
{
    if s.len() == 0 {
        s
    } else {
        let init = with_key(s.drop_last(), k);
        if sort_key_of(s.last()) == k {
            init.push(s.last())
        } else {
            init
        }
    }
}

/// The order of entries is irreflexive and transitive, also for entries that do not come before
/// each other.
proof fn lemma_comes_before(a: EntryView, b: EntryView, c: EntryView)
    ensures
        !comes_before(a, a),
        comes_before(a, b) ==> !comes_before(b, a),
        comes_before(a, b) && !comes_before(c, b) ==> comes_before(a, c),
        !comes_before(b, a) && !comes_before(c, b) ==> !comes_before(c, a),
{
    let (s, r, p) = sort_key_of(a);
    let (t, q, o) = sort_key_of(b);
    let (u, x, y) = sort_key_of(c);
    crate::text::lemma_text_less_order(s, t, u);
    crate::text::lemma_text_less_order(r, q, x);
    crate::text::lemma_text_less_order(p, o, y);
    crate::text::lemma_text_less_order(u, t, s);
    crate::text::lemma_text_less_order(x, q, r);
    crate::text::lemma_text_less_order(y, o, p);
    crate::text::lemma_text_less_order(s, u, t);
    crate::text::lemma_text_less_order(r, x, q);
    crate::text::lemma_text_less_order(p, y, o);
}

proof fn lemma_insert_sorted(t: Seq<EntryView>, e: EntryView)
    requires
        forall|i: int, j: int|
            0 <= i < j < t.len() ==> !comes_before(#[trigger] t[j], #[trigger] t[i]),
    ensures
        insert_sorted(t, e).to_multiset() == t.to_multiset().insert(e),
        insert_sorted(t, e).len() == t.len() + 1,
        forall|i: int, j: int|
            0 <= i < j < t.len() + 1 ==> !comes_before(
                #[trigger] insert_sorted(t, e)[j],
                #[trigger] insert_sorted(t, e)[i],
            ),
        forall|x: EntryView|
            #[trigger] insert_sorted(t, e).contains(x) ==> x == e || t.contains(x),
        forall|k: (Seq<char>, Seq<char>, Seq<char>)|
            #[trigger] with_key(insert_sorted(t, e), k) == with_key(t.push(e), k),
    decreases t.len(),
{
    let r = insert_sorted(t, e);
    if t.len() == 0 || !comes_before(e, t.last()) {
        vstd::seq_lib::to_multiset_build(t, e);
        assert forall|i: int, j: int| 0 <= i < j < t.len() + 1 implies !comes_before(
            #[trigger] r[j],
            #[trigger] r[i],
        ) by {
            if j == t.len() {
                if i < t.len() - 1 {
                    assert(!comes_before(t[t.len() - 1], t[i]));
                    lemma_comes_before(t[i], t.last(), e);
                }
            } else {
                assert(r[j] == t[j] && r[i] == t[i]);
            }
        }
        assert forall|x: EntryView| #[trigger] r.contains(x) implies x == e || t.contains(x) by {
            let k = choose|k: int| 0 <= k < r.len() && r[k] == x;
            if k < t.len() {
                assert(t[k] == x);
            }
        }
    } else {
        let init = t.drop_last();
        let l = t.last();
        let m = insert_sorted(init, e);
        assert forall|i: int, j: int| 0 <= i < j < init.len() implies !comes_before(
            #[trigger] init[j],
            #[trigger] init[i],
        ) by {
            assert(init[j] == t[j] && init[i] == t[i]);
        }
        lemma_insert_sorted(init, e);
        vstd::seq_lib::to_multiset_build(m, l);
        vstd::seq_lib::to_multiset_build(init, l);
        assert(init.push(l) =~= t);
        assert(t.to_multiset().insert(e) =~= init.to_multiset().insert(e).insert(l));
        assert forall|i: int, j: int| 0 <= i < j < t.len() + 1 implies !comes_before(
            #[trigger] r[j],
            #[trigger] r[i],
        ) by {
            if j == t.len() {
                assert(r[j] == l);
                assert(m.contains(m[i]));
                if m[i] == e {
                    lemma_comes_before(e, l, l);
                } else {
                    let k = choose|k: int| 0 <= k < init.len() && init[k] == m[i];
                    assert(t[k] == m[i]);
                    assert(!comes_before(t[t.len() - 1], t[k]));
                }
            } else {
                assert(r[j] == m[j] && r[i] == m[i]);
            }
        }
        assert forall|x: EntryView| #[trigger] r.contains(x) implies x == e || t.contains(x) by {
            let k = choose|k: int| 0 <= k < r.len() && r[k] == x;
            if k < m.len() {
                assert(m.contains(m[k]));
                if x != e {
                    let i = choose|i: int| 0 <= i < init.len() && init[i] == x;
                    assert(t[i] == x);
                }
            } else {
                assert(t[t.len() - 1] == x);
            }
        }
        assert forall|k: (Seq<char>, Seq<char>, Seq<char>)| #[trigger] with_key(r, k) == with_key(
            t.push(e),
            k,
        ) by {
            assert(with_key(m, k) == with_key(init.push(e), k));
            assert(r.drop_last() =~= m);
            assert(t.push(e).drop_last() =~= t);
            assert(init.push(e).drop_last() =~= init);
            let a = with_key(init, k);
            assert(with_key(t, k) == if sort_key_of(l) == k {
                a.push(l)
            } else {
                a
            });
            if sort_key_of(e) == k && sort_key_of(l) == k {
                assert(path_of(e) == path_of(l));
                crate::text::lemma_text_less_order(path_of(e), path_of(e), path_of(e));
            }
        }
    }
}

// ---------------------------------------------------------------------------
// Groups
// ---------------------------------------------------------------------------

/// Whether two entries come from the same repository.
pub open spec fn same_repo(a: EntryView, b: EntryView) -> bool {
    a.source.word() == b.source.word() && repo_of(a) == repo_of(b)
}

/// Entries in groups: the longest runs from the same repository.
pub open spec fn repo_groups(s: Seq<EntryView>) -> Seq<Seq<EntryView>>
    decreases s.len(),
{
    if s.len() == 0 {
        Seq::empty()
    } else {
        let g = repo_groups(s.drop_last());
        if s.len() > 1 && same_repo(s[s.len() - 2], s.last()) {
            g.drop_last().push(g.last().push(s.last()))
        } else {
            g.push(seq![s.last()])
        }
    }
}

/// The contents of lists of entries.
pub open spec fn group_views(v: Seq<Vec<Entry>>) -> Seq<Seq<EntryView>> {
    v.map_values(|g: Vec<Entry>| entry_views(g@))
}

fn is_same_repo(a: &Entry, b: &Entry) -> (r: bool)
    ensures
        r == same_repo(a@, b@),
{
    same(a.source_type(), b.source_type()) && same(a.owner_repo(), b.owner_repo())
}

/// Splits entries into runs from the same repository.
fn group_by_repo(entries: &Vec<Entry>) -> (r: Vec<Vec<Entry>>)
    ensures
        group_views(r@) == repo_groups(entry_views(entries@)),
{
    let ghost es = entry_views(entries@);
    let mut groups: Vec<Vec<Entry>> = Vec::new();
    let mut current: Vec<Entry> = Vec::new();
    let mut i: usize = 0;
    assert(group_views(groups@) =~= Seq::empty());
    while i < entries.len()
        invariant
            es == entry_views(entries@),
            i <= entries@.len(),
            i == 0 ==> current@.len() == 0 && group_views(groups@) == repo_groups(es.take(0)),
            i > 0 ==> current@.len() > 0 && repo_groups(es.take(i as int)) == group_views(
                groups@,
            ).push(entry_views(current@)),
        decreases entries@.len() - i,
    {
        let ghost t = es.take(i + 1);
        let ghost gs = group_views(groups@);
        let ghost cur = entry_views(current@);
        assert(t.drop_last() =~= es.take(i as int));
        assert(t.last() == entries@[i as int]@);
        let e = entries[i].clone();
        if i > 0 && is_same_repo(&entries[i - 1], &entries[i]) {
            assert(t[t.len() - 2] == entries@[i - 1]@);
            assert(gs.push(cur).drop_last() =~= gs);
            current.push(e);
            assert(entry_views(current@) =~= cur.push(e@));
        } else {
            assert(i > 0 ==> t[t.len() - 2] == entries@[i - 1]@);
            if i > 0 {
                groups.push(current);
                assert(group_views(groups@) =~= gs.push(cur));
            }
            current = Vec::new();
            current.push(e);
            assert(entry_views(current@) =~= seq![e@]);
        }
        i += 1;
    }
    assert(es.take(i as int) =~= es);
    if current.len() > 0 {
        let ghost gs = group_views(groups@);
        let ghost cur = entry_views(current@);
        groups.push(current);
        assert(group_views(groups@) =~= gs.push(cur));
    }
    groups
}

// ---------------------------------------------------------------------------
// Comments
// ---------------------------------------------------------------------------

/// Comments attached to the lines below them, and comments still waiting for a line.
pub struct Comments {
    pub attached: Map<Seq<char>, Seq<Seq<char>>>,
    pub pending: Seq<Seq<char>>,
}

/// One more line: comments wait, and stick to an entry line; a blank line or an install line sets
/// them free.
pub open spec fn with_comment_line(c: Comments, line: Seq<char>) -> Comments {
    let stripped = trim_both(line);
    if stripped.len() > 0 && stripped[0] == '#' {
        Comments { pending: c.pending.push(trim_end(line)), ..c }
    } else if stripped.len() == 0 || starts_with(stripped, "install"@) || c.pending.len() == 0 {
        Comments { pending: Seq::empty(), ..c }
    } else {
        Comments { attached: c.attached.insert(stripped, c.pending), pending: Seq::empty() }
    }
}

/// The comments among lines.
pub open spec fn comments_in(ls: Seq<Seq<char>>) -> Comments
    decreases ls.len(),
{
    if ls.len() == 0 {
        Comments { attached: Map::empty(), pending: Seq::empty() }
    } else {
        with_comment_line(comments_in(ls.drop_last()), ls.last())
    }
}

/// The comments directly above the entry lines of a manifest text.
pub open spec fn entry_comments(raw: Seq<char>) -> Map<Seq<char>, Seq<Seq<char>>> {
    comments_in(lines(text_without_bom(raw))).attached
}

/// A list of pairs as a map: of two pairs for one key the later counts.
pub open spec fn pairs_map(v: Seq<(String, Vec<String>)>) -> Map<Seq<char>, Seq<Seq<char>>>
    decreases v.len(),
{
    if v.len() == 0 {
        Map::empty()
    } else {
        pairs_map(v.drop_last()).insert(v.last().0@, texts(v.last().1@))
    }
}

/// Finds the comments directly above the entry lines of a manifest text.
fn extract_entry_comments(raw_text: &str) -> (r: Vec<(String, Vec<String>)>)
    ensures
        pairs_map(r@) == entry_comments(raw_text@),
{
    let text = strip_bom(raw_text);
    let all = plain_lines(&text);
    let ghost ls = texts(all@);
    let mut attached: Vec<(String, Vec<String>)> = Vec::new();
    let mut pending: Vec<String> = Vec::new();
    let mut i: usize = 0;
    assert(texts(pending@) =~= Seq::empty());
    while i < all.len()
        invariant
            ls == texts(all@),
            i <= all@.len(),
            comments_in(ls.take(i as int)) == (Comments {
                attached: pairs_map(attached@),
                pending: texts(pending@),
            }),
        decreases all@.len() - i,
    {
        assert(ls.take(i + 1).drop_last() =~= ls.take(i as int));
        assert(ls.take(i + 1).last() == all@[i as int]@);
        let stripped = trimmed(&all[i]);
        let first = to_chars(&stripped);
        let ghost waiting = texts(pending@);
        if first.len() > 0 && first[0] == '#' {
            let c = trimmed_end(&all[i]);
            pending.push(c);
            assert(texts(pending@) =~= waiting.push(c@));
        } else if first.len() == 0 || starts(&stripped, "install") || pending.len() == 0 {
            pending = Vec::new();
            assert(texts(pending@) =~= Seq::empty());
        } else {
            let ghost pair = (stripped, pending);
            let ghost before = attached@;
            attached.push((stripped, pending));
            assert(attached@.drop_last() =~= before);
            assert(attached@.last() == pair);
            pending = Vec::new();
            assert(texts(pending@) =~= Seq::empty());
        }
        i += 1;
    }
    assert(ls.take(i as int) =~= ls);
    attached
}

/// The position of the comments of a line.
fn find_comments(v: &Vec<(String, Vec<String>)>, line: &str) -> (r: Option<usize>)
    ensures
        match r {
            Some(i) => i < v@.len() && pairs_map(v@).dom().contains(line@) && pairs_map(
                v@,
            )[line@] == texts(v@[i as int].1@),
            None => !pairs_map(v@).dom().contains(line@),
        },
{
    let mut n: usize = v.len();
    assert(v@.take(n as int) =~= v@);
    while n > 0
        invariant
            n <= v@.len(),
            pairs_map(v@).dom().contains(line@) == pairs_map(v@.take(n as int)).dom().contains(
                line@,
            ),
            pairs_map(v@)[line@] == pairs_map(v@.take(n as int))[line@],
        decreases n,
    {
        assert(v@.take(n as int).drop_last() =~= v@.take(n - 1));
        assert(v@.take(n as int).last() == v@[n - 1]);
        if same(&v[n - 1].0, line) {
            return Some(n - 1);
        }
        n -= 1;
    }
    None
}

// ---------------------------------------------------------------------------
// The text
// ---------------------------------------------------------------------------

/// The lines above the entries of a type.
pub open spec fn headers_of(t: EntityType) -> Seq<Seq<char>> {
    match t {
        EntityType::Agent => seq![
            "# --- Agents ---"@,
            "# github  agent  [name]  <owner/repo>  <path-or-dir>  [ref]"@,
        ],
        EntityType::Skill => seq![
            "# --- Skills ---"@,
            "# github  skill  [name]  <owner/repo>  <path-or-dir>  [ref]"@,
        ],
    }
}

/// The lines of an entry: the comments attached to it, and its own.
pub open spec fn lines_of_entry(e: EntryView, c: Map<Seq<char>, Seq<Seq<char>>>) -> Seq<Seq<char>> {
    if c.dom().contains(entry_line(e)) {
        c[entry_line(e)].push(entry_line(e))
    } else {
        seq![entry_line(e)]
    }
}

/// The lines of the entries of a group.
pub open spec fn lines_of_entries(
    s: Seq<EntryView>,
    c: Map<Seq<char>, Seq<Seq<char>>>,
) -> Seq<Seq<char>>
    decreases s.len(),
{
    if s.len() == 0 {
        Seq::empty()
    } else {
        lines_of_entries(s.drop_last(), c) + lines_of_entry(s.last(), c)
    }
}

/// The lines of groups, each below a blank line.
pub open spec fn lines_of_groups(
    gs: Seq<Seq<EntryView>>,
    c: Map<Seq<char>, Seq<Seq<char>>>,
) -> Seq<Seq<char>>
    decreases gs.len(),
{
    if gs.len() == 0 {
        Seq::empty()
    } else {
        lines_of_groups(gs.drop_last(), c).push(Seq::empty()) + lines_of_entries(gs.last(), c)
    }
}

/// The lines of the entries of a type: nothing where there are none.
pub open spec fn section_lines(
    entries: Seq<EntryView>,
    t: EntityType,
    c: Map<Seq<char>, Seq<Seq<char>>>,
) -> Seq<Seq<char>> {
    let s = in_order(of_type(entries, t));
    if s.len() == 0 {
        Seq::empty()
    } else {
        seq![Seq::<char>::empty()] + headers_of(t) + lines_of_groups(repo_groups(s), c)
    }
}

/// The line of an install target.
pub open spec fn target_line(t: TargetView) -> Seq<char> {
    "install  "@ + t.adapter + "  "@ + t.scope.word()
}

/// The lines of the install targets: nothing where there are none.
pub open spec fn target_lines(ts: Seq<TargetView>) -> Seq<Seq<char>> {
    if ts.len() == 0 {
        Seq::empty()
    } else {
        seq![INSTALL_COMMENT@] + ts.map_values(|t: TargetView| target_line(t))
    }
}

/// The lines of a manifest in canonical order: targets, agents, skills.
pub open spec fn canonical_lines(
    m: ManifestView,
    c: Map<Seq<char>, Seq<Seq<char>>>,
) -> Seq<Seq<char>> {
    target_lines(m.install_targets) + section_lines(m.entries, EntityType::Agent, c)
        + section_lines(m.entries, EntityType::Skill, c)
}

/// A manifest in canonical order, with the comments of its entries.
pub open spec fn canonical_text(m: ManifestView, raw: Seq<char>) -> Seq<char> {
    join(canonical_lines(m, entry_comments(raw)), "\n"@) + "\n"@
}

fn push_line(out: &mut Vec<String>, line: &str)
    ensures
        texts(final(out)@) == texts(old(out)@).push(line@),
{
    let ghost before = texts(out@);
    let s: String = line.to_owned();
    out.push(s);
    assert(texts(out@) =~= before.push(line@));
}

fn section_headers(t: EntityType) -> (r: (&'static str, &'static str))
    ensures
        seq![r.0@, r.1@] == headers_of(t),
{
    match t {
        EntityType::Agent => (
            "# --- Agents ---",
            "# github  agent  [name]  <owner/repo>  <path-or-dir>  [ref]",
        ),
        EntityType::Skill => (
            "# --- Skills ---",
            "# github  skill  [name]  <owner/repo>  <path-or-dir>  [ref]",
        ),
    }
}

fn push_entry(out: &mut Vec<String>, e: &Entry, comments: &Vec<(String, Vec<String>)>)
    ensures
        texts(final(out)@) == texts(old(out)@) + lines_of_entry(e@, pairs_map(comments@)),
{
    let ghost before = texts(out@);
    let formatted = format_line(e);
    if let Some(k) = find_comments(comments, &formatted) {
        let cs = &comments[k].1;
        let ghost added = texts(cs@);
        let mut i: usize = 0;
        assert(before + added.take(0) =~= before);
        while i < cs.len()
            invariant
                added == texts(cs@),
                i <= cs@.len(),
                texts(out@) == before + added.take(i as int),
            decreases cs@.len() - i,
        {
            push_line(out, &cs[i]);
            assert(before + added.take(i + 1) =~= (before + added.take(i as int)).push(
                cs@[i as int]@,
            ));
            i += 1;
        }
        assert(added.take(i as int) =~= added);
        push_line(out, &formatted);
        assert(texts(out@) =~= before + added.push(formatted@));
    } else {
        push_line(out, &formatted);
        assert(texts(out@) =~= before + seq![formatted@]);
    }
}

fn push_entries(out: &mut Vec<String>, es: &Vec<Entry>, comments: &Vec<(String, Vec<String>)>)
    ensures
        texts(final(out)@) == texts(old(out)@) + lines_of_entries(
            entry_views(es@),
            pairs_map(comments@),
        ),
{
    let ghost before = texts(out@);
    let ghost s = entry_views(es@);
    let ghost c = pairs_map(comments@);
    let mut i: usize = 0;
    assert(before + lines_of_entries(s.take(0), c) =~= before);
    while i < es.len()
        invariant
            s == entry_views(es@),
            c == pairs_map(comments@),
            i <= es@.len(),
            texts(out@) == before + lines_of_entries(s.take(i as int), c),
        decreases es@.len() - i,
    {
        assert(s.take(i + 1).drop_last() =~= s.take(i as int));
        assert(s.take(i + 1).last() == es@[i as int]@);
        push_entry(out, &es[i], comments);
        assert(texts(out@) =~= before + lines_of_entries(s.take(i + 1), c));
        i += 1;
    }
    assert(s.take(i as int) =~= s);
}

fn push_section(
    out: &mut Vec<String>,
    entries: &Vec<Entry>,
    t: EntityType,
    comments: &Vec<(String, Vec<String>)>,
)
    ensures
        texts(final(out)@) == texts(old(out)@) + section_lines(
            entry_views(entries@),
            t,
            pairs_map(comments@),
        ),
{
    let ghost before = texts(out@);
    let ghost c = pairs_map(comments@);
    let sorted = sorted_of_type(entries, t);
    let ghost s = entry_views(sorted@);
    assert(s.len() == sorted@.len());
    if sorted.len() == 0 {
        assert(texts(out@) =~= before + Seq::<Seq<char>>::empty());
        return;
    }
    proof {
        reveal_strlit("");
        assert(""@ =~= Seq::<char>::empty());
    }
    push_line(out, "");
    let (h1, h2) = section_headers(t);
    push_line(out, h1);
    push_line(out, h2);
    let ghost base = texts(out@);
    assert(base =~= before + (seq![Seq::<char>::empty()] + headers_of(t)));
    let groups = group_by_repo(&sorted);
    let ghost gs = group_views(groups@);
    let mut i: usize = 0;
    assert(base + lines_of_groups(gs.take(0), c) =~= base);
    while i < groups.len()
        invariant
            gs == group_views(groups@),
            c == pairs_map(comments@),
            i <= groups@.len(),
            ""@ == Seq::<char>::empty(),
            texts(out@) == base + lines_of_groups(gs.take(i as int), c),
        decreases groups@.len() - i,
    {
        assert(gs.take(i + 1).drop_last() =~= gs.take(i as int));
        assert(gs.take(i + 1).last() == entry_views(groups@[i as int]@));
        push_line(out, "");
        push_entries(out, &groups[i], comments);
        assert(texts(out@) =~= base + lines_of_groups(gs.take(i + 1), c));
        i += 1;
    }
    assert(gs.take(i as int) =~= gs);
    assert(texts(out@) =~= before + (seq![Seq::<char>::empty()] + headers_of(t)
        + lines_of_groups(gs, c)));
}

fn push_targets(out: &mut Vec<String>, targets: &Vec<InstallTarget>)
    ensures
        texts(final(out)@) == texts(old(out)@) + target_lines(target_views(targets@)),
{
    let ghost before = texts(out@);
    let ghost ts = target_views(targets@);
    let ghost ls = ts.map_values(|t: TargetView| target_line(t));
    if targets.len() == 0 {
        assert(texts(out@) =~= before + Seq::<Seq<char>>::empty());
        return;
    }
    push_line(out, INSTALL_COMMENT);
    let ghost base = texts(out@);
    let mut i: usize = 0;
    assert(base + ls.take(0) =~= base);
    while i < targets.len()
        invariant
            ts == target_views(targets@),
            ls == ts.map_values(|t: TargetView| target_line(t)),
            i <= targets@.len(),
            texts(out@) == base + ls.take(i as int),
        decreases targets@.len() - i,
    {
        let t = &targets[i];
        let mut l: String = String::from_str("install  ");
        l.append(&t.adapter);
        l.append("  ");
        l.append(t.scope.as_str());
        assert(ls[i as int] == target_line(ts[i as int]));
        assert(l@ == ls[i as int]);
        push_line(out, &l);
        assert(base + ls.take(i + 1) =~= (base + ls.take(i as int)).push(l@));
        i += 1;
    }
    assert(ls.take(i as int) =~= ls);
    assert(texts(out@) =~= before + (seq![INSTALL_COMMENT@] + ls));
}

/// Writes a manifest in canonical order: install targets, then agents, then skills, each in order
/// and in groups by repository. Comments directly above an entry in `raw_text` stay above it.
pub fn sorted_manifest_text(manifest: &Manifest, raw_text: &str) -> (r: String)
    ensures
        r@ == canonical_text(manifest@, raw_text@),
{
    let comments = extract_entry_comments(raw_text);
    let mut out: Vec<String> = Vec::new();
    assert(texts(out@) =~= Seq::empty());
    push_targets(&mut out, &manifest.install_targets);
    assert(texts(out@) =~= target_lines(manifest@.install_targets));
    push_section(&mut out, &manifest.entries, EntityType::Agent, &comments);
    push_section(&mut out, &manifest.entries, EntityType::Skill, &comments);
    let mut text = join_all(&out, "\n");
    text.append("\n");
    text
}

// ---------------------------------------------------------------------------
// The command
// ---------------------------------------------------------------------------

/// What sorting a manifest does: what is printed, and the new text of the manifest, where it is
/// written.
pub struct SortPlan {
    pub output: String,
    pub manifest_text: Option<String>,
}

/// What is said of a sorted manifest.
pub open spec fn sorted_message(n: nat) -> Seq<char> {
    "Sorted "@ + decimal(n) + " "@ + entry_word(n) + ".\n"@
}

/// Works out what sorting a manifest does, whose text is given where it exists. A dry run prints
/// the sorted text and writes nothing.
pub fn cmd_sort(repo_root: &str, manifest: Option<&str>, dry_run: bool) -> (r: Result<
    SortPlan,
    SkillfileError,
>)
    ensures
        match manifest {
            None => r matches Err(SkillfileError::Manifest(m)) && m@ == missing_manifest_text(
                repo_root@,
            ),
            Some(raw) => {
                let m = manifest_of(text_without_bom(raw@)).manifest();
                &&& r matches Ok(p) && (if dry_run {
                    p.output@ == canonical_text(m, raw@) && p.manifest_text is None
                } else {
                    p.output@ == sorted_message(m.entries.len()) && opt_text(p.manifest_text)
                        == Some(canonical_text(m, raw@))
                })
            },
        },
{
    let raw = match manifest {
        None => {
            return Err(missing_manifest(repo_root));
        },
        Some(t) => t,
    };
    let result = parse_manifest_str(raw);
    assert(result.manifest@ == result@.manifest());
    let text = sorted_manifest_text(&result.manifest, raw);
    if dry_run {
        return Ok(SortPlan { output: text, manifest_text: None });
    }
    let n: usize = result.manifest.entries.len();
    assert(entry_views(result.manifest.entries@).len() == n);
    let count = size_number(n);
    let mut output = sentence("Sorted ", &count, " ");
    output.append(
        if n == 1 {
            "entry"
        } else {
            "entries"
        },
    );
    output.append(".\n");
    Ok(SortPlan { output, manifest_text: Some(text) })
}

} // verus!
