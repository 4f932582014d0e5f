//! Sorting twice is sorting once.

use vstd::prelude::*;
use crate::commands::sort::{
    canonical_lines, canonical_text, comes_before, comments_in, entry_comments, entry_line,
    headers_of, in_order, law_in_order, lines_of_entries, lines_of_entry, lines_of_groups, of_type,
    repo_groups, section_lines, target_line, target_lines, with_comment_line, Comments,
    INSTALL_COMMENT,
};
use crate::lines::lines;
use crate::manifest_laws::{
    all_comments, all_writable, attached_comments, flat, is_comment, law_canonical_text_round_trip,
    lemma_comments_kept, lemma_entry_line_meaning, lemma_groups_flat, lemma_headers,
    lemma_lines_of_join, lemma_no_newline_in_lines, lemma_section, lemma_sorted_writable,
    lemma_target_line_meaning, lemma_targets_section, lemma_trim_keeps_first, line_safe,
    writable_entry, writable_target,
};
use crate::models::{EntityType, EntryView, ManifestView, TargetView};
use crate::parser::{manifest_of, text_without_bom};
use crate::text::{join, trim_both, trim_end};

verus! {

// ---------------------------------------------------------------------------
// Order
// ---------------------------------------------------------------------------

proof fn lemma_in_order_already(s: Seq<EntryView>)
    requires
        forall|i: int, j: int|
            0 <= i < j < s.len() ==> !comes_before(#[trigger] s[j], #[trigger] s[i]),
    ensures
        in_order(s) == s,
    decreases s.len(),
{
    if s.len() > 0 {
        let init = s.drop_last();
        assert forall|i: int, j: int| 0 <= i < j < init.len() implies !comes_before(
            #[trigger] init[j],
            #[trigger] init[i],
        ) by {
            assert(init[i] == s[i] && init[j] == s[j]);
        }
        lemma_in_order_already(init);
        if init.len() > 0 {
            assert(init.last() == s[s.len() - 2]);
            assert(!comes_before(s[s.len() - 1], s[s.len() - 2]));
        }
        assert(init.push(s.last()) =~= s);
    }
}

proof fn lemma_of_type_add(a: Seq<EntryView>, b: Seq<EntryView>, t: EntityType)
    ensures
        of_type(a + b, t) == of_type(a, t) + of_type(b, t),
    decreases b.len(),
{
    if b.len() == 0 {
        assert(a + b =~= a);
        assert(of_type(a, t) + of_type(b, t) =~= of_type(a, t));
    } else {
        lemma_of_type_add(a, b.drop_last(), t);
        assert((a + b).drop_last() =~= a + b.drop_last());
        assert((a + b).last() == b.last());
        assert(of_type(a + b, t) =~= of_type(a, t) + of_type(b, t));
    }
}

proof fn lemma_of_one_type(s: Seq<EntryView>, own: EntityType, t: EntityType)
    requires
        forall|i: int| 0 <= i < s.len() ==> (#[trigger] s[i]).entity_type == own,
    ensures
        of_type(s, t) == (if own == t {
            s
        } else {
            Seq::empty()
        }),
    decreases s.len(),
{
    if s.len() > 0 {
        let init = s.drop_last();
        assert forall|i: int| 0 <= i < init.len() implies (#[trigger] init[i]).entity_type == own by {
            assert(init[i] == s[i]);
        }
        lemma_of_one_type(init, own, t);
        assert(s[s.len() - 1].entity_type == own);
        assert(init.push(s.last()) =~= s);
    } else {
        assert(s =~= Seq::empty());
    }
}

/// The entries of a type of a sorted manifest are those of the manifest, in order.
proof fn lemma_sorted_section(entries: Seq<EntryView>, t: EntityType)
    requires
        all_writable(entries),
    ensures
        in_order(
            of_type(
                in_order(of_type(entries, EntityType::Agent)) + in_order(
                    of_type(entries, EntityType::Skill),
                ),
                t,
            ),
        ) == in_order(of_type(entries, t)),
{
    let a = in_order(of_type(entries, EntityType::Agent));
    let s = in_order(of_type(entries, EntityType::Skill));
    lemma_sorted_writable(entries, EntityType::Agent);
    lemma_sorted_writable(entries, EntityType::Skill);
    lemma_of_type_add(a, s, t);
    lemma_of_one_type(a, EntityType::Agent, t);
    lemma_of_one_type(s, EntityType::Skill, t);
    law_in_order(of_type(entries, t));
    match t {
        EntityType::Agent => {
            assert(of_type(a + s, t) =~= a);
            lemma_in_order_already(a);
        },
        EntityType::Skill => {
            assert(of_type(a + s, t) =~= s);
            lemma_in_order_already(s);
        },
    }
}

// ---------------------------------------------------------------------------
// Comments
// ---------------------------------------------------------------------------

/// The comments after more lines.
spec fn after_lines(c: Comments, ls: Seq<Seq<char>>) -> Comments
    decreases ls.len(),
{
    if ls.len() == 0 {
        c
    } else {
        with_comment_line(after_lines(c, ls.drop_last()), ls.last())
    }
}

proof fn lemma_comments_from_start(ls: Seq<Seq<char>>)
    ensures
        comments_in(ls) == after_lines(
            Comments { attached: Map::empty(), pending: Seq::empty() },
            ls,
        ),
    decreases ls.len(),
{
    if ls.len() > 0 {
        lemma_comments_from_start(ls.drop_last());
    }
}

proof fn lemma_after_add(c: Comments, a: Seq<Seq<char>>, b: Seq<Seq<char>>)
    ensures
        after_lines(c, a + b) == after_lines(after_lines(c, a), b),
    decreases b.len(),
{
    if b.len() == 0 {
        assert(a + b =~= a);
    } else {
        lemma_after_add(c, a, b.drop_last());
        assert((a + b).drop_last() =~= a + b.drop_last());
        assert((a + b).last() == b.last());
    }
}

proof fn lemma_after_one(c: Comments, l: Seq<char>)
    ensures
        after_lines(c, seq![l]) == with_comment_line(c, l),
{
    assert(seq![l].drop_last() =~= Seq::empty());
    assert(after_lines(c, seq![l].drop_last()) == c);
}

proof fn lemma_after_comments(c: Comments, cs: Seq<Seq<char>>)
    requires
        forall|i: int|
            0 <= i < cs.len() ==> trim_both(#[trigger] cs[i]).len() > 0 && trim_both(cs[i])[0] == '#'
                && trim_end(cs[i]) == cs[i],
    ensures
        after_lines(c, cs) == (Comments { attached: c.attached, pending: c.pending + cs }),
    decreases cs.len(),
{
    if cs.len() == 0 {
        assert(c.pending + cs =~= c.pending);
    } else {
        let init = cs.drop_last();
        assert forall|i: int| 0 <= i < init.len() implies trim_both(#[trigger] init[i]).len() > 0
            && trim_both(init[i])[0] == '#' && trim_end(init[i]) == init[i] by {
            assert(init[i] == cs[i]);
        }
        lemma_after_comments(c, init);
        assert(trim_end(cs[cs.len() - 1]) == cs.last());
        assert(c.pending + cs =~= (c.pending + init).push(cs.last()));
    }
}

/// Whether what is attached are comments that were attached before.
spec fn comes_from(now: Map<Seq<char>, Seq<Seq<char>>>, c: Map<Seq<char>, Seq<Seq<char>>>) -> bool {
    forall|k: Seq<char>| #[trigger] now.dom().contains(k) ==> c.dom().contains(k) && now[k] == c[k]
}

/// Whether the comments of entries are attached again.
spec fn covers(
    now: Map<Seq<char>, Seq<Seq<char>>>,
    s: Seq<EntryView>,
    c: Map<Seq<char>, Seq<Seq<char>>>,
) -> bool {
    forall|i: int|
        0 <= i < s.len() && c.dom().contains(entry_line(#[trigger] s[i])) ==> now.dom().contains(
            entry_line(s[i]),
        )
}

/// Whether nothing that is attached is lost.
spec fn grows(
    before: Map<Seq<char>, Seq<Seq<char>>>,
    after: Map<Seq<char>, Seq<Seq<char>>>,
) -> bool {
    forall|k: Seq<char>| #[trigger] before.dom().contains(k) ==> after.dom().contains(k)
}

proof fn lemma_entry_step(st: Comments, e: EntryView, c: Map<Seq<char>, Seq<Seq<char>>>)
    requires
        writable_entry(e),
        attached_comments(c),
        st.pending.len() == 0,
        comes_from(st.attached, c),
    ensures
        ({
            let r = after_lines(st, lines_of_entry(e, c));
            &&& r.pending.len() == 0
            &&& comes_from(r.attached, c)
            &&& grows(st.attached, r.attached)
            &&& c.dom().contains(entry_line(e)) ==> r.attached.dom().contains(entry_line(e))
        }),
{
    lemma_entry_line_meaning(e);
    let l = entry_line(e);
    if c.dom().contains(l) {
        let cs = c[l];
        assert(cs.len() > 0 && all_comments(cs));
        assert forall|i: int| 0 <= i < cs.len() implies trim_both(#[trigger] cs[i]).len() > 0
            && trim_both(cs[i])[0] == '#' && trim_end(cs[i]) == cs[i] by {
            assert(is_comment(cs[i]));
        }
        lemma_after_comments(st, cs);
        assert(cs.push(l).drop_last() =~= cs);
        assert(st.pending + cs =~= cs);
    } else {
        lemma_after_one(st, l);
    }
}

proof fn lemma_entries_step(st: Comments, s: Seq<EntryView>, c: Map<Seq<char>, Seq<Seq<char>>>)
    requires
        all_writable(s),
        attached_comments(c),
        st.pending.len() == 0,
        comes_from(st.attached, c),
    ensures
        ({
            let r = after_lines(st, lines_of_entries(s, c));
            &&& r.pending.len() == 0
            &&& comes_from(r.attached, c)
            &&& grows(st.attached, r.attached)
            &&& covers(r.attached, s, c)
        }),
    decreases s.len(),
{
    if s.len() > 0 {
        let init = s.drop_last();
        assert forall|i: int| 0 <= i < init.len() implies writable_entry(#[trigger] init[i]) by {
            assert(init[i] == s[i]);
        }
        assert(writable_entry(s[s.len() - 1]));
        lemma_entries_step(st, init, c);
        let mid = after_lines(st, lines_of_entries(init, c));
        lemma_entry_step(mid, s.last(), c);
        lemma_after_add(st, lines_of_entries(init, c), lines_of_entry(s.last(), c));
        let r = after_lines(st, lines_of_entries(s, c));
        assert forall|i: int|
            0 <= i < s.len() && c.dom().contains(entry_line(#[trigger] s[i])) implies r.attached.dom().contains(
            entry_line(s[i]),
        ) by {
            if i < init.len() {
                assert(init[i] == s[i]);
                assert(mid.attached.dom().contains(entry_line(init[i])));
            }
        }
    }
}

proof fn lemma_blank_step(st: Comments)
    ensures
        with_comment_line(st, Seq::empty()) == (Comments {
            attached: st.attached,
            pending: Seq::empty(),
        }),
{
    assert(trim_both(Seq::<char>::empty()).len() == 0);
}

proof fn lemma_groups_step(
    st: Comments,
    gs: Seq<Seq<EntryView>>,
    c: Map<Seq<char>, Seq<Seq<char>>>,
)
    requires
        all_writable(flat(gs)),
        attached_comments(c),
        comes_from(st.attached, c),
    ensures
        ({
            let r = after_lines(st, lines_of_groups(gs, c));
            &&& gs.len() > 0 ==> r.pending.len() == 0
            &&& comes_from(r.attached, c)
            &&& grows(st.attached, r.attached)
            &&& covers(r.attached, flat(gs), c)
        }),
    decreases gs.len(),
{
    if gs.len() > 0 {
        let init = gs.drop_last();
        let g = gs.last();
        let f = flat(init);
        assert forall|i: int| 0 <= i < f.len() implies writable_entry(#[trigger] f[i]) by {
            assert(flat(gs)[i] == f[i]);
        }
        assert forall|i: int| 0 <= i < g.len() implies writable_entry(#[trigger] g[i]) by {
            assert(flat(gs)[f.len() + i] == g[i]);
        }
        lemma_groups_step(st, init, c);
        let a = lines_of_groups(init, c);
        let one = after_lines(st, a);
        let two = after_lines(st, a.push(Seq::empty()));
        assert(a.push(Seq::<char>::empty()).drop_last() =~= a);
        lemma_blank_step(one);
        lemma_entries_step(two, g, c);
        lemma_after_add(st, a.push(Seq::empty()), lines_of_entries(g, c));
        let r = after_lines(st, lines_of_groups(gs, c));
        assert forall|i: int|
            0 <= i < flat(gs).len() && c.dom().contains(
                entry_line(#[trigger] flat(gs)[i]),
            ) implies r.attached.dom().contains(entry_line(flat(gs)[i])) by {
            if i < f.len() {
                assert(flat(gs)[i] == f[i]);
                assert(one.attached.dom().contains(entry_line(f[i])));
            } else {
                assert(flat(gs)[i] == g[i - f.len()]);
            }
        }
    }
}

proof fn lemma_section_step(
    st: Comments,
    entries: Seq<EntryView>,
    t: EntityType,
    c: Map<Seq<char>, Seq<Seq<char>>>,
)
    requires
        all_writable(entries),
        attached_comments(c),
        st.pending.len() == 0,
        comes_from(st.attached, c),
    ensures
        ({
            let r = after_lines(st, section_lines(entries, t, c));
            &&& r.pending.len() == 0
            &&& comes_from(r.attached, c)
            &&& grows(st.attached, r.attached)
            &&& covers(r.attached, in_order(of_type(entries, t)), c)
        }),
{
    let o = in_order(of_type(entries, t));
    if o.len() > 0 {
        lemma_sorted_writable(entries, t);
        lemma_groups_flat(o);
        lemma_headers(t);
        let blank = seq![Seq::<char>::empty()];
        let h = headers_of(t);
        let gs = repo_groups(o);
        assert forall|i: int| 0 <= i < h.len() implies trim_both(#[trigger] h[i]).len() > 0
            && trim_both(h[i])[0] == '#' && trim_end(h[i]) == h[i] by {
            lemma_trim_keeps_first(h[i]);
            reveal_strlit("# --- Agents ---");
            reveal_strlit("# github  agent  [name]  <owner/repo>  <path-or-dir>  [ref]");
            reveal_strlit("# --- Skills ---");
            reveal_strlit("# github  skill  [name]  <owner/repo>  <path-or-dir>  [ref]");
        }
        lemma_after_one(st, Seq::empty());
        lemma_blank_step(st);
        let one = after_lines(st, blank);
        lemma_after_comments(one, h);
        lemma_after_add(st, blank, h);
        let two = after_lines(st, blank + h);
        lemma_groups_step(two, gs, c);
        lemma_after_add(st, blank + h, lines_of_groups(gs, c));
    }
}

proof fn lemma_install_lines_step(st: Comments, ts: Seq<TargetView>)
    requires
        forall|i: int| 0 <= i < ts.len() ==> writable_target(#[trigger] ts[i]),
    ensures
        ({
            let r = after_lines(st, ts.map_values(|t: TargetView| target_line(t)));
            &&& r.attached == st.attached
            &&& ts.len() > 0 ==> r.pending.len() == 0
        }),
    decreases ts.len(),
{
    let ls = ts.map_values(|t: TargetView| target_line(t));
    if ts.len() > 0 {
        let init = ts.drop_last();
        assert forall|i: int| 0 <= i < init.len() implies writable_target(#[trigger] init[i]) by {
            assert(init[i] == ts[i]);
        }
        lemma_install_lines_step(st, init);
        assert(ls.drop_last() =~= init.map_values(|t: TargetView| target_line(t)));
        assert(ls.last() == target_line(ts.last()));
        assert(writable_target(ts[ts.len() - 1]));
        lemma_target_line_meaning(ts.last());
        reveal_strlit("install");
        let l = target_line(ts.last());
        assert(l[0] == l.subrange(0, 7)[0]);
    }
}

proof fn lemma_targets_step(st: Comments, ts: Seq<TargetView>)
    requires
        forall|i: int| 0 <= i < ts.len() ==> writable_target(#[trigger] ts[i]),
        st.pending.len() == 0,
    ensures
        after_lines(st, target_lines(ts)).attached == st.attached,
        after_lines(st, target_lines(ts)).pending.len() == 0,
{
    if ts.len() > 0 {
        let head = seq![INSTALL_COMMENT@];
        lemma_after_add(st, head, ts.map_values(|t: TargetView| target_line(t)));
        lemma_after_one(st, INSTALL_COMMENT@);
        reveal_strlit("# install  <platform>  <scope>");
        lemma_trim_keeps_first(INSTALL_COMMENT@);
        lemma_install_lines_step(after_lines(st, head), ts);
    }
}

/// The comments that are found in the lines of a sorted manifest are those that were put there.
proof fn lemma_comments_found(m: ManifestView, c: Map<Seq<char>, Seq<Seq<char>>>)
    requires
        all_writable(m.entries),
        forall|i: int|
            0 <= i < m.install_targets.len() ==> writable_target(#[trigger] m.install_targets[i]),
        attached_comments(c),
    ensures
        ({
            let now = comments_in(canonical_lines(m, c)).attached;
            &&& comes_from(now, c)
            &&& covers(now, in_order(of_type(m.entries, EntityType::Agent)), c)
            &&& covers(now, in_order(of_type(m.entries, EntityType::Skill)), c)
        }),
{
    let st = Comments { attached: Map::empty(), pending: Seq::empty() };
    let a = target_lines(m.install_targets);
    let b = section_lines(m.entries, EntityType::Agent, c);
    let d = section_lines(m.entries, EntityType::Skill, c);
    lemma_comments_from_start(a + b + d);
    lemma_targets_step(st, m.install_targets);
    let one = after_lines(st, a);
    lemma_section_step(one, m.entries, EntityType::Agent, c);
    lemma_after_add(st, a, b);
    let two = after_lines(st, a + b);
    lemma_section_step(two, m.entries, EntityType::Skill, c);
    lemma_after_add(st, a + b, d);
    let r = after_lines(st, a + b + d);
    let s = in_order(of_type(m.entries, EntityType::Agent));
    assert forall|i: int|
        0 <= i < s.len() && c.dom().contains(entry_line(#[trigger] s[i])) implies r.attached.dom().contains(
        entry_line(s[i]),
    ) by {
        assert(two.attached.dom().contains(entry_line(s[i])));
    }
}

// ---------------------------------------------------------------------------
// Lines with the comments that are found
// ---------------------------------------------------------------------------

proof fn lemma_same_entries_lines(
    s: Seq<EntryView>,
    now: Map<Seq<char>, Seq<Seq<char>>>,
    c: Map<Seq<char>, Seq<Seq<char>>>,
)
    requires
        comes_from(now, c),
        covers(now, s, c),
    ensures
        lines_of_entries(s, now) == lines_of_entries(s, c),
    decreases s.len(),
{
    if s.len() > 0 {
        let init = s.drop_last();
        assert forall|i: int|
            0 <= i < init.len() && c.dom().contains(entry_line(#[trigger] init[i])) implies now.dom().contains(
            entry_line(init[i]),
        ) by {
            assert(init[i] == s[i]);
        }
        lemma_same_entries_lines(init, now, c);
        let l = entry_line(s[s.len() - 1]);
        assert(now.dom().contains(l) == c.dom().contains(l));
    }
}

proof fn lemma_same_groups_lines(
    gs: Seq<Seq<EntryView>>,
    now: Map<Seq<char>, Seq<Seq<char>>>,
    c: Map<Seq<char>, Seq<Seq<char>>>,
)
    requires
        comes_from(now, c),
        covers(now, flat(gs), c),
    ensures
        lines_of_groups(gs, now) == lines_of_groups(gs, c),
    decreases gs.len(),
{
    if gs.len() > 0 {
        let init = gs.drop_last();
        let g = gs.last();
        let f = flat(init);
        assert forall|i: int|
            0 <= i < f.len() && c.dom().contains(entry_line(#[trigger] f[i])) implies now.dom().contains(
            entry_line(f[i]),
        ) by {
            assert(flat(gs)[i] == f[i]);
        }
        assert forall|i: int|
            0 <= i < g.len() && c.dom().contains(entry_line(#[trigger] g[i])) implies now.dom().contains(
            entry_line(g[i]),
        ) by {
            assert(flat(gs)[f.len() + i] == g[i]);
        }
        lemma_same_groups_lines(init, now, c);
        lemma_same_entries_lines(g, now, c);
    }
}

/// Whether all entries and targets of a manifest can be written.
pub open spec fn writable_manifest(m: ManifestView) -> bool {
    &&& all_writable(m.entries)
    &&& forall|i: int|
        0 <= i < m.install_targets.len() ==> writable_target(#[trigger] m.install_targets[i])
}

/// Sorting a sorted manifest changes nothing: its text, read and sorted again, is the same.
pub proof fn law_sort_is_idempotent(m: ManifestView, raw: Seq<char>)
    requires
        writable_manifest(m),
    ensures
        ({
            let text = canonical_text(m, raw);
            canonical_text(manifest_of(text_without_bom(text)).manifest(), text) == text
        }),
{
    let c = entry_comments(raw);
    let text = canonical_text(m, raw);
    let ls = canonical_lines(m, c);
    lemma_no_newline_in_lines(text_without_bom(raw));
    lemma_comments_kept(lines(text_without_bom(raw)));
    law_canonical_text_round_trip(m, raw);
    lemma_targets_section(m.install_targets);
    lemma_section(m.entries, EntityType::Agent, c);
    lemma_section(m.entries, EntityType::Skill, c);
    let a = target_lines(m.install_targets);
    let b = section_lines(m.entries, EntityType::Agent, c);
    let d = section_lines(m.entries, EntityType::Skill, c);
    assert(ls == a + b + d);
    lemma_text_start(m, c);
    let again = manifest_of(text).manifest();
    lemma_sorted_section(m.entries, EntityType::Agent);
    lemma_sorted_section(m.entries, EntityType::Skill);
    let now = entry_comments(text);
    if ls.len() == 0 {
        assert(a.len() == 0 && b.len() == 0 && d.len() == 0);
        assert(target_lines(again.install_targets) =~= a);
        assert(section_lines(again.entries, EntityType::Agent, now) =~= b);
        assert(section_lines(again.entries, EntityType::Skill, now) =~= d);
        assert(canonical_lines(again, now) =~= ls);
    } else {
        assert forall|i: int| 0 <= i < ls.len() implies line_safe(#[trigger] ls[i]) by {
            if i < a.len() {
                assert(ls[i] == a[i]);
            } else if i < a.len() + b.len() {
                assert(ls[i] == b[i - a.len()]);
            } else {
                assert(ls[i] == d[i - a.len() - b.len()]);
            }
        }
        lemma_lines_of_join(ls);
        lemma_comments_found(m, c);
        let x = in_order(of_type(m.entries, EntityType::Agent));
        let y = in_order(of_type(m.entries, EntityType::Skill));
        lemma_groups_flat(x);
        lemma_groups_flat(y);
        lemma_same_groups_lines(repo_groups(x), now, c);
        lemma_same_groups_lines(repo_groups(y), now, c);
        assert(canonical_lines(again, now) == ls);
    }
}

proof fn lemma_join_start(ls: Seq<Seq<char>>)
    requires
        ls.len() > 0,
    ensures
        (join(ls, "\n"@) + "\n"@).len() > 0,
        (join(ls, "\n"@) + "\n"@)[0] == (if ls[0].len() > 0 {
            ls[0][0]
        } else {
            '\n'
        }),
    decreases ls.len(),
{
    reveal_strlit("\n");
    if ls.len() > 1 {
        lemma_join_start(ls.drop_last());
        let init = join(ls.drop_last(), "\n"@);
        assert(ls.drop_last()[0] == ls[0]);
        assert(join(ls, "\n"@) == init + "\n"@ + ls.last());
        if init.len() == 0 {
            assert((init + "\n"@)[0] == '\n');
        }
    }
}

/// A sorted manifest does not start with a byte order mark.
proof fn lemma_text_start(m: ManifestView, c: Map<Seq<char>, Seq<Seq<char>>>)
    ensures
        text_without_bom(join(canonical_lines(m, c), "\n"@) + "\n"@) == join(
            canonical_lines(m, c),
            "\n"@,
        ) + "\n"@,
{
    let ls = canonical_lines(m, c);
    reveal_strlit("\n");
    if ls.len() > 0 {
        lemma_join_start(ls);
        let a = target_lines(m.install_targets);
        let b = section_lines(m.entries, EntityType::Agent, c);
        if a.len() > 0 {
            reveal_strlit("# install  <platform>  <scope>");
            assert(ls[0] == INSTALL_COMMENT@);
        } else if b.len() > 0 {
            assert(ls[0] == b[0]);
        } else {
            assert(ls[0] == section_lines(m.entries, EntityType::Skill, c)[0]);
        }
    } else {
        assert((join(ls, "\n"@) + "\n"@)[0] == '\n');
    }
}

} // verus!
