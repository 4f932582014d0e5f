//! The order in which a manifest is written, and where its comments go.

use vstd::prelude::*;
use crate::commands::remove::{declares, without_first};
use crate::commands::sort::{
    canonical_lines, comes_before, comments_in, entry_line, headers_of, in_order, law_in_order,
    lines_of_entries, lines_of_entry, lines_of_groups, of_type, repo_groups, same_repo,
    section_lines, target_lines,
};
use crate::manifest_laws::{flat, lemma_groups_flat};
use crate::models::{EntityType, EntryView, ManifestView};
use crate::parser::{line_meaning, valid_name, LineView};
use crate::text::{starts_with, text_less, trim_both, trim_end};

verus! {

// ---------------------------------------------------------------------------
// Order
// ---------------------------------------------------------------------------

/// Whether two texts agree up to a position at which the first ends, or has the smaller character.
pub open spec fn less_at(a: Seq<char>, b: Seq<char>, k: int) -> bool {
    &&& 0 <= k <= a.len()
    &&& k < b.len()
    &&& a.take(k) == b.take(k)
    &&& k == a.len() || a[k] < b[k]
}

/// A text comes before another exactly where it is a part of its beginning, or has the smaller
/// character at the first position at which they differ.
pub proof fn law_order_of_texts(a: Seq<char>, b: Seq<char>)
    ensures
        text_less(a, b) <==> exists|k: int| less_at(a, b, k),
    decreases a.len(),
{
    if a.len() > 0 && b.len() > 0 && a[0] == b[0] {
        let x = a.skip(1);
        let y = b.skip(1);
        law_order_of_texts(x, y);
        if text_less(a, b) {
            let k = choose|k: int| less_at(x, y, k);
            assert(a.take(k + 1) =~= seq![a[0]] + x.take(k));
            assert(b.take(k + 1) =~= seq![b[0]] + y.take(k));
            assert(less_at(a, b, k + 1));
        }
        if exists|k: int| less_at(a, b, k) {
            let k = choose|k: int| less_at(a, b, k);
            assert(k > 0);
            assert(x.take(k - 1) =~= a.take(k).skip(1));
            assert(y.take(k - 1) =~= b.take(k).skip(1));
            assert(less_at(x, y, k - 1));
        }
    } else if b.len() > 0 {
        if a.len() == 0 || a[0] < b[0] {
            assert(a.take(0) =~= b.take(0));
            assert(less_at(a, b, 0));
        } else if exists|k: int| less_at(a, b, k) {
            let k = choose|k: int| less_at(a, b, k);
            if k > 0 {
                assert(a.take(k)[0] == b.take(k)[0]);
            }
        }
    }
}

/// Entries of repositories come before local ones, and these before ones of addresses. Among those
/// of repositories the repository decides, and then the path; among the others the path.
pub proof fn law_order_of_entries(a: EntryView, b: EntryView)
    ensures
        a.source is Github && !(b.source is Github) ==> comes_before(a, b) && !comes_before(b, a),
        a.source is Local && b.source is Url ==> comes_before(a, b) && !comes_before(b, a),
        a.source is Github && b.source is Github ==> comes_before(a, b) == (
        if a.source->owner_repo == b.source->owner_repo {
            text_less(a.source->path_in_repo, b.source->path_in_repo)
        } else {
            text_less(a.source->owner_repo, b.source->owner_repo)
        }),
        a.source is Local && b.source is Local ==> comes_before(a, b) == text_less(
            a.source->path,
            b.source->path,
        ),
        a.source is Url && b.source is Url ==> comes_before(a, b) == text_less(
            a.source->url,
            b.source->url,
        ),
{
    reveal_strlit("github");
    reveal_strlit("local");
    reveal_strlit("url");
    assert("github"@[0] == 'g');
    assert("local"@[0] == 'l');
    assert("url"@[0] == 'u');
}

/// The entries of a type are those that have it, in their order.
pub proof fn law_entries_of_a_type(s: Seq<EntryView>, t: EntityType)
    ensures
        of_type(s, t) == s.filter(|e: EntryView| e.entity_type == t),
    decreases s.len(),
{
    reveal(Seq::filter);
    if s.len() > 0 {
        law_entries_of_a_type(s.drop_last(), t);
    }
}

/// Whether all entries of a group come from the same repository.
pub open spec fn one_repo(g: Seq<EntryView>) -> bool {
    g.len() > 0 && forall|i: int| 0 <= i < g.len() ==> same_repo(g[0], #[trigger] g[i])
}

/// The groups of entries are in their order, each of one repository, and of two groups that follow
/// each other the second begins with another repository.
pub proof fn law_groups_of_repositories(s: Seq<EntryView>)
    ensures
        flat(repo_groups(s)) == s,
        forall|i: int| 0 <= i < repo_groups(s).len() ==> one_repo(#[trigger] repo_groups(s)[i]),
        forall|i: int|
            0 < i < repo_groups(s).len() ==> !same_repo(
                repo_groups(s)[i - 1].last(),
                (#[trigger] repo_groups(s)[i])[0],
            ),
        s.len() > 0 ==> repo_groups(s).len() > 0 && repo_groups(s).last().last() == s.last(),
    decreases s.len(),
{
    lemma_groups_flat(s);
    if s.len() > 0 {
        let init = s.drop_last();
        law_groups_of_repositories(init);
        let g = repo_groups(init);
        let h = repo_groups(s);
        let e = s.last();
        if s.len() > 1 && same_repo(s[s.len() - 2], e) {
            assert(init.last() == s[s.len() - 2]);
            assert(one_repo(g[g.len() - 1]));
            let last = g.last();
            assert(same_repo(last[0], last[last.len() - 1]));
            assert forall|i: int| 0 <= i < h.len() implies one_repo(#[trigger] h[i]) by {
                if i < g.len() - 1 {
                    assert(h[i] == g[i]);
                } else {
                    assert(h[i] == last.push(e));
                    assert forall|j: int| 0 <= j < h[i].len() implies same_repo(
                        h[i][0],
                        #[trigger] h[i][j],
                    ) by {
                        if j < last.len() {
                            assert(same_repo(last[0], last[j]));
                        }
                    }
                }
            }
            assert forall|i: int| 0 < i < h.len() implies !same_repo(
                h[i - 1].last(),
                (#[trigger] h[i])[0],
            ) by {
                assert(h[i - 1] == g[i - 1]);
                assert(h[i][0] == g[i][0]);
            }
        } else {
            assert(h == g.push(seq![e]));
            assert forall|i: int| 0 <= i < h.len() implies one_repo(#[trigger] h[i]) by {
                if i < g.len() {
                    assert(h[i] == g[i]);
                } else {
                    assert(h[i] == seq![e]);
                }
            }
            assert forall|i: int| 0 < i < h.len() implies !same_repo(
                h[i - 1].last(),
                (#[trigger] h[i])[0],
            ) by {
                assert(h[i - 1] == g[i - 1]);
                if i < g.len() {
                    assert(h[i] == g[i]);
                } else {
                    assert(init.last() == s[s.len() - 2]);
                }
            }
        }
    }
}

// ---------------------------------------------------------------------------
// Comments
// ---------------------------------------------------------------------------

/// Whether a line is a comment.
pub open spec fn is_remark(line: Seq<char>) -> bool {
    trim_both(line).len() > 0 && trim_both(line)[0] == '#'
}

/// Whether comments above a line stick to it: it is no comment, not blank and no install line.
pub open spec fn takes_remarks(line: Seq<char>) -> bool {
    trim_both(line).len() > 0 && trim_both(line)[0] != '#' && !starts_with(
        trim_both(line),
        "install"@,
    )
}

/// Comments without the white space behind them.
pub open spec fn remarks(cs: Seq<Seq<char>>) -> Seq<Seq<char>> {
    cs.map_values(|c: Seq<char>| trim_end(c))
}

proof fn lemma_pending(a: Seq<Seq<char>>, cs: Seq<Seq<char>>)
    requires
        a.len() > 0 ==> !is_remark(a.last()),
        forall|i: int| 0 <= i < cs.len() ==> is_remark(#[trigger] cs[i]),
    ensures
        comments_in(a + cs).pending == remarks(cs),
        comments_in(a + cs).attached == comments_in(a).attached,
    decreases cs.len(),
{
    if cs.len() == 0 {
        assert(a + cs =~= a);
        assert(comments_in(a).pending =~= remarks(cs));
    } else {
        let init = cs.drop_last();
        assert forall|i: int| 0 <= i < init.len() implies is_remark(#[trigger] init[i]) by {
            assert(init[i] == cs[i]);
        }
        assert(is_remark(cs[cs.len() - 1]));
        lemma_pending(a, init);
        assert((a + cs).drop_last() =~= a + init);
        assert((a + cs).last() == cs.last());
        assert(remarks(init).push(trim_end(cs.last())) =~= remarks(cs));
    }
}

proof fn lemma_still_attached(ls: Seq<Seq<char>>, b: Seq<Seq<char>>, k: Seq<char>)
    requires
        forall|i: int| 0 <= i < b.len() ==> trim_both(#[trigger] b[i]) != k,
    ensures
        comments_in(ls + b).attached.dom().contains(k) <==> comments_in(
            ls,
        ).attached.dom().contains(k),
        comments_in(ls + b).attached[k] == comments_in(ls).attached[k],
    decreases b.len(),
{
    if b.len() == 0 {
        assert(ls + b =~= ls);
    } else {
        let init = b.drop_last();
        assert forall|i: int| 0 <= i < init.len() implies trim_both(#[trigger] init[i]) != k by {
            assert(init[i] == b[i]);
        }
        assert(trim_both(b[b.len() - 1]) != k);
        lemma_still_attached(ls, init, k);
        assert((ls + b).drop_last() =~= ls + init);
        assert((ls + b).last() == b.last());
    }
}

/// The comments directly above the line of an entry stick to it, all of them and in their order, up
/// to the first line above that is no comment.
pub proof fn law_comments_stick_to_the_next_line(
    above: Seq<Seq<char>>,
    cs: Seq<Seq<char>>,
    line: Seq<char>,
    below: Seq<Seq<char>>,
)
    requires
        above.len() > 0 ==> !is_remark(above.last()),
        cs.len() > 0,
        forall|i: int| 0 <= i < cs.len() ==> is_remark(#[trigger] cs[i]),
        takes_remarks(line),
        forall|i: int| 0 <= i < below.len() ==> trim_both(#[trigger] below[i]) != trim_both(line),
    ensures
        comments_in((above + cs).push(line) + below).attached.dom().contains(trim_both(line)),
        comments_in((above + cs).push(line) + below).attached[trim_both(line)] == remarks(cs),
{
    let ls = (above + cs).push(line);
    lemma_pending(above, cs);
    assert(ls.drop_last() =~= above + cs);
    assert(ls.last() == line);
    assert(remarks(cs).len() == cs.len());
    lemma_still_attached(ls, below, trim_both(line));
}

/// Comments stick to nothing but the line below them: a line to which some stick has a comment above
/// it.
pub proof fn law_no_stray_comments(ls: Seq<Seq<char>>, k: Seq<char>)
    ensures
        comments_in(ls).pending.len() > 0 <==> ls.len() > 0 && is_remark(ls.last()),
        comments_in(ls).attached.dom().contains(k) ==> exists|i: int|
            0 < i < ls.len() && takes_remarks(ls[i]) && trim_both(ls[i]) == k && is_remark(
                #[trigger] ls[i - 1],
            ),
    decreases ls.len(),
{
    if ls.len() > 0 {
        let init = ls.drop_last();
        law_no_stray_comments(init, k);
        let l = ls.len() - 1;
        if comments_in(ls).attached.dom().contains(k) {
            if comments_in(init).attached.dom().contains(k) {
                let i = choose|i: int|
                    0 < i < init.len() && takes_remarks(init[i]) && trim_both(init[i]) == k
                        && is_remark(#[trigger] init[i - 1]);
                assert(init[i] == ls[i]);
                assert(init[i - 1] == ls[i - 1]);
                assert(is_remark(ls[i - 1]));
            } else {
                assert(trim_both(ls[l]) == k);
                assert(init.last() == ls[l - 1]);
                assert(is_remark(ls[l - 1]));
            }
        }
    }
}

/// Whether lines stand among others, one below the other.
pub open spec fn stands_among(block: Seq<Seq<char>>, ls: Seq<Seq<char>>, k: int) -> bool {
    0 <= k && k + block.len() <= ls.len() && ls.subrange(k, k + block.len()) == block
}

proof fn lemma_among_more(
    block: Seq<Seq<char>>,
    a: Seq<Seq<char>>,
    ls: Seq<Seq<char>>,
    b: Seq<Seq<char>>,
    k: int,
)
    requires
        stands_among(block, ls, k),
    ensures
        stands_among(block, a + ls + b, a.len() + k),
{
    let all = a + ls + b;
    let at = a.len() + k;
    assert(all.subrange(at, at + block.len()) =~= ls.subrange(k, k + block.len()));
}

proof fn lemma_among_entries(
    s: Seq<EntryView>,
    c: Map<Seq<char>, Seq<Seq<char>>>,
    i: int,
) -> (k: int)
    requires
        0 <= i < s.len(),
    ensures
        stands_among(lines_of_entry(s[i], c), lines_of_entries(s, c), k),
    decreases s.len(),
{
    let init = s.drop_last();
    let before = lines_of_entries(init, c);
    let own = lines_of_entry(s.last(), c);
    let none = Seq::<Seq<char>>::empty();
    if i == s.len() - 1 {
        assert(own.subrange(0, own.len() as int) =~= own);
        lemma_among_more(own, before, own, none, 0);
        assert(before + own + none =~= lines_of_entries(s, c));
        before.len() as int
    } else {
        let k = lemma_among_entries(init, c, i);
        assert(init[i] == s[i]);
        lemma_among_more(lines_of_entry(s[i], c), none, before, own, k);
        assert(none + before + own =~= lines_of_entries(s, c));
        k
    }
}

proof fn lemma_among_groups(
    gs: Seq<Seq<EntryView>>,
    c: Map<Seq<char>, Seq<Seq<char>>>,
    g: int,
    i: int,
) -> (k: int)
    requires
        0 <= g < gs.len(),
        0 <= i < gs[g].len(),
    ensures
        stands_among(lines_of_entry(gs[g][i], c), lines_of_groups(gs, c), k),
    decreases gs.len(),
{
    let init = gs.drop_last();
    let before = lines_of_groups(init, c).push(Seq::empty());
    let own = lines_of_entries(gs.last(), c);
    let block = lines_of_entry(gs[g][i], c);
    let none = Seq::<Seq<char>>::empty();
    if g == gs.len() - 1 {
        let k = lemma_among_entries(gs.last(), c, i);
        lemma_among_more(block, before, own, none, k);
        assert(before + own + none =~= lines_of_groups(gs, c));
        before.len() + k
    } else {
        assert(init[g] == gs[g]);
        let k = lemma_among_groups(init, c, g, i);
        let tail = seq![Seq::<char>::empty()] + own;
        lemma_among_more(block, none, lines_of_groups(init, c), tail, k);
        assert(none + lines_of_groups(init, c) + tail =~= lines_of_groups(gs, c));
        k
    }
}

proof fn lemma_in_a_group(gs: Seq<Seq<EntryView>>, e: EntryView) -> (r: (int, int))
    requires
        flat(gs).contains(e),
    ensures
        0 <= r.0 < gs.len(),
        0 <= r.1 < gs[r.0].len(),
        gs[r.0][r.1] == e,
    decreases gs.len(),
{
    let i = choose|i: int| 0 <= i < flat(gs).len() && flat(gs)[i] == e;
    let init = gs.drop_last();
    let n = flat(init).len() as int;
    if i < n {
        assert(flat(init)[i] == e);
        assert(flat(init).contains(e));
        let r = lemma_in_a_group(init, e);
        assert(init[r.0] == gs[r.0]);
        r
    } else {
        assert(gs.last()[i - n] == e);
        (gs.len() - 1, i - n)
    }
}

proof fn lemma_sorted_contains(s: Seq<EntryView>, e: EntryView)
    requires
        s.contains(e),
    ensures
        in_order(of_type(s, e.entity_type)).contains(e),
{
    broadcast use vstd::seq_lib::group_to_multiset_ensures;

    lemma_of_type_contains(s, e);
    let o = of_type(s, e.entity_type);
    law_in_order(o);
    assert(o.to_multiset().count(e) > 0);
    assert(in_order(o).to_multiset().count(e) > 0);
}

proof fn lemma_of_type_contains(s: Seq<EntryView>, e: EntryView)
    requires
        s.contains(e),
    ensures
        of_type(s, e.entity_type).contains(e),
    decreases s.len(),
{
    let i = choose|i: int| 0 <= i < s.len() && s[i] == e;
    let o = of_type(s, e.entity_type);
    if i == s.len() - 1 {
        assert(o[o.len() - 1] == e);
    } else {
        let init = s.drop_last();
        assert(init[i] == e);
        lemma_of_type_contains(init, e);
        let before = of_type(init, e.entity_type);
        let j = choose|j: int| 0 <= j < before.len() && before[j] == e;
        assert(o[j] == e);
    }
}

proof fn lemma_in_section(
    s: Seq<EntryView>,
    c: Map<Seq<char>, Seq<Seq<char>>>,
    e: EntryView,
) -> (k: int)
    requires
        s.contains(e),
    ensures
        stands_among(lines_of_entry(e, c), section_lines(s, e.entity_type, c), k),
{
    lemma_sorted_contains(s, e);
    let o = in_order(of_type(s, e.entity_type));
    lemma_groups_flat(o);
    let gs = repo_groups(o);
    let (g, i) = lemma_in_a_group(gs, e);
    let k = lemma_among_groups(gs, c, g, i);
    let head = seq![Seq::<char>::empty()] + headers_of(e.entity_type);
    let none = Seq::<Seq<char>>::empty();
    lemma_among_more(lines_of_entry(e, c), head, lines_of_groups(gs, c), none, k);
    assert(head + lines_of_groups(gs, c) + none =~= section_lines(s, e.entity_type, c));
    head.len() + k
}

/// In a sorted manifest each entry has its line, directly below the comments that stick to it.
pub proof fn law_comments_stay_with_their_entry(
    m: ManifestView,
    c: Map<Seq<char>, Seq<Seq<char>>>,
    e: EntryView,
)
    requires
        m.entries.contains(e),
    ensures
        c.dom().contains(entry_line(e)) ==> exists|k: int|
            stands_among(c[entry_line(e)].push(entry_line(e)), canonical_lines(m, c), k),
        canonical_lines(m, c).contains(entry_line(e)),
{
    let k = lemma_in_section(m.entries, c, e);
    let block = lines_of_entry(e, c);
    let targets = target_lines(m.install_targets);
    let agents = section_lines(m.entries, EntityType::Agent, c);
    let skills = section_lines(m.entries, EntityType::Skill, c);
    let none = Seq::<Seq<char>>::empty();
    let all = canonical_lines(m, c);
    let at: int = match e.entity_type {
        EntityType::Agent => {
            lemma_among_more(block, targets, agents, skills, k);
            targets.len() + k
        },
        EntityType::Skill => {
            lemma_among_more(block, targets + agents, skills, none, k);
            assert(targets + agents + skills + none =~= all);
            (targets + agents).len() + k
        },
    };
    assert(stands_among(block, all, at));
    let n = block.len() - 1;
    assert(all.subrange(at, at + block.len())[n] == block[n]);
    assert(all[at + n] == entry_line(e));
}

/// A sorted manifest has a heading for a type exactly where it has entries of it.
pub proof fn law_headings_of_types(s: Seq<EntryView>, t: EntityType, c: Map<Seq<char>, Seq<Seq<char>>>)
    ensures
        of_type(s, t).len() == 0 <==> section_lines(s, t, c).len() == 0,
        of_type(s, t).len() > 0 ==> section_lines(s, t, c)[1] == (match t {
            EntityType::Agent => "# --- Agents ---"@,
            EntityType::Skill => "# --- Skills ---"@,
        }),
{
    law_in_order(of_type(s, t));
}

/// Whether a line is the first of a list that declares an entry of a name.
pub open spec fn first_declaring(ls: Seq<Seq<char>>, name: Seq<char>, k: int) -> bool {
    0 <= k < ls.len() && declares(ls[k], name) && forall|j: int|
        0 <= j < k ==> !declares(#[trigger] ls[j], name)
}

/// Removing an entry takes out the first line that declares it, and leaves every other line,
/// comments and blank ones too, as it is and where it is.
pub proof fn law_one_line_goes(ls: Seq<Seq<char>>, name: Seq<char>)
    ensures
        forall|k: int| #[trigger]
            first_declaring(ls, name, k) ==> without_first(ls, name) == ls.remove(k),
        (forall|j: int| 0 <= j < ls.len() ==> !declares(#[trigger] ls[j], name)) ==> without_first(
            ls,
            name,
        ) == ls,
    decreases ls.len(),
{
    if ls.len() > 0 {
        let rest = ls.skip(1);
        law_one_line_goes(rest, name);
        if declares(ls[0], name) {
            assert(ls.remove(0) =~= ls.skip(1));
            assert forall|k: int| #[trigger] first_declaring(ls, name, k) implies without_first(
                ls,
                name,
            ) == ls.remove(k) by {
                assert(k == 0);
            }
        } else {
            assert forall|k: int| #[trigger] first_declaring(ls, name, k) implies without_first(
                ls,
                name,
            ) == ls.remove(k) by {
                assert(rest[k - 1] == ls[k]);
                assert forall|j: int| 0 <= j < k - 1 implies !declares(#[trigger] rest[j], name) by {
                    assert(rest[j] == ls[j + 1]);
                }
                assert(first_declaring(rest, name, k - 1));
                assert(seq![ls[0]] + rest.remove(k - 1) =~= ls.remove(k));
            }
            if forall|j: int| 0 <= j < ls.len() ==> !declares(#[trigger] ls[j], name) {
                assert forall|j: int| 0 <= j < rest.len() implies !declares(
                    #[trigger] rest[j],
                    name,
                ) by {
                    assert(rest[j] == ls[j + 1]);
                }
                assert(seq![ls[0]] + rest =~= ls);
            }
        }
    }
}

/// A line declares an entry of a name exactly where the manifest of that line alone has one, whatever
/// the name.
pub proof fn law_what_declares(line: Seq<char>, name: Seq<char>)
    requires
        valid_name(name),
    ensures
        declares(line, name) <==> (line_meaning(line) matches LineView::Entry(e) && e.name == name),
{
    reveal_strlit("install");
    reveal_strlit("github");
    reveal_strlit("local");
    reveal_strlit("url");
    assert("install"@[0] == 'i' && "github"@[0] == 'g' && "local"@[0] == 'l' && "url"@[0] == 'u');
}

} // verus!
