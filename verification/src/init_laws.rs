//! What setting up promises of the files that it changes.

use vstd::prelude::*;
use crate::commands::init::{
    ended, gitignore_entries, gitignore_text, install_line, install_lines, is_install_line,
    missing_entries, other_lines, skip_blank, with_install_lines,
};
use crate::lines::{
    is_line, is_open_line, lemma_lines_shape, lemma_split_inclusive_concat, lemma_split_line_first,
    lemma_split_of_lines, lines, split_inclusive, strip_eol,
};
use crate::manifest_laws::{
    entries_in, lemma_before_comment, lemma_declared_add, lemma_declared_one, lemma_manifest_parts,
    lemma_no_newline_in_lines, lemma_target_list, lemma_trim_end_prefix, line_safe, targets_in,
    writable_target,
};
use crate::models::TargetView;
use crate::parser::{
    before_comment, field_of, fields, fields_from, lemma_plain_start, line_fields, line_meaning,
    manifest_of, text_without_bom,
};
use crate::commands::sort::target_line;
use crate::text::{concat, starts_with, trim_both, trim_end, trim_start, white_space};

verus! {

/// The lines of a text that ends in a line feed, and of what follows it.
pub proof fn lemma_lines_append(a: Seq<char>, b: Seq<char>)
    requires
        a.len() == 0 || a.last() == '\n',
    ensures
        lines(a + b) == lines(a) + lines(b),
{
    lemma_lines_shape(a);
    lemma_split_inclusive_concat(a);
    let t = split_inclusive(a);
    assert forall|i: int| 0 <= i < t.len() implies is_line(#[trigger] t[i]) by {
        if i == t.len() - 1 {
            assert(t[i] == t.last());
        }
    }
    lemma_split_of_lines(t, b);
    assert(lines(a + b) =~= lines(a) + lines(b));
}

/// A text whose last line has no end keeps its lines when it gets one, but for a carriage return
/// at the end of the last.
proof fn lemma_lines_closed(s: Seq<char>, e: Seq<char>)
    requires
        s.len() > 0,
        s.last() != '\n',
        lines(s).contains(e),
        e.len() > 0 ==> e.last() != '\r',
    ensures
        lines(s + seq!['\n']).contains(e),
{
    lemma_lines_shape(s);
    lemma_split_inclusive_concat(s);
    let t = split_inclusive(s);
    let init = t.drop_last();
    let l = t.last();
    let closed = l + seq!['\n'];
    assert forall|i: int| 0 <= i < init.len() implies is_line(#[trigger] init[i]) by {
        assert(init[i] == t[i]);
    }
    assert(is_open_line(l));
    assert(closed.drop_last() =~= l);
    assert(is_line(closed));
    assert(concat(t) == concat(init) + l);
    assert(s + seq!['\n'] =~= concat(init) + closed);
    lemma_split_of_lines(init, closed);
    lemma_split_line_first(closed, Seq::empty());
    assert(closed + Seq::<char>::empty() =~= closed);
    assert(split_inclusive(closed) =~= seq![closed]);
    let u = split_inclusive(s + seq!['\n']);
    assert(u =~= init.push(closed));
    let k = choose|k: int| 0 <= k < lines(s).len() && lines(s)[k] == e;
    assert(lines(s)[k] == strip_eol(t[k]));
    if k < init.len() {
        assert(u[k] == t[k]);
        assert(lines(s + seq!['\n'])[k] == e);
    } else {
        assert(t[k] == l);
        assert(strip_eol(l) == l);
        assert(strip_eol(closed) =~= l);
        assert(lines(s + seq!['\n'])[k] == e);
    }
}

/// A line as it is read again once it has an end: a carriage return at its end is lost.
spec fn reread(l: Seq<char>) -> Seq<char> {
    strip_eol(l.push('\n'))
}

/// Lines as they are read again.
spec fn all_reread(ls: Seq<Seq<char>>) -> Seq<Seq<char>> {
    ls.map_values(|l: Seq<char>| reread(l))
}

/// What is read of lines that have their ends.
proof fn lemma_lines_of_ended(ls: Seq<Seq<char>>)
    requires
        forall|i: int| 0 <= i < ls.len() ==> !(#[trigger] ls[i]).contains('\n'),
    ensures
        lines(ended(ls)) == all_reread(ls),
        ls.len() > 0 ==> ended(ls).len() > 0 && ended(ls).last() == '\n',
    decreases ls.len(),
{
    if ls.len() == 0 {
        assert(lines(ended(ls)) =~= all_reread(ls));
    } else {
        let init = ls.drop_last();
        let l = ls.last();
        assert forall|i: int| 0 <= i < init.len() implies !(#[trigger] init[i]).contains('\n') by {
            assert(init[i] == ls[i]);
        }
        lemma_lines_of_ended(init);
        let one = l.push('\n');
        assert(ls[ls.len() - 1] == l);
        assert(one.drop_last() =~= l);
        assert(is_line(one));
        assert(ended(ls) =~= ended(init) + one);
        lemma_lines_append(ended(init), one);
        lemma_split_line_first(one, Seq::empty());
        assert(one + Seq::<char>::empty() =~= one);
        assert(split_inclusive(one) =~= seq![one]);
        assert(lines(one) =~= seq![reread(l)]);
        assert(lines(ended(ls)) =~= all_reread(ls));
    }
}

proof fn lemma_reread_safe(ls: Seq<Seq<char>>)
    requires
        forall|i: int| 0 <= i < ls.len() ==> line_safe(#[trigger] ls[i]),
    ensures
        all_reread(ls) == ls,
{
    assert forall|i: int| 0 <= i < ls.len() implies all_reread(ls)[i] == ls[i] by {
        assert(line_safe(ls[i]));
        assert(ls[i].push('\n').drop_last() =~= ls[i]);
    }
    assert(all_reread(ls) =~= ls);
}

proof fn lemma_missing_entries(ls: Seq<Seq<char>>)
    ensures
        missing_entries(ls, gitignore_entries()) == (if ls.contains(gitignore_entries()[0]) {
            Seq::empty()
        } else {
            seq![gitignore_entries()[0]]
        }) + (if ls.contains(gitignore_entries()[1]) {
            Seq::empty()
        } else {
            seq![gitignore_entries()[1]]
        }),
{
    let es = gitignore_entries();
    let one = es.drop_last();
    assert(one =~= seq![es[0]]);
    assert(one.drop_last() =~= Seq::empty());
    assert(missing_entries(ls, one.drop_last()) =~= Seq::empty());
    assert(missing_entries(ls, one) =~= if ls.contains(es[0]) {
        Seq::empty()
    } else {
        seq![es[0]]
    });
    assert(missing_entries(ls, es) =~= (if ls.contains(es[0]) {
        Seq::<Seq<char>>::empty()
    } else {
        seq![es[0]]
    }) + (if ls.contains(es[1]) {
        Seq::<Seq<char>>::empty()
    } else {
        seq![es[1]]
    }));
}

proof fn lemma_contains_in_sum(a: Seq<Seq<char>>, b: Seq<Seq<char>>, e: Seq<char>)
    requires
        a.contains(e) || b.contains(e),
    ensures
        (a + b).contains(e),
{
    if a.contains(e) {
        let k = choose|k: int| 0 <= k < a.len() && a[k] == e;
        assert((a + b)[k] == e);
    } else {
        let k = choose|k: int| 0 <= k < b.len() && b[k] == e;
        assert((a + b)[a.len() + k] == e);
    }
}

/// Once the entries are added to a `.gitignore`, there is nothing more to add.
pub proof fn law_gitignore_settles(existing: Seq<char>)
    ensures
        gitignore_text(existing) matches Some(added) ==> gitignore_text(existing + added) is None,
{
    let ls = lines(existing);
    let es = gitignore_entries();
    let missing = missing_entries(ls, es);
    if missing.len() > 0 {
        let added = gitignore_text(existing)->Some_0;
        reveal_strlit(".skillfile/cache/");
        reveal_strlit(".skillfile/conflict");
        reveal_strlit("# skillfile\n");
        reveal_strlit("\n");
        assert("\n"@ =~= seq!['\n']);
        lemma_missing_entries(ls);
        lemma_lines_shape(existing);
        let gap = ls.len() > 0 && ls.last().len() > 0;
        let before = if gap {
            existing + "\n"@
        } else {
            existing
        };
        let head = "# skillfile\n"@;
        let rest = head + ended(missing);
        assert(existing + added =~= before + rest);
        if !gap && existing.len() > 0 {
            let t = split_inclusive(existing);
            assert(ls[ls.len() - 1] == strip_eol(t.last()));
            if is_open_line(t.last()) {
                assert(strip_eol(t.last()) == t.last());
            }
            assert(existing.last() == '\n');
        }
        assert(before.len() == 0 || before.last() == '\n');
        lemma_lines_append(before, rest);
        assert(head.last() == '\n');
        lemma_lines_append(head, ended(missing));
        assert(!es[0].contains('\n') && es[0].last() != '\r');
        assert(!es[1].contains('\n') && es[1].last() != '\r');
        assert forall|i: int| 0 <= i < missing.len() implies line_safe(#[trigger] missing[i]) by {
            assert(missing[i] == es[0] || missing[i] == es[1]);
        }
        assert forall|i: int| 0 <= i < missing.len() implies !(#[trigger] missing[i]).contains(
            '\n',
        ) by {
            assert(line_safe(missing[i]));
        }
        lemma_lines_of_ended(missing);
        lemma_reread_safe(missing);
        let all = lines(existing + added);
        assert(all == lines(before) + (lines(head) + missing));
        assert forall|k: int| 0 <= k < 2 implies all.contains(#[trigger] es[k]) by {
            if ls.contains(es[k]) {
                if gap {
                    if existing.last() == '\n' {
                        lemma_lines_append(existing, "\n"@);
                        lemma_contains_in_sum(ls, lines("\n"@), es[k]);
                    } else {
                        lemma_lines_closed(existing, es[k]);
                    }
                }
                assert(lines(before).contains(es[k]));
                lemma_contains_in_sum(lines(before), lines(head) + missing, es[k]);
            } else {
                assert(missing.contains(es[k])) by {
                    if k == 0 {
                        assert(missing[0] == es[0]);
                    } else {
                        assert(missing[missing.len() - 1] == es[1]);
                    }
                }
                lemma_contains_in_sum(lines(head), missing, es[k]);
                lemma_contains_in_sum(lines(before), lines(head) + missing, es[k]);
            }
        }
        lemma_missing_entries(all);
        assert(all.contains(es[0]) && all.contains(es[1]));
        assert(missing_entries(all, es) =~= Seq::empty());
    }
}

// ---------------------------------------------------------------------------
// Install lines
// ---------------------------------------------------------------------------

proof fn lemma_trim_start_push(m: Seq<char>, w: char)
    requires
        white_space(w),
    ensures
        trim_start(m.push(w)) == (if trim_start(m).len() == 0 {
            Seq::empty()
        } else {
            trim_start(m).push(w)
        }),
    decreases m.len(),
{
    let s = m.push(w);
    if m.len() == 0 {
        assert(s.skip(1) =~= Seq::<char>::empty());
        assert(trim_start(s) == trim_start(s.skip(1)));
    } else if white_space(m[0]) {
        assert(s[0] == m[0]);
        assert(s.skip(1) =~= m.skip(1).push(w));
        lemma_trim_start_push(m.skip(1), w);
    } else {
        assert(s[0] == m[0]);
    }
}

/// A line that is read again declares what it did.
proof fn lemma_reread_meaning(l: Seq<char>)
    ensures
        line_meaning(reread(l)) == line_meaning(l),
{
    assert(l.push('\n').drop_last() =~= l);
    if l.len() > 0 && l.last() == '\r' {
        let m = l.drop_last();
        assert(l =~= m.push('\r'));
        lemma_trim_start_push(m, '\r');
        let t = trim_start(m);
        if t.len() == 0 {
            assert(t =~= Seq::empty());
            assert(trim_both(l) =~= trim_both(m));
        } else {
            assert(t.push('\r').drop_last() =~= t);
            assert(trim_end(t.push('\r')) == trim_end(t));
        }
    }
}

proof fn lemma_reread_declares(ls: Seq<Seq<char>>)
    ensures
        entries_in(all_reread(ls)) == entries_in(ls),
        targets_in(all_reread(ls)) == targets_in(ls),
    decreases ls.len(),
{
    if ls.len() > 0 {
        lemma_reread_declares(ls.drop_last());
        lemma_reread_meaning(ls.last());
        assert(all_reread(ls).drop_last() =~= all_reread(ls.drop_last()));
        assert(all_reread(ls).last() == reread(ls.last()));
    }
}

proof fn lemma_skip_blank_declares(ls: Seq<Seq<char>>)
    ensures
        entries_in(skip_blank(ls)) == entries_in(ls),
        targets_in(skip_blank(ls)) == targets_in(ls),
        forall|i: int| 0 <= i < skip_blank(ls).len() ==> ls.contains(#[trigger] skip_blank(ls)[i]),
    decreases ls.len(),
{
    if ls.len() > 0 && trim_both(ls[0]).len() == 0 {
        let rest = ls.skip(1);
        lemma_skip_blank_declares(rest);
        assert(ls =~= seq![ls[0]] + rest);
        lemma_declared_one(ls[0]);
        lemma_declared_add(seq![ls[0]], rest);
        assert(entries_in(ls) =~= entries_in(rest));
        assert(targets_in(ls) =~= targets_in(rest));
        assert forall|i: int| 0 <= i < skip_blank(ls).len() implies ls.contains(
            #[trigger] skip_blank(ls)[i],
        ) by {
            assert(rest.contains(skip_blank(rest)[i]));
            let k = choose|k: int| 0 <= k < rest.len() && rest[k] == skip_blank(rest)[i];
            assert(ls[k + 1] == skip_blank(ls)[i]);
        }
    }
}

/// An install line declares no entry.
proof fn lemma_install_line_meaning(l: Seq<char>)
    requires
        is_install_line(l),
    ensures
        !(line_meaning(l) is Entry),
{
    let s = trim_both(l);
    let w = "install"@;
    reveal_strlit("install");
    reveal_strlit("install ");
    if starts_with(s, "install "@) {
        assert(s.subrange(0, 8) == "install "@);
        assert forall|i: int| 0 <= i < 8 implies s[i] == "install "@[i] by {
            assert(s[i] == s.subrange(0, 8)[i]);
        }
    }
    let rest = s.skip(7);
    assert(s =~= w + rest);
    assert(rest.len() == 0 || rest[0] == ' ');
    lemma_plain_start(Seq::empty(), w, rest);
    assert(Seq::<char>::empty() + w =~= w);
    let fs = fields(s);
    assert(fs == fields_from(w, false, rest));
    assert(field_of(w) =~= seq![w]);
    assert(fs.len() > 0 && fs[0] == w);
    let parts = line_fields(s);
    assert(before_comment(fs) >= 1);
    lemma_before_comment(fs);
    if parts.len() >= 1 {
        assert(parts[0] == w);
    }
}

proof fn lemma_other_lines_declare(ls: Seq<Seq<char>>)
    ensures
        entries_in(other_lines(ls)) == entries_in(ls),
        (forall|i: int|
            0 <= i < ls.len() ==> (line_meaning(#[trigger] ls[i]) is Target ==> is_install_line(
                ls[i],
            ))) ==> targets_in(other_lines(ls)) == Seq::<TargetView>::empty(),
        forall|i: int| 0 <= i < other_lines(ls).len() ==> ls.contains(#[trigger] other_lines(ls)[i]),
    decreases ls.len(),
{
    if ls.len() > 0 {
        let init = ls.drop_last();
        let l = ls.last();
        let before = other_lines(init);
        let all = other_lines(ls);
        lemma_other_lines_declare(init);
        if is_install_line(l) {
            lemma_install_line_meaning(l);
        } else {
            assert(all.drop_last() =~= before);
            assert(all.last() == l);
        }
        if forall|i: int|
            0 <= i < ls.len() ==> (line_meaning(#[trigger] ls[i]) is Target ==> is_install_line(
                ls[i],
            )) {
            assert forall|i: int|
                0 <= i < init.len() && line_meaning(#[trigger] init[i]) is Target implies is_install_line(
                init[i],
            ) by {
                assert(init[i] == ls[i]);
            }
            assert(ls[ls.len() - 1] == l);
        }
        assert forall|i: int| 0 <= i < all.len() implies ls.contains(#[trigger] all[i]) by {
            if i < before.len() {
                assert(all[i] == before[i]);
                assert(init.contains(before[i]));
                let k = choose|k: int| 0 <= k < init.len() && init[k] == before[i];
                assert(ls[k] == all[i]);
            } else {
                assert(ls[ls.len() - 1] == all[i]);
            }
        }
    }
}

proof fn lemma_ended_start(ls: Seq<Seq<char>>)
    requires
        ls.len() > 0,
    ensures
        ended(ls).len() > 0,
        ended(ls)[0] == (if ls[0].len() > 0 {
            ls[0][0]
        } else {
            '\n'
        }),
    decreases ls.len(),
{
    if ls.len() > 1 {
        lemma_ended_start(ls.drop_last());
    } else {
        assert(ended(ls.drop_last()) =~= Seq::empty());
        assert(ended(ls) =~= ls[0].push('\n'));
    }
}

/// The platforms and scopes of targets.
pub open spec fn target_pairs(ts: Seq<TargetView>) -> Seq<(Seq<char>, Seq<char>)> {
    ts.map_values(|t: TargetView| (t.adapter, t.scope.word()))
}

/// Setting other install targets keeps the entries of a manifest, in their order. The targets are
/// then the new ones, where each line that declares a target is written with spaces: a line that
/// separates `install` from the platform by something else is not taken for an install line.
pub proof fn law_init_keeps_entries(existing: Seq<char>, ts: Seq<TargetView>)
    requires
        forall|i: int| 0 <= i < ts.len() ==> writable_target(#[trigger] ts[i]),
    ensures
        manifest_of(text_without_bom(with_install_lines(existing, target_pairs(ts)))).entries
            == manifest_of(text_without_bom(existing)).entries,
        (forall|i: int|
            0 <= i < lines(text_without_bom(existing)).len() ==> (line_meaning(
                #[trigger] lines(text_without_bom(existing))[i],
            ) is Target ==> is_install_line(lines(text_without_bom(existing))[i])))
            ==> manifest_of(
            text_without_bom(with_install_lines(existing, target_pairs(ts))),
        ).install_targets == ts,
{
    let ls = lines(text_without_bom(existing));
    let a = install_lines(target_pairs(ts));
    let first = a.push(Seq::empty());
    let others = other_lines(ls);
    let b = skip_blank(others);
    lemma_no_newline_in_lines(text_without_bom(existing));
    lemma_other_lines_declare(ls);
    lemma_skip_blank_declares(others);
    lemma_target_list(ts);
    let tl = ts.map_values(|t: TargetView| target_line(t));
    assert(a =~= tl);
    assert forall|i: int| 0 <= i < first.len() implies line_safe(#[trigger] first[i]) by {
        if i < a.len() {
            assert(first[i] == tl[i]);
        }
    }
    assert forall|i: int| 0 <= i < first.len() implies !(#[trigger] first[i]).contains('\n') by {
        assert(line_safe(first[i]));
    }
    assert forall|i: int| 0 <= i < b.len() implies !(#[trigger] b[i]).contains('\n') by {
        assert(others.contains(b[i]));
        let k = choose|k: int| 0 <= k < others.len() && others[k] == b[i];
        assert(ls.contains(others[k]));
        let j = choose|j: int| 0 <= j < ls.len() && ls[j] == others[k];
        assert(!ls[j].contains('\n'));
    }
    lemma_lines_of_ended(first);
    lemma_reread_safe(first);
    lemma_lines_of_ended(b);
    assert(first.drop_last() =~= a);
    assert(ended(first) =~= ended(a).push('\n'));
    let text = with_install_lines(existing, target_pairs(ts));
    assert(text =~= ended(first) + ended(b));
    assert(text_without_bom(text) == text) by {
        lemma_ended_start(first);
        reveal_strlit("install  ");
        assert(text[0] == ended(first)[0]);
        if ts.len() > 0 {
            assert(first[0] == install_line(target_pairs(ts)[0]));
            assert(first[0][0] == 'i');
        } else {
            assert(first[0] =~= Seq::empty());
        }
    }
    lemma_lines_append(ended(first), ended(b));
    let all = lines(text);
    assert(all == first + all_reread(b));
    lemma_declared_add(first, all_reread(b));
    lemma_reread_declares(b);
    assert(first =~= a + seq![Seq::<char>::empty()]);
    lemma_declared_add(a, seq![Seq::<char>::empty()]);
    lemma_declared_one(Seq::empty());
    lemma_manifest_parts(all);
    lemma_manifest_parts(ls);
    assert(entries_in(all) =~= entries_in(ls));
    assert(targets_in(all) =~= ts + targets_in(b));
    assert(ts + Seq::<TargetView>::empty() =~= ts);
}

proof fn lemma_other_lines_add(a: Seq<Seq<char>>, b: Seq<Seq<char>>)
    ensures
        other_lines(a + b) == other_lines(a) + other_lines(b),
    decreases b.len(),
{
    if b.len() == 0 {
        assert(a + b =~= a);
        assert(other_lines(a) + other_lines(b) =~= other_lines(a));
    } else {
        assert((a + b).drop_last() =~= a + b.drop_last());
        assert((a + b).last() == b.last());
        lemma_other_lines_add(a, b.drop_last());
        assert(other_lines(a + b) =~= other_lines(a) + other_lines(b));
    }
}

/// Lines among which there is an install line lose it, and others are left.
proof fn lemma_other_lines_of(ls: Seq<Seq<char>>)
    ensures
        forall|i: int|
            0 <= i < other_lines(ls).len() ==> !is_install_line(#[trigger] other_lines(ls)[i]),
        (forall|i: int| 0 <= i < ls.len() ==> is_install_line(#[trigger] ls[i])) ==> other_lines(
            ls,
        ).len() == 0,
        (forall|i: int| 0 <= i < ls.len() ==> !is_install_line(#[trigger] ls[i])) ==> other_lines(
            ls,
        ) == ls,
    decreases ls.len(),
{
    if ls.len() > 0 {
        let init = ls.drop_last();
        lemma_other_lines_of(init);
        assert(ls.last() == ls[ls.len() - 1]);
        let all = other_lines(ls);
        assert forall|i: int| 0 <= i < all.len() implies !is_install_line(#[trigger] all[i]) by {
            if i < other_lines(init).len() {
                assert(all[i] == other_lines(init)[i]);
            }
        }
        if forall|i: int| 0 <= i < ls.len() ==> is_install_line(#[trigger] ls[i]) {
            assert forall|i: int| 0 <= i < init.len() implies is_install_line(#[trigger] init[i]) by {
                assert(is_install_line(ls[i]));
            }
        }
        if forall|i: int| 0 <= i < ls.len() ==> !is_install_line(#[trigger] ls[i]) {
            assert forall|i: int| 0 <= i < init.len() implies !is_install_line(
                #[trigger] init[i],
            ) by {
                assert(!is_install_line(ls[i]));
            }
            assert(other_lines(ls) =~= ls);
        }
    }
}

proof fn lemma_skip_blank_start(ls: Seq<Seq<char>>)
    ensures
        skip_blank(ls).len() > 0 ==> trim_both(skip_blank(ls)[0]).len() > 0,
        skip_blank(skip_blank(ls)) == skip_blank(ls),
    decreases ls.len(),
{
    if ls.len() > 0 && trim_both(ls[0]).len() == 0 {
        lemma_skip_blank_start(ls.skip(1));
    }
}

/// A text that starts with the word of an install line is one.
proof fn lemma_is_install(l: Seq<char>)
    requires
        starts_with(l, "install  "@),
    ensures
        is_install_line(l),
{
    reveal_strlit("install  ");
    reveal_strlit("install ");
    reveal_strlit("install");
    let w = "install  "@;
    assert forall|i: int| 0 <= i < 9 implies l[i] == w[i] by {
        assert(l.subrange(0, 9)[i] == w[i]);
    }
    assert(!white_space(l[0]));
    assert(!white_space(l[6]));
    lemma_trim_end_prefix(l);
    let t = trim_end(l);
    assert(trim_both(l) == t);
    assert(t.len() >= 7);
    assert forall|i: int| 0 <= i < t.len() implies t[i] == l[i] by {
        assert(l.take(t.len() as int)[i] == l[i]);
    }
    if t.len() == 7 {
        assert(t =~= "install"@);
    } else {
        assert(t.subrange(0, 8) =~= "install "@);
    }
}

/// The lines of a manifest that stay when its install lines are replaced.
pub open spec fn kept_lines(text: Seq<char>) -> Seq<Seq<char>> {
    skip_blank(other_lines(lines(text_without_bom(text))))
}

/// Of install targets that are set one after another the last ones are left, and nothing of the
/// ones before. Set twice, install targets are as if they were set once.
///
/// This holds where no line that stays ends in a carriage return, of which one more is lost each
/// time the text is read, and where the replaced targets hold no line feed.
pub proof fn law_last_targets_win(
    existing: Seq<char>,
    first: Seq<(Seq<char>, Seq<char>)>,
    second: Seq<(Seq<char>, Seq<char>)>,
)
    requires
        forall|i: int|
            0 <= i < kept_lines(existing).len() ==> ((#[trigger] kept_lines(existing)[i]).len() > 0
                ==> kept_lines(existing)[i].last() != '\r'),
        forall|i: int|
            0 <= i < first.len() ==> !(#[trigger] first[i]).0.contains('\n')
                && !first[i].1.contains('\n'),
    ensures
        with_install_lines(with_install_lines(existing, first), second) == with_install_lines(
            existing,
            second,
        ),
{
    let ls = lines(text_without_bom(existing));
    let a = install_lines(first);
    let blank = seq![Seq::<char>::empty()];
    let head = a + blank;
    let others = other_lines(ls);
    let b = kept_lines(existing);
    reveal_strlit("install  ");
    reveal_strlit("  ");
    lemma_no_newline_in_lines(text_without_bom(existing));
    lemma_other_lines_declare(ls);
    lemma_skip_blank_declares(others);
    // no line holds a line feed
    assert forall|i: int| 0 <= i < head.len() implies !(#[trigger] head[i]).contains('\n') by {
        if i < a.len() {
            let p = first[i];
            assert(!p.0.contains('\n') && !p.1.contains('\n'));
            assert(head[i] == install_line(p));
            assert forall|j: int| 0 <= j < head[i].len() implies head[i][j] != '\n' by {
                let n = p.0.len() as int;
                if j < 9 {
                    assert(head[i][j] == "install  "@[j]);
                } else if j < 9 + n {
                    assert(head[i][j] == p.0[j - 9]);
                } else if j < 11 + n {
                    assert(head[i][j] == "  "@[j - 9 - n]);
                } else {
                    assert(head[i][j] == p.1[j - 11 - n]);
                }
            }
        } else {
            assert(head[i] == Seq::<char>::empty());
        }
    }
    assert forall|i: int| 0 <= i < b.len() implies !(#[trigger] b[i]).contains('\n')
        && !is_install_line(b[i]) by {
        assert(others.contains(b[i]));
        let k = choose|k: int| 0 <= k < others.len() && others[k] == b[i];
        lemma_other_lines_of(ls);
        assert(ls.contains(others[k]));
        let j = choose|j: int| 0 <= j < ls.len() && ls[j] == others[k];
        assert(!ls[j].contains('\n'));
    }
    // the text is read again
    lemma_lines_of_ended(head);
    lemma_lines_of_ended(b);
    assert(head.drop_last() =~= a);
    assert(ended(head) =~= ended(a).push('\n'));
    let text = with_install_lines(existing, first);
    assert(text =~= ended(head) + ended(b));
    assert(text_without_bom(text) == text) by {
        lemma_ended_start(head);
        assert(text[0] == ended(head)[0]);
        if first.len() > 0 {
            assert(head[0] == install_line(first[0]));
            assert(head[0][0] == "install  "@[0]);
        } else {
            assert(head[0] =~= Seq::empty());
        }
    }
    lemma_lines_append(ended(head), ended(b));
    assert(all_reread(b) =~= b) by {
        assert forall|i: int| 0 <= i < b.len() implies reread(#[trigger] b[i]) == b[i] by {
            assert(b[i].push('\n').drop_last() =~= b[i]);
        }
    }
    assert(reread(Seq::empty()) =~= Seq::<char>::empty()) by {
        assert(Seq::<char>::empty().push('\n').drop_last() =~= Seq::<char>::empty());
    }
    assert(all_reread(head) =~= all_reread(a) + blank);
    assert(lines(text) == all_reread(a) + blank + b);
    // what stays of it
    let ra = all_reread(a);
    assert forall|i: int| 0 <= i < ra.len() implies is_install_line(#[trigger] ra[i]) by {
        let l = install_line(first[i]);
        assert(ra[i] == reread(l));
        assert(l.push('\n').drop_last() =~= l);
        assert(ra[i].len() >= 9);
        assert(ra[i].subrange(0, 9) =~= "install  "@);
        lemma_is_install(ra[i]);
    }
    lemma_other_lines_of(ra);
    lemma_other_lines_of(b);
    assert(!is_install_line(Seq::empty())) by {
        reveal_strlit("install ");
        reveal_strlit("install");
    }
    lemma_other_lines_of(blank);
    lemma_other_lines_add(ra, blank);
    lemma_other_lines_add(ra + blank, b);
    assert(other_lines(lines(text)) =~= blank + b);
    assert((blank + b).skip(1) =~= b);
    lemma_skip_blank_start(others);
    assert(skip_blank(blank + b) == skip_blank(b));
}

} // verus!
