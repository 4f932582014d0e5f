//! What the lists to pick from show, and what keys do to them.

use vstd::prelude::*;
use vstd::utf8::encode_utf8;
use crate::bytes::{bytes_occur, first_bytes};
use crate::commands::add_tui;
use crate::commands::picker::{all_rows, law_picked, moved, picked, KeyCode, KeyEvent};
use crate::commands::search::last_part;
use crate::commands::search_tui;
use crate::commands::search_tui::{
    audit_lines, audits_on, color_of_registry, color_of_score, description_lines, fact_lines,
    haystack, item_matches, list_line, list_lines, match_flags, provider_spans, security_spans,
    shown_rows, skill_section, verdict, wanted_audits, AuditState, SecurityAudit, SkillPreviewState,
};
use crate::commands::styled::{bold_colored, bold_style, colored, raw, styled, Color};
use crate::commands::text_map::{last_of, TextMap};
use crate::lines::{lines, words};
use crate::numbers::decimal;
use crate::registry::{RegistryId, SearchResult};
use crate::text::{has_text, lowercase, occurs_at, opt_text};

verus! {

// ---------------------------------------------------------------------------
// Moving
// ---------------------------------------------------------------------------

/// One row down is the next one, and behind the last row comes the first; one row up is the one
/// before, and in front of the first row comes the last.
pub proof fn law_one_row(row: usize, len: nat)
    requires
        row < len <= usize::MAX,
    ensures
        moved(Some(row), len, 1) == Some(
            if row + 1 < len {
                (row + 1) as usize
            } else {
                0
            },
        ),
        moved(Some(row), len, -1) == Some(
            if row > 0 {
                (row - 1) as usize
            } else {
                (len - 1) as usize
            },
        ),
{
    let n = len as int;
    let up = row + 1;
    let down = row - 1;
    if up < n {
        assert(up % n == up) by (nonlinear_arith)
            requires
                0 <= up < n,
        ;
    } else {
        assert(up % n == 0) by (nonlinear_arith)
            requires
                up == n,
                n > 0,
        ;
    }
    if row > 0 {
        assert(down % n == down) by (nonlinear_arith)
            requires
                0 <= down < n,
        ;
    } else {
        assert(down % n == n - 1) by (nonlinear_arith)
            requires
                down == -1,
                n > 0,
        ;
    }
}

// ---------------------------------------------------------------------------
// The list of results
// ---------------------------------------------------------------------------

/// A filter is matched by the name of a result, its owner, its description and its registry: each of
/// these stands in the text in which the words of the filter are looked for.
pub proof fn law_what_a_filter_sees(item: SearchResult)
    ensures
        has_text(haystack(item), item.name@),
        has_text(haystack(item), item.owner@),
        item.description matches Some(d) ==> has_text(haystack(item), d@),
        has_text(haystack(item), item.registry.word()),
{
    let h = haystack(item);
    let d = match item.description {
        Some(d) => d@,
        None => Seq::empty(),
    };
    let name = item.name@;
    let owner = item.owner@;
    let word = item.registry.word();
    reveal_strlit(" ");
    assert(h.subrange(0, name.len() as int) =~= name);
    assert(occurs_at(h, name, 0));
    let a = name.len() + 1;
    assert(h.subrange(a as int, (a + owner.len()) as int) =~= owner);
    assert(occurs_at(h, owner, a as int));
    let b = a + owner.len() + 1;
    assert(h.subrange(b as int, (b + d.len()) as int) =~= d);
    assert(occurs_at(h, d, b as int));
    let c = b + d.len() + 1;
    assert(h.subrange(c as int, (c + word.len()) as int) =~= word);
    assert(occurs_at(h, word, c as int));
}

/// Whether each word of a filter stands in a text, whatever the case.
pub open spec fn sees(text: Seq<char>, filter: Seq<char>) -> bool {
    forall|k: int|
        0 <= k < words(lowercase(filter)).len() ==> has_text(
            lowercase(text),
            #[trigger] words(lowercase(filter))[k],
        )
}

proof fn lemma_rows(flags: Seq<bool>)
    requires
        flags.len() <= usize::MAX,
    ensures
        forall|i: usize|
            i < flags.len() ==> (#[trigger] picked(flags).contains(i) <==> flags[i as int]),
{
    law_picked(flags);
    let p = picked(flags);
    assert forall|i: usize| i < flags.len() implies (#[trigger] p.contains(i) <==> flags[i as int]) by {
        if p.contains(i) {
            let k = choose|k: int| 0 <= k < p.len() && p[k] == i;
            assert(flags[p[k] as int]);
        }
        if flags[i as int] {
            let q = i as int;
            assert(p.contains(q as usize));
        }
    }
}

/// The rows of the list are the results in which each word of the filter stands, in the order of the
/// results; without a filter they are all results.
pub proof fn law_rows_match_the_filter(items: Seq<SearchResult>, filter: Seq<char>, i: usize)
    requires
        i < items.len() <= usize::MAX,
        filter.len() > 0 ==> lowercase(filter).len() > 0,
    ensures
        shown_rows(items, filter).contains(i) <==> filter.len() == 0 || sees(
            haystack(items[i as int]),
            filter,
        ),
        forall|a: int, b: int|
            0 <= a < b < shown_rows(items, filter).len() ==> shown_rows(items, filter)[a]
                < shown_rows(items, filter)[b],
{
    if filter.len() == 0 {
        let all = all_rows(items.len());
        assert(all[i as int] == i);
    } else {
        let flags = match_flags(items, lowercase(filter));
        lemma_rows(flags);
        law_picked(flags);
        assert(flags[i as int] == item_matches(items[i as int], lowercase(filter)));
        assert(picked(flags).contains(i) <==> flags[i as int]);
    }
}

/// The key that types a character.
pub open spec fn typed(c: char) -> KeyEvent {
    KeyEvent { code: KeyCode::Char(c), control: false }
}

/// A key without another held down.
pub open spec fn pressed(code: KeyCode) -> KeyEvent {
    KeyEvent { code, control: false }
}

/// A character that is typed behind a filter stands at its end, and the first match is highlighted.
/// Taking it off again leads back to the rows before.
pub proof fn law_typing_filters(items: Seq<SearchResult>, s: search_tui::AppView, c: char)
    requires
        search_tui::valid_state(items, s),
        s.filter.len() > 0,
    ensures
        ({
            let t = search_tui::after_key(items, s, typed(c));
            let u = search_tui::after_key(items, t, pressed(KeyCode::Backspace));
            &&& t.filter == s.filter.push(c)
            &&& t.filtered == shown_rows(items, s.filter.push(c))
            &&& t.filtered.len() > 0 ==> t.row == Some(0usize)
            &&& t.confirmed == s.confirmed && t.cancelled == s.cancelled
            &&& u.filter == s.filter
            &&& u.filtered == s.filtered
        }),
{
    assert(s.filter.push(c).drop_last() =~= s.filter);
}

/// While nothing is filtered, letters stand for the keys that move: `j` for down, `k` for up, `g` for
/// the first row, `G` for the last, and `q` leaves.
pub proof fn law_letters_move(items: Seq<SearchResult>, s: search_tui::AppView)
    requires
        search_tui::valid_state(items, s),
        s.filter.len() == 0,
        0 < items.len() <= usize::MAX,
    ensures
        search_tui::after_key(items, s, typed('j')) == search_tui::after_key(
            items,
            s,
            pressed(KeyCode::Down),
        ),
        search_tui::after_key(items, s, typed('k')) == search_tui::after_key(
            items,
            s,
            pressed(KeyCode::Up),
        ),
        search_tui::after_key(items, s, typed('g')).row == Some(0usize),
        search_tui::after_key(items, s, typed('G')).row == Some((items.len() - 1) as usize),
        search_tui::after_key(items, s, pressed(KeyCode::Home)).row == Some(0usize),
        search_tui::after_key(items, s, pressed(KeyCode::End)).row == Some(
            (items.len() - 1) as usize,
        ),
        search_tui::after_key(items, s, typed('q')).cancelled,
        (s.row matches Some(r) && r + 1 < items.len()) ==> search_tui::after_key(
            items,
            s,
            pressed(KeyCode::Down),
        ).row == Some((s.row->Some_0 + 1) as usize),
        (s.row matches Some(r) && r > 0) ==> search_tui::after_key(
            items,
            s,
            pressed(KeyCode::Up),
        ).row == Some((s.row->Some_0 - 1) as usize),
{
    let n = s.filtered.len();
    assert(n == items.len());
    law_one_row(s.row->Some_0, n);
}

/// A letter that stands for no key starts a filter. While something is filtered the keys that move do
/// nothing.
pub proof fn law_starting_a_filter(items: Seq<SearchResult>, s: search_tui::AppView, c: char)
    requires
        search_tui::valid_state(items, s),
    ensures
        s.filter.len() == 0 && c != 'q' && c != 'j' && c != 'k' && c != 'g' && c != 'G' ==> {
            let t = search_tui::after_key(items, s, typed(c));
            t.filter == seq![c] && t.filtered == shown_rows(items, seq![c])
        },
        s.filter.len() > 0 ==> {
            &&& search_tui::after_key(items, s, pressed(KeyCode::Up)) == s
            &&& search_tui::after_key(items, s, pressed(KeyCode::Down)) == s
            &&& search_tui::after_key(items, s, pressed(KeyCode::Home)) == s
            &&& search_tui::after_key(items, s, pressed(KeyCode::End)) == s
        },
        s.filter.len() == 0 ==> search_tui::after_key(
            items,
            s,
            pressed(KeyCode::Backspace),
        ).filtered == s.filtered,
{
    if s.filter.len() == 0 {
        assert(s.filter.push(c) =~= seq![c]);
    }
}

/// A list is left only by the keys that are meant to: it is confirmed by Enter on a highlighted
/// result, and given up by Esc, by `c` with Control, or by `q` while nothing is filtered.
pub proof fn law_leaving(items: Seq<SearchResult>, s: search_tui::AppView, key: KeyEvent)
    requires
        items.len() <= usize::MAX,
        search_tui::valid_state(items, s),
        !s.confirmed,
        !s.cancelled,
    ensures
        search_tui::after_key(items, s, key).confirmed <==> key.code is Enter && s.row is Some,
        search_tui::after_key(items, s, key).cancelled <==> key.code is Esc || (key.code
            == KeyCode::Char('c') && key.control) || (key.code == KeyCode::Char('q')
            && s.filter.len() == 0),
{
    if s.row is Some {
        search_tui::law_highlighted_is_a_result(items, s);
    }
}

/// Audits are fetched for just the pages of shown results whose registry has audits and that were
/// not asked for before.
pub proof fn law_audits_to_fetch(
    items: Seq<SearchResult>,
    rows: Seq<usize>,
    cache: TextMap<AuditState>,
    url: Seq<char>,
)
    ensures
        wanted_audits(items, rows, cache).contains(url) <==> cache.at(url) is None && exists|j: int|
            0 <= j < rows.len() && (#[trigger] rows[j]) < items.len() && items[rows[j] as int].url@
                == url && items[rows[j] as int].registry == RegistryId::SkillsSh,
    decreases rows.len(),
{
    let w = wanted_audits(items, rows, cache);
    if rows.len() > 0 {
        let init = rows.drop_last();
        let before = wanted_audits(items, init, cache);
        law_audits_to_fetch(items, init, cache, url);
        let l = rows.len() - 1;
        if w.contains(url) {
            let k = choose|k: int| 0 <= k < w.len() && w[k] == url;
            if k < before.len() {
                assert(before[k] == url);
                assert(before.contains(url));
                let j = choose|j: int|
                    0 <= j < init.len() && (#[trigger] init[j]) < items.len()
                        && items[init[j] as int].url@ == url && items[init[j] as int].registry
                        == RegistryId::SkillsSh;
                assert(rows[j] == init[j]);
            } else {
                assert(rows[l] < items.len());
            }
        }
        if cache.at(url) is None && exists|j: int|
            0 <= j < rows.len() && (#[trigger] rows[j]) < items.len() && items[rows[j] as int].url@
                == url && items[rows[j] as int].registry == RegistryId::SkillsSh {
            let j = choose|j: int|
                0 <= j < rows.len() && (#[trigger] rows[j]) < items.len()
                    && items[rows[j] as int].url@ == url && items[rows[j] as int].registry
                    == RegistryId::SkillsSh;
            if j < l {
                assert(init[j] == rows[j]);
                assert(before.contains(url));
                let k = choose|k: int| 0 <= k < before.len() && before[k] == url;
                assert(w[k] == url);
            } else {
                assert(w[w.len() - 1] == url);
            }
        }
    }
}

/// Each row shows its own result, with what is known of the audits of its page.
pub proof fn law_rows_show_results(
    items: Seq<SearchResult>,
    rows: Seq<usize>,
    cache: TextMap<AuditState>,
)
    requires
        forall|j: int| 0 <= j < rows.len() ==> (#[trigger] rows[j]) < items.len(),
    ensures
        list_lines(items, rows, cache).len() == rows.len(),
        forall|j: int|
            0 <= j < rows.len() ==> list_lines(items, rows, cache)[j] == list_line(
                items[#[trigger] rows[j] as int],
                cache.at(items[rows[j] as int].url@),
            ),
    decreases rows.len(),
{
    if rows.len() > 0 {
        let init = rows.drop_last();
        assert forall|j: int| 0 <= j < init.len() implies (#[trigger] init[j]) < items.len() by {
            assert(init[j] == rows[j]);
        }
        law_rows_show_results(items, init, cache);
        assert(rows[rows.len() - 1] < items.len());
        let all = list_lines(items, rows, cache);
        assert forall|j: int| 0 <= j < rows.len() implies all[j] == list_line(
            items[#[trigger] rows[j] as int],
            cache.at(items[rows[j] as int].url@),
        ) by {
            if j < init.len() {
                assert(init[j] == rows[j]);
                assert(all[j] == list_lines(items, init, cache)[j]);
            }
        }
    }
}

/// A score is green from eighty on, yellow from fifty on, and red below.
pub proof fn law_score_colors(score: u8)
    requires
        score <= 100,
    ensures
        color_of_score(score) is Green <==> score >= 80,
        color_of_score(score) is Yellow <==> 50 <= score && score < 80,
        color_of_score(score) is Red <==> score < 50,
{
}

/// The row of a result shows its name first and its registry last, each registry in a color of its
/// own, and its stars where they are known.
pub proof fn law_row_of_a_result(item: SearchResult, audits: Option<AuditState>, other: RegistryId)
    ensures
        ({
            let l = list_line(item, audits);
            &&& l[0] == styled(item.name@, bold_style())
            &&& item.stars is Some ==> l[1].content == "  \u{2605}"@ + decimal(
                item.stars->Some_0 as nat,
            )
            &&& item.stars is None ==> l[1].content.len() == 0
            &&& l.last() == styled(item.registry.word(), colored(color_of_registry(item.registry)))
            &&& l.len() == 4 + security_spans(item, audits).len()
            &&& color_of_registry(item.registry) == color_of_registry(other) <==> item.registry
                == other
        }),
{
    reveal_strlit("");
}

/// The score of a result is shown in its color, whatever is known of audits.
pub proof fn law_score_is_shown(item: SearchResult, audits: Option<AuditState>, score: u8)
    requires
        item.security_score == Some(score),
        score <= 100,
    ensures
        security_spans(item, audits).len() == 2,
        security_spans(item, audits)[1] == styled(
            "\u{1f6e1} "@ + decimal(score as nat),
            colored(
                if score >= 80 {
                    Color::Green
                } else if score >= 50 {
                    Color::Yellow
                } else {
                    Color::Red
                },
            ),
        ),
{
}

/// The line above the list shows the filter that is typed, and how many of the results are shown; of
/// how many were found only where there are more than results.
pub proof fn law_bar_above_results(app: search_tui::App<'_>)
    ensures
        ({
            let b = search_tui::status_bar(app);
            let shown = " "@ + decimal(app.filtered@.len()) + "/"@ + decimal(app.items@.len());
            &&& b.len() == 3
            &&& app.filter@.len() > 0 ==> b[0].content == " filter: "@ + app.filter@ + "_"@
            &&& app.total > app.items@.len() ==> b[2].content == shown + " (of "@ + decimal(
                app.total as nat,
            ) + " total) "@
            &&& app.total <= app.items@.len() ==> b[2].content == shown + " "@
        }),
{
}

/// The audits of a result are shown one behind the other, with a bar between two of them, each with
/// its own verdict.
pub proof fn law_verdicts_are_shown(audits: Seq<SecurityAudit>)
    ensures
        audits.len() > 0 ==> provider_spans(audits).len() == 2 * audits.len() - 1,
        forall|i: int|
            0 <= i < audits.len() ==> provider_spans(audits)[2 * i] == (if (#[trigger] audits[i]).passed {
                styled("\u{2713} "@ + audits[i].provider@, colored(Color::Green))
            } else {
                styled("\u{2717} "@ + audits[i].provider@, colored(Color::Red))
            }),
    decreases audits.len(),
{
    if audits.len() > 0 {
        let init = audits.drop_last();
        law_verdicts_are_shown(init);
        let p = provider_spans(audits);
        assert forall|i: int| 0 <= i < audits.len() implies p[2 * i] == (
        if (#[trigger] audits[i]).passed {
            styled("\u{2713} "@ + audits[i].provider@, colored(Color::Green))
        } else {
            styled("\u{2717} "@ + audits[i].provider@, colored(Color::Red))
        }) by {
            if i < init.len() {
                assert(init[i] == audits[i]);
                assert(p[2 * i] == provider_spans(init)[2 * i]);
            }
        }
    }
}

/// A line about audits is shown only of a registry that has them, and only once they were asked for:
/// while they are fetched, where that failed, and where there are some.
pub proof fn law_when_audits_are_shown(registry: RegistryId, state: Option<AuditState>)
    ensures
        audit_lines(registry, state).len() == 1 <==> registry == RegistryId::SkillsSh && (
        match state {
            Some(AuditState::Loaded(a)) => a@.len() > 0,
            Some(_) => true,
            None => false,
        }),
        audit_lines(registry, state).len() <= 1,
{
}

/// The mark of a row is green exactly where there are audits and every one passed.
pub proof fn law_shield(item: SearchResult, audits: Vec<SecurityAudit>)
    requires
        item.security_score is None,
    ensures
        security_spans(item, Some(AuditState::Loaded(audits)))[1].style == colored(
            if audits@.len() > 0 && forall|i: int|
                0 <= i < audits@.len() ==> (#[trigger] audits@[i]).passed {
                Color::Green
            } else {
                Color::Red
            },
        ),
        security_spans(item, Some(AuditState::Loading)).len() == 0,
        security_spans(item, None).len() == 0,
{
}

/// The pane of a result starts with its name and shows each thing that is known of it, in a fixed
/// order, and its description below.
pub proof fn law_pane_of_a_result(
    item: SearchResult,
    audits: Option<AuditState>,
    preview: Option<SkillPreviewState>,
)
    ensures
        ({
            let p = search_tui::preview_lines(item, audits, preview);
            let f = fact_lines(item);
            let d = description_lines(opt_text(item.description));
            &&& p == f + audit_lines(item.registry, audits) + d + skill_section(preview)
            &&& f[0] == seq![styled(item.name@, bold_colored(Color::Cyan))]
            &&& f.last()[1].content == item.url@
            &&& f[2][1].content == item.registry.word()
            &&& f.len() == 4 + (if item.owner@.len() > 0 {
                1int
            } else {
                0
            }) + (if item.stars is Some {
                1int
            } else {
                0
            }) + (if item.security_score is Some {
                1int
            } else {
                0
            }) + (if item.source_repo is Some {
                1int
            } else {
                0
            })
            &&& item.owner@.len() > 0 ==> f[3][1].content == item.owner@
            &&& item.stars is Some ==> f[if item.owner@.len() > 0 {
                4int
            } else {
                3
            }][1].content == decimal(item.stars->Some_0 as nat)
            &&& item.security_score is Some ==> f[f.len() - (if item.source_repo is Some {
                3int
            } else {
                2
            })][1].content == decimal(item.security_score->Some_0 as nat) + "/100"@
            &&& item.source_repo is Some ==> f[f.len() - 2][1].content
                == item.source_repo->Some_0@
        }),
{
}

/// All lines of a description are shown, and where there is none that is said.
pub proof fn law_description_is_shown(d: Seq<char>)
    ensures
        description_lines(Some(d)).len() == lines(d).len() + 3,
        forall|i: int|
            0 <= i < lines(d).len() ==> description_lines(Some(d))[i + 3] == seq![
                raw(#[trigger] lines(d)[i]),
            ],
        description_lines(None).len() == 2,
{
}

// ---------------------------------------------------------------------------
// The list of entries
// ---------------------------------------------------------------------------

/// The rows of the list are the paths in which each word of the filter stands, in the order of the
/// paths; without a filter they are all paths.
pub proof fn law_paths_match_the_filter(paths: Seq<Seq<char>>, filter: Seq<char>, i: usize)
    requires
        i < paths.len() <= usize::MAX,
        filter.len() > 0 ==> lowercase(filter).len() > 0,
    ensures
        add_tui::shown_rows(paths, filter).contains(i) <==> filter.len() == 0 || sees(
            paths[i as int],
            filter,
        ),
        forall|a: int, b: int|
            0 <= a < b < add_tui::shown_rows(paths, filter).len() ==> add_tui::shown_rows(
                paths,
                filter,
            )[a] < add_tui::shown_rows(paths, filter)[b],
{
    if filter.len() == 0 {
        let all = all_rows(paths.len());
        assert(all[i as int] == i);
    } else {
        let flags = add_tui::match_flags(paths, lowercase(filter));
        lemma_rows(flags);
        law_picked(flags);
        assert(flags[i as int] == add_tui::path_matches(paths[i as int], lowercase(filter)));
        assert(picked(flags).contains(i) <==> flags[i as int]);
    }
}

/// Space picks the highlighted entry where it was not picked, and lets go of it where it was; every
/// other entry stays as it was, whatever the filter.
pub proof fn law_space_picks(paths: Seq<Seq<char>>, s: add_tui::AppView, i: usize)
    requires
        add_tui::valid_state(paths, s),
        s.row is Some,
    ensures
        ({
            let t = add_tui::after_key(paths, s, typed(' '));
            &&& t.selected.contains(i) <==> (if i == s.filtered[s.row->Some_0 as int] {
                !s.selected.contains(i)
            } else {
                s.selected.contains(i)
            })
            &&& t.filter == s.filter && t.filtered == s.filtered && t.row == s.row
        }),
{
}

/// `a` picks all rows, or lets go of all where all were picked. Entries that are not shown stay as
/// they were.
pub proof fn law_all_rows_are_picked(paths: Seq<Seq<char>>, s: add_tui::AppView, i: usize)
    requires
        add_tui::valid_state(paths, s),
        s.filter.len() == 0,
    ensures
        ({
            let t = add_tui::after_key(paths, s, typed('a'));
            let all = forall|j: int|
                0 <= j < s.filtered.len() ==> s.selected.contains(#[trigger] s.filtered[j]);
            &&& s.filtered.contains(i) ==> t.selected.contains(i) == !all
            &&& !s.filtered.contains(i) ==> t.selected.contains(i) == s.selected.contains(i)
        }),
{
    assert(s.filtered.to_set().contains(i) <==> s.filtered.contains(i));
}

/// A character that is typed behind a filter stands at its end, and taking it off again leads back
/// to the rows before. What is picked stays picked.
pub proof fn law_typing_filters_paths(paths: Seq<Seq<char>>, s: add_tui::AppView, c: char)
    requires
        add_tui::valid_state(paths, s),
        s.filter.len() > 0,
        c != ' ',
    ensures
        ({
            let t = add_tui::after_key(paths, s, typed(c));
            let u = add_tui::after_key(paths, t, pressed(KeyCode::Backspace));
            &&& t.filter == s.filter.push(c)
            &&& t.filtered == add_tui::shown_rows(paths, s.filter.push(c))
            &&& t.filtered.len() > 0 ==> t.row == Some(0usize)
            &&& t.selected == s.selected
            &&& u.filter == s.filter
            &&& u.filtered == s.filtered
            &&& u.selected == s.selected
        }),
{
    assert(s.filter.push(c).drop_last() =~= s.filter);
}

/// While nothing is filtered, letters stand for the keys that move.
pub proof fn law_letters_move_among_paths(paths: Seq<Seq<char>>, s: add_tui::AppView)
    requires
        add_tui::valid_state(paths, s),
        s.filter.len() == 0,
        0 < paths.len() <= usize::MAX,
    ensures
        add_tui::after_key(paths, s, typed('j')) == add_tui::after_key(
            paths,
            s,
            pressed(KeyCode::Down),
        ),
        add_tui::after_key(paths, s, typed('k')) == add_tui::after_key(
            paths,
            s,
            pressed(KeyCode::Up),
        ),
        add_tui::after_key(paths, s, typed('g')).row == Some(0usize),
        add_tui::after_key(paths, s, typed('G')).row == Some((paths.len() - 1) as usize),
        add_tui::after_key(paths, s, pressed(KeyCode::Home)).row == Some(0usize),
        add_tui::after_key(paths, s, pressed(KeyCode::End)).row == Some((paths.len() - 1) as usize),
        (s.row matches Some(r) && r + 1 < paths.len()) ==> add_tui::after_key(
            paths,
            s,
            pressed(KeyCode::Down),
        ).row == Some((s.row->Some_0 + 1) as usize),
        (s.row matches Some(r) && r > 0) ==> add_tui::after_key(
            paths,
            s,
            pressed(KeyCode::Up),
        ).row == Some((s.row->Some_0 - 1) as usize),
{
    let n = s.filtered.len();
    assert(n == paths.len());
    law_one_row(s.row->Some_0, n);
}

/// A letter that stands for no key starts a filter of paths. While something is filtered the keys that
/// move do nothing.
pub proof fn law_starting_a_filter_of_paths(paths: Seq<Seq<char>>, s: add_tui::AppView, c: char)
    requires
        add_tui::valid_state(paths, s),
    ensures
        s.filter.len() == 0 && c != ' ' && c != 'a' && c != 'q' && c != 'j' && c != 'k' && c != 'g'
            && c != 'G' ==> {
            let t = add_tui::after_key(paths, s, typed(c));
            t.filter == seq![c] && t.filtered == add_tui::shown_rows(paths, seq![c])
                && t.selected == s.selected
        },
        s.filter.len() > 0 ==> {
            &&& add_tui::after_key(paths, s, pressed(KeyCode::Up)) == s
            &&& add_tui::after_key(paths, s, pressed(KeyCode::Down)) == s
            &&& add_tui::after_key(paths, s, pressed(KeyCode::Home)) == s
            &&& add_tui::after_key(paths, s, pressed(KeyCode::End)) == s
        },
        s.filter.len() == 0 ==> add_tui::after_key(
            paths,
            s,
            pressed(KeyCode::Backspace),
        ).filtered == s.filtered,
{
    if s.filter.len() == 0 {
        assert(s.filter.push(c) =~= seq![c]);
    }
}

/// A list of entries is confirmed only by Enter, and only where something is picked. It is given up
/// by Esc, by `c` with Control, or by `q` while nothing is filtered.
pub proof fn law_leaving_paths(paths: Seq<Seq<char>>, s: add_tui::AppView, key: KeyEvent)
    requires
        add_tui::valid_state(paths, s),
        !s.confirmed,
        !s.cancelled,
    ensures
        add_tui::after_key(paths, s, key).confirmed <==> key.code is Enter && exists|i: usize|
            s.selected.contains(i),
        add_tui::after_key(paths, s, key).cancelled <==> key.code is Esc || (key.code
            == KeyCode::Char('c') && key.control) || (key.code == KeyCode::Char('q')
            && s.filter.len() == 0),
{
    if s.selected.len() > 0 {
        assert(s.selected.contains(s.selected.choose()));
    }
    if exists|i: usize| s.selected.contains(i) {
        let i = choose|i: usize| s.selected.contains(i);
        assert(s.selected.remove(i).len() + 1 == s.selected.len());
    }
}

/// Scrolling the preview down and up again leads back, short of the end.
pub proof fn law_scrolling_back(paths: Seq<Seq<char>>, s: add_tui::AppView)
    requires
        s.preview_scroll <= u16::MAX - 3,
    ensures
        ({
            let t = add_tui::after_key(paths, s, pressed(KeyCode::Tab));
            &&& t.preview_scroll == s.preview_scroll + 3
            &&& add_tui::after_key(paths, t, pressed(KeyCode::BackTab)) == s
        }),
{
}

/// Which entries are picked, by their positions.
pub open spec fn picks(len: nat, selected: Set<usize>) -> Seq<bool> {
    Seq::new(len, |i: int| selected.contains(i as usize))
}

/// What is added are the picked entries, each once, in the order of the list.
pub proof fn law_chosen_paths(paths: Seq<Seq<char>>, selected: Set<usize>)
    requires
        paths.len() <= usize::MAX,
    ensures
        add_tui::chosen(paths, selected) == picked(picks(paths.len(), selected)).map_values(
            |i: usize| paths[i as int],
        ),
    decreases paths.len(),
{
    let flags = picks(paths.len(), selected);
    let f = |i: usize| paths[i as int];
    if paths.len() > 0 {
        let init = paths.drop_last();
        let before = picks(init.len(), selected);
        law_chosen_paths(init, selected);
        assert(flags.drop_last() =~= before);
        law_picked(before);
        let p = picked(before);
        let g = |i: usize| init[i as int];
        assert(p.map_values(g) =~= p.map_values(f)) by {
            assert forall|k: int| 0 <= k < p.len() implies g(p[k]) == f(p[k]) by {
                assert(p[k] < before.len());
            }
        }
        let l = (paths.len() - 1) as usize;
        assert(p.push(l).map_values(f) =~= p.map_values(f).push(paths.last()));
    } else {
        assert(picked(flags).map_values(f) =~= Seq::empty());
    }
}

/// The row of an entry shows whether it is picked, the last part of its path, whether it is a
/// directory, and in which directory it is.
pub proof fn law_row_of_an_entry(path: Seq<char>, checked: bool)
    ensures
        ({
            let l = add_tui::list_line(path, checked);
            let dir = !add_tui::is_md(path) && path != "."@;
            let parent = add_tui::parent_part(path);
            &&& l[0] == (if checked {
                styled("\u{25c9} "@, colored(Color::Green))
            } else {
                styled("\u{25cb} "@, colored(Color::DarkGray))
            })
            &&& l[1] == styled(last_part(path), bold_style())
            &&& dir ==> l[2].content == "  \u{1f4c1}"@
            &&& parent.len() > 0 ==> l.last().content == "  "@ + parent
            &&& l.len() == 2 + (if dir {
                1int
            } else {
                0
            }) + (if parent.len() > 0 {
                1int
            } else {
                0
            })
        }),
{
}

/// The line above the list of entries ends with how many are shown, shows the filter that is typed,
/// and how many are picked where some are.
pub proof fn law_bar_above_entries(app: add_tui::App<'_>)
    ensures
        ({
            let b = add_tui::status_bar(app);
            &&& b.last().content == decimal(app.filtered@.len()) + "/"@ + decimal(app.items@.len())
            &&& app.filter@.len() > 0 ==> b[1].content == app.filter@ + "_"@
            &&& app.selected@.len() > 0 ==> b[b.len() - 3].content == "  \u{2713} "@ + decimal(
                app.selected@.len(),
            ) + " selected"@
            &&& app.filter@.len() > 0 ==> b.len() == (if app.selected@.len() > 0 {
                5int
            } else {
                4
            })
        }),
{
}

/// Each row shows its own entry, marked where it is picked.
pub proof fn law_rows_show_paths(paths: Seq<Seq<char>>, rows: Seq<usize>, selected: Set<usize>)
    requires
        forall|j: int| 0 <= j < rows.len() ==> (#[trigger] rows[j]) < paths.len(),
    ensures
        add_tui::list_lines(paths, rows, selected).len() == rows.len(),
        forall|j: int|
            0 <= j < rows.len() ==> add_tui::list_lines(paths, rows, selected)[j]
                == add_tui::list_line(
                paths[#[trigger] rows[j] as int],
                selected.contains(rows[j]),
            ),
    decreases rows.len(),
{
    if rows.len() > 0 {
        let init = rows.drop_last();
        assert forall|j: int| 0 <= j < init.len() implies (#[trigger] init[j]) < paths.len() by {
            assert(init[j] == rows[j]);
        }
        law_rows_show_paths(paths, init, selected);
        assert(rows[rows.len() - 1] < paths.len());
        let all = add_tui::list_lines(paths, rows, selected);
        assert forall|j: int| 0 <= j < rows.len() implies all[j] == add_tui::list_line(
            paths[#[trigger] rows[j] as int],
            selected.contains(rows[j]),
        ) by {
            if j < init.len() {
                assert(init[j] == rows[j]);
                assert(all[j] == add_tui::list_lines(paths, init, selected)[j]);
            }
        }
    }
}

// ---------------------------------------------------------------------------
// Audits
// ---------------------------------------------------------------------------

/// The first position at which bytes stand among others is one at which they do, and there is none
/// before it; where there is no such position they stand nowhere.
pub proof fn law_first_bytes(s: Seq<u8>, p: Seq<u8>, from: int)
    requires
        0 <= from,
    ensures
        first_bytes(s, p, from) matches Some(k) ==> from <= k && bytes_occur(s, p, k) && forall|
            j: int,
        |
            from <= j < k ==> !#[trigger] bytes_occur(s, p, j),
        first_bytes(s, p, from) is None ==> forall|j: int|
            from <= j ==> !#[trigger] bytes_occur(s, p, j),
    decreases s.len() + 1 - from,
{
    if from <= s.len() && !bytes_occur(s, p, from) {
        law_first_bytes(s, p, from + 1);
    }
}

/// Whether the first of two marks in a part of a page is the first one.
pub open spec fn comes_first(window: Seq<u8>, mark: Seq<u8>, other: Seq<u8>, k: int) -> bool {
    bytes_occur(window, mark, k) && forall|j: int| 0 <= j <= k ==> !#[trigger] bytes_occur(window, other, j)
}

/// What follows the link to the audit of a provider on a page: five hundred bytes at most.
pub open spec fn behind_link(page: Seq<u8>, slug: Seq<char>, pos: int) -> Seq<u8> {
    if pos + 500 < page.len() {
        page.subrange(pos, pos + 500)
    } else {
        page.subrange(pos, page.len() as int)
    }
}

proof fn lemma_marks_differ()
    ensures
        encode_utf8(">Pass<"@) != encode_utf8(">Fail<"@),
        encode_utf8(">Pass<"@).len() == encode_utf8(">Fail<"@).len(),
{
    reveal_strlit(">Pass<");
    reveal_strlit(">Fail<");
    vstd::utf8::is_ascii_chars_encode_utf8(">Pass<"@);
    vstd::utf8::is_ascii_chars_encode_utf8(">Fail<"@);
    assert(">Pass<"@[1] as u8 == encode_utf8(">Pass<"@)[1]);
    assert(">Fail<"@[1] as u8 == encode_utf8(">Fail<"@)[1]);
}

/// The verdict of a provider is the first one behind the first link to its audit: it passed where
/// `>Pass<` comes first, and failed where `>Fail<` does. Without a link there is none.
pub proof fn law_verdict(page: Seq<u8>, slug: Seq<char>, pos: int)
    requires
        bytes_occur(page, encode_utf8("security/"@ + slug + "\">"@), pos),
        forall|j: int|
            0 <= j < pos ==> !#[trigger] bytes_occur(
                page,
                encode_utf8("security/"@ + slug + "\">"@),
                j,
            ),
    ensures
        verdict(page, slug) == Some(true) <==> exists|k: int|
            comes_first(
                behind_link(page, slug, pos),
                encode_utf8(">Pass<"@),
                encode_utf8(">Fail<"@),
                k,
            ),
        verdict(page, slug) == Some(false) <==> exists|k: int|
            comes_first(
                behind_link(page, slug, pos),
                encode_utf8(">Fail<"@),
                encode_utf8(">Pass<"@),
                k,
            ),
{
    let link = encode_utf8("security/"@ + slug + "\">"@);
    let pass = encode_utf8(">Pass<"@);
    let fail = encode_utf8(">Fail<"@);
    lemma_marks_differ();
    law_first_bytes(page, link, 0);
    assert(first_bytes(page, link, 0) == Some(pos));
    let w = behind_link(page, slug, pos);
    law_first_bytes(w, pass, 0);
    law_first_bytes(w, fail, 0);
    assert forall|k: int| bytes_occur(w, pass, k) implies !bytes_occur(w, fail, k) by {}
    match (first_bytes(w, pass, 0), first_bytes(w, fail, 0)) {
        (Some(p), Some(f)) => {
            assert(p != f);
            if p < f {
                assert(comes_first(w, pass, fail, p));
            } else {
                assert(comes_first(w, fail, pass, f));
            }
        },
        (Some(p), None) => {
            assert(comes_first(w, pass, fail, p));
        },
        (None, Some(f)) => {
            assert(comes_first(w, fail, pass, f));
        },
        (None, None) => {},
    }
}

/// The audits of a page are those of the three providers that have a verdict on it, each with its
/// own, in a fixed order.
pub proof fn law_audits_of_a_page(page: Seq<u8>)
    ensures
        verdict(page, "agent-trust-hub"@) matches Some(b) ==> audits_on(page).len() > 0
            && audits_on(page)[0] == ("Agent Trust Hub"@, b),
        verdict(page, "socket"@) matches Some(b) ==> audits_on(page).contains(("Socket"@, b)),
        verdict(page, "snyk"@) matches Some(b) ==> audits_on(page).len() > 0 && audits_on(
            page,
        ).last() == ("Snyk"@, b),
        audits_on(page).len() == (if verdict(page, "agent-trust-hub"@) is Some {
            1int
        } else {
            0
        }) + (if verdict(page, "socket"@) is Some {
            1int
        } else {
            0
        }) + (if verdict(page, "snyk"@) is Some {
            1int
        } else {
            0
        }),
{
    if let Some(b) = verdict(page, "socket"@) {
        let i: int = if verdict(page, "agent-trust-hub"@) is Some {
            1
        } else {
            0
        };
        assert(audits_on(page)[i] == ("Socket"@, b));
    }
}

/// Of the values that were set under a key the last one counts, and a key that was never set has
/// none.
pub proof fn law_last_value_counts<V>(entries: Seq<(String, V)>, key: Seq<char>)
    ensures
        last_of(entries, key) is None <==> forall|i: int|
            0 <= i < entries.len() ==> (#[trigger] entries[i]).0@ != key,
        last_of(entries, key) matches Some(v) ==> exists|i: int|
            0 <= i < entries.len() && (#[trigger] entries[i]).0@ == key && entries[i].1 == v
                && forall|j: int| i < j < entries.len() ==> (#[trigger] entries[j]).0@ != key,
    decreases entries.len(),
{
    if entries.len() > 0 {
        let l = entries.len() - 1;
        assert(entries.last() == entries[l]);
        if entries.last().0@ != key {
            let init = entries.drop_last();
            law_last_value_counts(init, key);
            if last_of(entries, key) is None {
                assert forall|i: int| 0 <= i < entries.len() implies (#[trigger] entries[i]).0@
                    != key by {
                    if i < l {
                        assert(init[i] == entries[i]);
                    }
                }
            } else {
                let v = last_of(entries, key)->Some_0;
                let i = choose|i: int|
                    0 <= i < init.len() && (#[trigger] init[i]).0@ == key && init[i].1 == v
                        && forall|j: int| i < j < init.len() ==> (#[trigger] init[j]).0@ != key;
                assert(entries[i] == init[i]);
                assert forall|j: int| i < j < entries.len() implies (#[trigger] entries[j]).0@
                    != key by {
                    if j < l {
                        assert(init[j] == entries[j]);
                    }
                }
            }
        }
    }
}

} // verus!
