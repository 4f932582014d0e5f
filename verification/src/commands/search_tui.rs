//! The interactive list of search results: its state, what keys do, and what is shown.

use vstd::prelude::*;
use vstd::string::StringExecFns;
use vstd::utf8::encode_utf8;
use crate::bytes::{find_bytes, first_bytes};
use crate::commands::common::{push_text, sentence};
use crate::commands::picker::{
    all_rows, first_row, last_row, law_moves_undo, law_picked, lemma_all_picked, matches_words, moved, next_row, picked,
    text_matches, KeyCode, KeyEvent, ListState,
};
use crate::commands::skill_preview::{
    build_skill_content_lines, content_lines, field, field_line, parse_skill_frontmatter,
    preview_of, push_rule, PreviewContent, PREVIEW_HR,
};
use crate::commands::styled::{
    append_lines, append_spans, bold_colored, bold_style, colored, line_views, no_style, push_line,
    push_span, raw, span_views, styled, underlined_colored, Color, Line, Span, SpanView, Style,
};
use crate::commands::text_map::{last_of, TextMap};
use crate::lines::{lines, plain_lines};
use crate::numbers::{decimal, number, size_number};
use crate::registry::{RegistryId, SearchResult};
use crate::text::{ascii_only, lowercase, opt_text, slice_string, texts, to_chars};

verus! {

// ---------------------------------------------------------------------------
// State
// ---------------------------------------------------------------------------

/// The verdict of a security audit.
#[derive(Debug, PartialEq, Eq)]
pub struct SecurityAudit {
    pub provider: String,
    pub passed: bool,
}

/// How far the audits of a skill are fetched.
#[derive(Debug)]
pub enum AuditState {
    Loading,
    Loaded(Vec<SecurityAudit>),
    Failed,
}

/// How far the preview of a skill is fetched.
#[derive(Debug)]
pub enum SkillPreviewState {
    /// It is being fetched.
    Loading,
    /// It is there.
    Loaded(PreviewContent),
    /// There is nothing to fetch.
    NotAvailable,
    /// It could not be fetched.
    Failed,
}

/// The state of the list.
pub struct App<'a> {
    /// All results.
    pub items: &'a Vec<SearchResult>,
    /// The positions of the results that match the filter.
    pub filtered: Vec<usize>,
    /// The filter.
    pub filter: String,
    /// The highlighted row.
    pub list_state: ListState,
    /// Whether the highlighted result was chosen.
    pub confirmed: bool,
    /// Whether the user gave up.
    pub cancelled: bool,
    /// How many results there are in all.
    pub total: usize,
    /// The audits that were fetched, by the page of the skill.
    pub audit_cache: TextMap<AuditState>,
    /// The previews that were fetched, by the page of the skill.
    pub skill_preview_cache: TextMap<SkillPreviewState>,
}

/// What keys change.
pub struct AppView {
    pub filtered: Seq<usize>,
    pub filter: Seq<char>,
    pub row: Option<usize>,
    pub confirmed: bool,
    pub cancelled: bool,
}

/// The text of a result in which the words of a filter are looked for.
pub open spec fn haystack(item: SearchResult) -> Seq<char> {
    item.name@ + " "@ + item.owner@ + " "@ + (match item.description {
        Some(d) => d@,
        None => Seq::empty(),
    }) + " "@ + item.registry.word()
}

/// Whether a result matches a query.
pub open spec fn item_matches(item: SearchResult, query: Seq<char>) -> bool {
    matches_words(lowercase(haystack(item)), query)
}

/// Which results match a query.
pub open spec fn match_flags(items: Seq<SearchResult>, query: Seq<char>) -> Seq<bool> {
    items.map_values(|i: SearchResult| item_matches(i, query))
}

/// The positions of the results that match a filter, whatever the case; all where it is empty.
pub open spec fn shown_rows(items: Seq<SearchResult>, filter: Seq<char>) -> Seq<usize> {
    if filter.len() == 0 {
        all_rows(items.len())
    } else {
        picked(match_flags(items, lowercase(filter)))
    }
}

/// The state with another filter: the first match is highlighted.
pub open spec fn refiltered(items: Seq<SearchResult>, s: AppView, filter: Seq<char>) -> AppView {
    let rows = shown_rows(items, filter);
    AppView { filtered: rows, filter, row: first_row(rows.len()), ..s }
}

/// The position of the highlighted result.
pub open spec fn highlighted(items: Seq<SearchResult>, s: AppView) -> Option<int> {
    match s.row {
        Some(r) => if r < s.filtered.len() && s.filtered[r as int] < items.len() {
            Some(s.filtered[r as int] as int)
        } else {
            None
        },
        None => None,
    }
}

/// The state after a key. Letters move or leave while the filter is empty, and are typed into it
/// otherwise.
pub open spec fn after_key(items: Seq<SearchResult>, s: AppView, key: KeyEvent) -> AppView {
    let idle = s.filter.len() == 0;
    let n = s.filtered.len();
    match key.code {
        KeyCode::Esc => AppView { cancelled: true, ..s },
        KeyCode::Enter => if highlighted(items, s) is Some {
            AppView { confirmed: true, ..s }
        } else {
            s
        },
        KeyCode::Up => if idle {
            AppView { row: moved(s.row, n, -1), ..s }
        } else {
            s
        },
        KeyCode::Down => if idle {
            AppView { row: moved(s.row, n, 1), ..s }
        } else {
            s
        },
        KeyCode::Home => if idle && n > 0 {
            AppView { row: Some(0), ..s }
        } else {
            s
        },
        KeyCode::End => if idle && n > 0 {
            AppView { row: last_row(n), ..s }
        } else {
            s
        },
        KeyCode::Backspace => refiltered(
            items,
            s,
            if s.filter.len() == 0 {
                s.filter
            } else {
                s.filter.drop_last()
            },
        ),
        KeyCode::Char(c) => if c == 'q' && idle {
            AppView { cancelled: true, ..s }
        } else if c == 'c' && key.control {
            AppView { cancelled: true, ..s }
        } else if c == 'k' && idle {
            AppView { row: moved(s.row, n, -1), ..s }
        } else if c == 'j' && idle {
            AppView { row: moved(s.row, n, 1), ..s }
        } else if c == 'g' && idle {
            if n > 0 {
                AppView { row: Some(0), ..s }
            } else {
                s
            }
        } else if c == 'G' && idle {
            if n > 0 {
                AppView { row: last_row(n), ..s }
            } else {
                s
            }
        } else {
            refiltered(items, s, s.filter.push(c))
        },
        _ => s,
    }
}

/// Whether a state is one that the list can be in: the rows are those that match the filter, and a
/// row is highlighted where there is one.
pub open spec fn valid_state(items: Seq<SearchResult>, s: AppView) -> bool {
    &&& s.filtered == shown_rows(items, s.filter)
    &&& match s.row {
        Some(r) => r < s.filtered.len(),
        None => s.filtered.len() == 0,
    }
}

/// Keys keep the state valid: the rows always are those that match the filter, and where there is a
/// row, one is highlighted.
pub proof fn law_keys_keep_state(items: Seq<SearchResult>, s: AppView, key: KeyEvent)
    requires
        items.len() <= usize::MAX,
        valid_state(items, s),
    ensures
        valid_state(items, after_key(items, s, key)),
{
    lemma_rows_fit(items, s.filter);
    let n = s.filtered.len();
    if n > 0 {
        let r = s.row->Some_0;
        law_moves_undo(r, n, 1);
        law_moves_undo(r, n, -1);
    }
}

/// What is confirmed is a result: where a row is highlighted its position is that of one.
pub proof fn law_highlighted_is_a_result(items: Seq<SearchResult>, s: AppView)
    requires
        items.len() <= usize::MAX,
        valid_state(items, s),
        s.row is Some,
    ensures
        highlighted(items, s) matches Some(i) && 0 <= i < items.len(),
        s.filter.len() > 0 ==> item_matches(
            items[highlighted(items, s)->Some_0],
            lowercase(s.filter),
        ),
{
    lemma_rows_fit(items, s.filter);
    if s.filter.len() > 0 {
        let flags = match_flags(items, lowercase(s.filter));
        law_picked(flags);
        let r = s.row->Some_0 as int;
        assert(flags[picked(flags)[r] as int]);
    }
}

proof fn lemma_rows_fit(items: Seq<SearchResult>, filter: Seq<char>)
    requires
        items.len() <= usize::MAX,
    ensures
        shown_rows(items, filter).len() <= items.len(),
        forall|i: int|
            0 <= i < shown_rows(items, filter).len() ==> (#[trigger] shown_rows(items, filter)[i])
                < items.len(),
{
    if filter.len() > 0 {
        let flags = match_flags(items, lowercase(filter));
        law_picked(flags);
        lemma_picked_len(flags);
    }
}

proof fn lemma_picked_len(flags: Seq<bool>)
    ensures
        picked(flags).len() <= flags.len(),
    decreases flags.len(),
{
    if flags.len() > 0 {
        lemma_picked_len(flags.drop_last());
    }
}

/// Whether a result matches a query.
pub fn item_matches_query(item: &SearchResult, query: &str) -> (r: bool)
    ensures
        r == item_matches(*item, query@),
{
    if query.is_empty() {
        return true;
    }
    let mut s: String = item.name.clone();
    s.append(" ");
    s.append(&item.owner);
    s.append(" ");
    let ghost before = s@;
    if let Some(d) = &item.description {
        s.append(d);
    } else {
        assert(s@ =~= before + Seq::<char>::empty());
    }
    s.append(" ");
    s.append(item.registry.as_str());
    let text = s.as_str().to_lowercase();
    text_matches(&text, query)
}

/// A text without its last character.
pub fn without_last(s: &str) -> (r: String)
    ensures
        r@ == (if s@.len() == 0 {
            s@
        } else {
            s@.drop_last()
        }),
{
    let v = to_chars(s);
    if v.len() == 0 {
        return String::new();
    }
    let r = slice_string(&v, 0, v.len() - 1);
    assert(r@ =~= s@.drop_last());
    r
}

impl<'a> App<'a> {
    /// What keys change.
    pub open spec fn state(&self) -> AppView {
        AppView {
            filtered: self.filtered@,
            filter: self.filter@,
            row: self.list_state.row,
            confirmed: self.confirmed,
            cancelled: self.cancelled,
        }
    }

    /// Whether all that keys do not change is as in another state.
    pub open spec fn same_data(&self, other: &App<'a>) -> bool {
        &&& self.items == other.items
        &&& self.total == other.total
        &&& self.audit_cache == other.audit_cache
        &&& self.skill_preview_cache == other.skill_preview_cache
    }

    /// The list of all results, with the first one highlighted.
    pub fn new(items: &'a Vec<SearchResult>, total: usize) -> (r: Self)
        ensures
            valid_state(items@, r.state()),
            r.filter@.len() == 0,
            !r.confirmed && !r.cancelled,
            r.items == items,
            r.total == total,
            forall|k: Seq<char>| #[trigger] r.audit_cache.at(k) is None,
            forall|k: Seq<char>| #[trigger] r.skill_preview_cache.at(k) is None,
    {
        let mut filtered: Vec<usize> = Vec::new();
        let mut i: usize = 0;
        while i < items.len()
            invariant
                i <= items@.len(),
                filtered@ == all_rows(i as nat),
            decreases items@.len() - i,
        {
            filtered.push(i);
            i += 1;
            assert(filtered@ =~= all_rows(i as nat));
        }
        let list_state = ListState::first_of(filtered.len());
        App {
            items,
            filtered,
            filter: String::new(),
            list_state,
            confirmed: false,
            cancelled: false,
            total,
            audit_cache: TextMap::new(),
            skill_preview_cache: TextMap::new(),
        }
    }

    /// The position of the highlighted result.
    pub fn resolve_selection(&self) -> (r: Option<usize>)
        ensures
            match self.list_state.row {
                Some(i) if i < self.filtered@.len() => r == Some(self.filtered@[i as int]),
                _ => r is None,
            },
    {
        match self.list_state.row {
            Some(i) => if i < self.filtered.len() {
                Some(self.filtered[i])
            } else {
                None
            },
            None => None,
        }
    }

    /// The highlighted result.
    pub fn selected(&self) -> (r: Option<&'a SearchResult>)
        ensures
            match highlighted(self.items@, self.state()) {
                Some(i) => r matches Some(x) && *x == self.items@[i],
                None => r is None,
            },
    {
        match self.resolve_selection() {
            Some(i) => if i < self.items.len() {
                Some(&self.items[i])
            } else {
                None
            },
            None => None,
        }
    }

    /// Shows what matches the filter, with the first match highlighted.
    pub fn refilter(&mut self)
        ensures
            final(self).state() == refiltered(
                old(self).items@,
                old(self).state(),
                old(self).filter@,
            ),
            final(self).same_data(old(self)),
    {
        let query = self.filter.as_str().to_lowercase();
        let items = self.items;
        let ghost flags = match_flags(items@, query@);
        let mut filtered: Vec<usize> = Vec::new();
        let mut i: usize = 0;
        assert(filtered@ =~= picked(flags.take(0)));
        while i < items.len()
            invariant
                flags == match_flags(items@, query@),
                i <= items@.len(),
                filtered@ == picked(flags.take(i as int)),
            decreases items@.len() - i,
        {
            assert(flags.take(i + 1).drop_last() =~= flags.take(i as int));
            assert(flags.take(i + 1).last() == item_matches(items@[i as int], query@));
            if item_matches_query(&items[i], &query) {
                filtered.push(i);
            }
            i += 1;
        }
        assert(flags.take(i as int) =~= flags);
        proof {
            if self.filter@.len() == 0 {
                assert(ascii_only(self.filter@));
                assert(query@.len() == 0);
                lemma_all_picked(flags);
            }
        }
        self.list_state = ListState::first_of(filtered.len());
        self.filtered = filtered;
    }

    /// Whether the list is to be left.
    pub fn should_quit(&self) -> (r: bool)
        ensures
            r == (self.confirmed || self.cancelled),
    {
        self.confirmed || self.cancelled
    }
}

// ---------------------------------------------------------------------------
// Keys
// ---------------------------------------------------------------------------

/// Does what a key asks for.
pub fn handle_key(app: &mut App<'_>, key: KeyEvent)
    ensures
        final(app).state() == after_key(old(app).items@, old(app).state(), key),
        final(app).same_data(old(app)),
{
    let idle = app.filter.as_str().is_empty();
    match key.code {
        KeyCode::Esc => {
            app.cancelled = true;
        },
        KeyCode::Enter => {
            handle_key_enter(app);
        },
        KeyCode::Up => {
            if idle {
                move_selection(app, -1);
            }
        },
        KeyCode::Down => {
            if idle {
                move_selection(app, 1);
            }
        },
        KeyCode::Home => {
            if idle {
                handle_key_jump_top(app);
            }
        },
        KeyCode::End => {
            if idle {
                handle_key_jump_bottom(app);
            }
        },
        KeyCode::Backspace => {
            app.filter = without_last(&app.filter);
            app.refilter();
        },
        KeyCode::Char(c) => {
            if c == 'q' && idle {
                app.cancelled = true;
            } else if c == 'c' && key.control {
                app.cancelled = true;
            } else if c == 'k' && idle {
                move_selection(app, -1);
            } else if c == 'j' && idle {
                move_selection(app, 1);
            } else if c == 'g' && idle {
                handle_key_jump_top(app);
            } else if c == 'G' && idle {
                handle_key_jump_bottom(app);
            } else {
                app.filter.push(c);
                app.refilter();
            }
        },
        _ => {},
    }
}

/// Chooses the highlighted result.
fn handle_key_enter(app: &mut App<'_>)
    ensures
        final(app).state() == (if highlighted(old(app).items@, old(app).state()) is Some {
            AppView { confirmed: true, ..old(app).state() }
        } else {
            old(app).state()
        }),
        final(app).same_data(old(app)),
{
    if app.selected().is_some() {
        app.confirmed = true;
    }
}

/// Highlights the first row.
pub fn handle_key_jump_top(app: &mut App<'_>)
    ensures
        final(app).state() == (if old(app).filtered@.len() > 0 {
            AppView { row: Some(0), ..old(app).state() }
        } else {
            old(app).state()
        }),
        final(app).same_data(old(app)),
{
    if app.filtered.len() > 0 {
        app.list_state = ListState { row: Some(0) };
    }
}

/// Highlights the last row.
pub fn handle_key_jump_bottom(app: &mut App<'_>)
    ensures
        final(app).state() == (if old(app).filtered@.len() > 0 {
            AppView { row: last_row(old(app).filtered@.len()), ..old(app).state() }
        } else {
            old(app).state()
        }),
        final(app).same_data(old(app)),
{
    if app.filtered.len() > 0 {
        app.list_state = ListState { row: Some(app.filtered.len() - 1) };
    }
}

/// Moves the highlight by `delta` rows, round the ends.
pub fn move_selection(app: &mut App<'_>, delta: i32)
    ensures
        final(app).state() == (AppView {
            row: moved(old(app).list_state.row, old(app).filtered@.len(), delta as int),
            ..old(app).state()
        }),
        final(app).same_data(old(app)),
{
    app.list_state = ListState { row: next_row(app.list_state.row, app.filtered.len(), delta) };
}

// ---------------------------------------------------------------------------
// Fetching in the background
// ---------------------------------------------------------------------------

/// The pages whose audits have to be fetched: those of the rows whose registry shows audits, unless
/// they were asked for already.
pub open spec fn wanted_audits(
    items: Seq<SearchResult>,
    rows: Seq<usize>,
    cache: TextMap<AuditState>,
) -> Seq<Seq<char>>
    decreases rows.len(),
{
    if rows.len() == 0 {
        Seq::empty()
    } else {
        let init = wanted_audits(items, rows.drop_last(), cache);
        let i = rows.last() as int;
        if i < items.len() && items[i].registry.audits() && cache.at(items[i].url@) is None {
            init.push(items[i].url@)
        } else {
            init
        }
    }
}

impl<'a> App<'a> {
    /// The pages whose audits have to be fetched now; they count as being fetched from now on.
    pub fn maybe_fetch_audits(&mut self) -> (r: Vec<String>)
        ensures
            texts(r@) == wanted_audits(old(self).items@, old(self).filtered@, old(self).audit_cache),
            forall|k: Seq<char>| #[trigger]
                final(self).audit_cache.at(k) == (if texts(r@).contains(k) {
                    Some(AuditState::Loading)
                } else {
                    old(self).audit_cache.at(k)
                }),
            final(self).state() == old(self).state(),
            final(self).items == old(self).items,
            final(self).total == old(self).total,
            final(self).skill_preview_cache == old(self).skill_preview_cache,
    {
        let items = self.items;
        let ghost rows = self.filtered@;
        let ghost cache = self.audit_cache;
        let mut urls: Vec<String> = Vec::new();
        let mut i: usize = 0;
        assert(texts(urls@) =~= wanted_audits(items@, rows.take(0), cache));
        while i < self.filtered.len()
            invariant
                items == self.items,
                rows == self.filtered@,
                cache == self.audit_cache,
                i <= rows.len(),
                texts(urls@) == wanted_audits(items@, rows.take(i as int), cache),
            decreases rows.len() - i,
        {
            assert(rows.take(i + 1).drop_last() =~= rows.take(i as int));
            assert(rows.take(i + 1).last() == rows[i as int]);
            let idx: usize = self.filtered[i];
            if idx < items.len() && items[idx].registry.has_security_audits()
                && !self.audit_cache.contains_key(&items[idx].url) {
                push_text(&mut urls, &items[idx].url);
            }
            i += 1;
        }
        assert(rows.take(i as int) =~= rows);
        let ghost us = texts(urls@);
        let mut j: usize = 0;
        while j < urls.len()
            invariant
                us == texts(urls@),
                j <= urls@.len(),
                forall|k: Seq<char>| #[trigger]
                    self.audit_cache.at(k) == (if us.take(j as int).contains(k) {
                        Some(AuditState::Loading)
                    } else {
                        cache.at(k)
                    }),
                self.state() == old(self).state(),
                self.items == old(self).items,
                self.total == old(self).total,
                self.skill_preview_cache == old(self).skill_preview_cache,
            decreases urls@.len() - j,
        {
            let ghost before = us.take(j as int);
            let ghost url = urls@[j as int]@;
            self.audit_cache.insert(urls[j].clone(), AuditState::Loading);
            proof {
                let after = us.take(j + 1);
                assert(after =~= before.push(url));
                assert forall|k: Seq<char>| after.contains(k) == (before.contains(k) || k == url) by {
                    if before.contains(k) {
                        let p = choose|p: int| 0 <= p < before.len() && before[p] == k;
                        assert(after[p] == k);
                    }
                    if k == url {
                        assert(after[j as int] == k);
                    }
                }
            }
            j += 1;
        }
        assert(us.take(j as int) =~= us);
        urls
    }

    /// Takes the audits that were fetched.
    pub fn poll_audits(&mut self, done: Vec<(String, AuditState)>)
        ensures
            forall|k: Seq<char>| #[trigger]
                final(self).audit_cache.at(k) == (match last_of(done@, k) {
                    Some(v) => Some(v),
                    None => old(self).audit_cache.at(k),
                }),
            final(self).state() == old(self).state(),
            final(self).items == old(self).items,
            final(self).total == old(self).total,
            final(self).skill_preview_cache == old(self).skill_preview_cache,
    {
        self.audit_cache.extend(done);
    }

    /// The result whose preview has to be fetched now: the highlighted one, unless it was asked for
    /// already. It counts as being fetched from now on.
    pub fn maybe_fetch_skill_preview(&mut self) -> (r: Option<&'a SearchResult>)
        ensures
            match highlighted(old(self).items@, old(self).state()) {
                Some(i) => if old(self).skill_preview_cache.at(old(self).items@[i].url@) is None {
                    &&& r matches Some(x) && *x == old(self).items@[i]
                    &&& final(self).skill_preview_cache.at(old(self).items@[i].url@) == Some(
                        SkillPreviewState::Loading,
                    )
                    &&& forall|k: Seq<char>|
                        k != old(self).items@[i].url@
                            ==> #[trigger] final(self).skill_preview_cache.at(k)
                            == old(self).skill_preview_cache.at(k)
                } else {
                    r is None && final(self).skill_preview_cache == old(self).skill_preview_cache
                },
                None => r is None
                    && final(self).skill_preview_cache == old(self).skill_preview_cache,
            },
            final(self).state() == old(self).state(),
            final(self).items == old(self).items,
            final(self).total == old(self).total,
            final(self).audit_cache == old(self).audit_cache,
    {
        match self.selected() {
            Some(item) => {
                if self.skill_preview_cache.contains_key(&item.url) {
                    return None;
                }
                self.skill_preview_cache.insert(item.url.clone(), SkillPreviewState::Loading);
                Some(item)
            },
            None => None,
        }
    }

    /// Takes the previews that were fetched.
    pub fn poll_skill_previews(&mut self, done: Vec<(String, SkillPreviewState)>)
        ensures
            forall|k: Seq<char>| #[trigger]
                final(self).skill_preview_cache.at(k) == (match last_of(done@, k) {
                    Some(v) => Some(v),
                    None => old(self).skill_preview_cache.at(k),
                }),
            final(self).state() == old(self).state(),
            final(self).items == old(self).items,
            final(self).total == old(self).total,
            final(self).audit_cache == old(self).audit_cache,
    {
        self.skill_preview_cache.extend(done);
    }
}

/// The preview of a result, by what was fetched of it.
pub fn fetch_skill_preview_for_item(content: Option<String>) -> (r: SkillPreviewState)
    ensures
        match content {
            Some(c) => r matches SkillPreviewState::Loaded(p) && p@ == preview_of(c@),
            None => r is NotAvailable,
        },
{
    match content {
        Some(c) => SkillPreviewState::Loaded(parse_skill_frontmatter(&c)),
        None => SkillPreviewState::NotAvailable,
    }
}

// ---------------------------------------------------------------------------
// Audits on a page
// ---------------------------------------------------------------------------

/// How many bytes of a page are looked at for a verdict.
pub const AUDIT_WINDOW: usize = 500;

/// The verdict of a provider on a page: the first of `>Pass<` and `>Fail<` within the bytes that
/// start at the link to the provider's audit; `None` where there is no link or no verdict.
pub open spec fn verdict(page: Seq<u8>, slug: Seq<char>) -> Option<bool> {
    match first_bytes(page, encode_utf8("security/"@ + slug + "\">"@), 0) {
        None => None,
        Some(pos) => {
            let end = if pos + AUDIT_WINDOW < page.len() {
                pos + AUDIT_WINDOW
            } else {
                page.len() as int
            };
            let window = page.subrange(pos, end);
            match (
                first_bytes(window, encode_utf8(">Pass<"@), 0),
                first_bytes(window, encode_utf8(">Fail<"@), 0),
            ) {
                (Some(p), Some(f)) => Some(p < f),
                (Some(_), None) => Some(true),
                (None, Some(_)) => Some(false),
                (None, None) => None,
            }
        },
    }
}

fn find_verdict(page: &str, slug: &str) -> (r: Option<bool>)
    ensures
        r == verdict(encode_utf8(page@), slug@),
{
    let marker = sentence("security/", slug, "\">");
    let bytes = page.as_bytes();
    let pos: usize = match find_bytes(bytes, marker.as_str().as_bytes()) {
        None => {
            return None;
        },
        Some(p) => p,
    };
    let n: usize = bytes.len();
    let end: usize = if n - pos > AUDIT_WINDOW {
        pos + AUDIT_WINDOW
    } else {
        n
    };
    let window = vstd::slice::slice_subrange(bytes, pos, end);
    let pass = find_bytes(window, ">Pass<".as_bytes());
    let fail = find_bytes(window, ">Fail<".as_bytes());
    match (pass, fail) {
        (Some(p), Some(f)) => Some(p < f),
        (Some(_), None) => Some(true),
        (None, Some(_)) => Some(false),
        (None, None) => None,
    }
}

/// An audit as a value of texts.
pub open spec fn audit_view(a: SecurityAudit) -> (Seq<char>, bool) {
    (a.provider@, a.passed)
}

/// The contents of a list of audits.
pub open spec fn audit_views(v: Seq<SecurityAudit>) -> Seq<(Seq<char>, bool)> {
    v.map_values(|a: SecurityAudit| audit_view(a))
}

/// The audit of a provider on a page, where there is one.
pub open spec fn audit_of(page: Seq<u8>, provider: Seq<char>, slug: Seq<char>) -> Seq<
    (Seq<char>, bool),
> {
    match verdict(page, slug) {
        Some(passed) => seq![(provider, passed)],
        None => Seq::empty(),
    }
}

/// The audits on a page.
pub open spec fn audits_on(page: Seq<u8>) -> Seq<(Seq<char>, bool)> {
    audit_of(page, "Agent Trust Hub"@, "agent-trust-hub"@) + audit_of(page, "Socket"@, "socket"@)
        + audit_of(page, "Snyk"@, "snyk"@)
}

fn push_audit(out: &mut Vec<SecurityAudit>, page: &str, provider: &str, slug: &str)
    ensures
        audit_views(final(out)@) == audit_views(old(out)@) + audit_of(
            encode_utf8(page@),
            provider@,
            slug@,
        ),
{
    let ghost before = audit_views(out@);
    if let Some(passed) = find_verdict(page, slug) {
        out.push(SecurityAudit { provider: provider.to_owned(), passed });
    }
    assert(audit_views(out@) =~= before + audit_of(encode_utf8(page@), provider@, slug@));
}

/// Reads the verdicts of the known providers off the page of a skill at skills.sh.
pub fn parse_skillssh_audits(html: &str) -> (r: Vec<SecurityAudit>)
    ensures
        audit_views(r@) == audits_on(encode_utf8(html@)),
{
    let mut audits: Vec<SecurityAudit> = Vec::new();
    assert(audit_views(audits@) =~= Seq::empty());
    push_audit(&mut audits, html, "Agent Trust Hub", "agent-trust-hub");
    push_audit(&mut audits, html, "Socket", "socket");
    push_audit(&mut audits, html, "Snyk", "snyk");
    assert(audit_views(audits@) =~= audits_on(encode_utf8(html@)));
    audits
}

// ---------------------------------------------------------------------------
// What is shown
// ---------------------------------------------------------------------------

/// The line above the list: the filter, and how many results are shown.
pub open spec fn status_bar(app: App<'_>) -> Seq<SpanView> {
    let shown = " "@ + decimal(app.filtered@.len()) + "/"@ + decimal(app.items@.len());
    seq![
        styled(
            if app.filter@.len() == 0 {
                " type to filter, Enter to select, Esc to cancel"@
            } else {
                " filter: "@ + app.filter@ + "_"@
            },
            colored(Color::Yellow),
        ),
        raw("  "@),
        styled(
            if app.total > app.items@.len() {
                shown + " (of "@ + decimal(app.total as nat) + " total) "@
            } else {
                shown + " "@
            },
            colored(Color::DarkGray),
        ),
    ]
}

/// The line above the list.
pub fn draw_status_bar(app: &App<'_>) -> (r: Line)
    ensures
        r@ == status_bar(*app),
{
    let filter_display = if app.filter.as_str().is_empty() {
        String::from_str(" type to filter, Enter to select, Esc to cancel")
    } else {
        sentence(" filter: ", &app.filter, "_")
    };
    let shown = size_number(app.filtered.len());
    let all = size_number(app.items.len());
    let mut count = sentence(" ", &shown, "/");
    count.append(&all);
    if app.total > app.items.len() {
        let total = size_number(app.total);
        count.append(" (of ");
        count.append(&total);
        count.append(" total) ");
    } else {
        count.append(" ");
    }
    let mut spans: Vec<Span> = Vec::new();
    spans.push(Span::styled(&filter_display, Style::fg(Color::Yellow)));
    spans.push(Span::raw("  "));
    spans.push(Span::styled(&count, Style::fg(Color::DarkGray)));
    let r = Line { spans };
    assert(r@ =~= status_bar(*app));
    r
}

/// The color of a registry.
pub open spec fn color_of_registry(registry: RegistryId) -> Color {
    match registry {
        RegistryId::AgentskillSh => Color::Magenta,
        RegistryId::SkillsSh => Color::Cyan,
        RegistryId::SkillhubClub => Color::Green,
    }
}

/// The color of a registry.
pub fn registry_color(registry: RegistryId) -> (r: Color)
    ensures
        r == color_of_registry(registry),
{
    match registry {
        RegistryId::AgentskillSh => Color::Magenta,
        RegistryId::SkillsSh => Color::Cyan,
        RegistryId::SkillhubClub => Color::Green,
    }
}

/// The color of a security score: green from 80 to 100, yellow from 50, and else red.
pub open spec fn color_of_score(score: u8) -> Color {
    if 80 <= score <= 100 {
        Color::Green
    } else if 50 <= score < 80 {
        Color::Yellow
    } else {
        Color::Red
    }
}

/// The color of a security score.
pub fn score_color(score: u8) -> (r: Color)
    ensures
        r == color_of_score(score),
{
    if 80 <= score && score <= 100 {
        Color::Green
    } else if 50 <= score && score < 80 {
        Color::Yellow
    } else {
        Color::Red
    }
}

/// Whether there is an audit and all passed.
pub open spec fn all_passed(audits: Seq<SecurityAudit>) -> bool {
    audits.len() > 0 && forall|i: int| 0 <= i < audits.len() ==> (#[trigger] audits[i]).passed
}

/// The mark of a verdict on all audits.
pub open spec fn shield(passed: bool) -> SpanView {
    if passed {
        styled("\u{1f6e1} \u{2713}"@, colored(Color::Green))
    } else {
        styled("\u{1f6e1} \u{2717}"@, colored(Color::Red))
    }
}

/// What a row shows of the security of a result: its score, or else the verdict of its audits.
pub open spec fn security_spans(item: SearchResult, audits: Option<AuditState>) -> Seq<SpanView> {
    match item.security_score {
        Some(score) => seq![
            raw("  "@),
            styled("\u{1f6e1} "@ + decimal(score as nat), colored(color_of_score(score))),
        ],
        None => match audits {
            Some(AuditState::Loaded(a)) => seq![raw("  "@), shield(all_passed(a@))],
            _ => Seq::empty(),
        },
    }
}

/// What a row shows of the security of a result.
pub fn build_list_item_audit_spans(item: &SearchResult, audits: Option<&AuditState>) -> (r: Vec<
    Span,
>)
    ensures
        span_views(r@) == security_spans(
            *item,
            match audits {
                Some(a) => Some(*a),
                None => None,
            },
        ),
{
    let mut spans: Vec<Span> = Vec::new();
    assert(span_views(spans@) =~= Seq::empty());
    if let Some(score) = item.security_score {
        let mut s: String = String::from_str("\u{1f6e1} ");
        let d = number(score as u64);
        s.append(&d);
        push_span(&mut spans, Span::raw("  "));
        push_span(&mut spans, Span::styled(&s, Style::fg(score_color(score))));
    } else if let Some(AuditState::Loaded(a)) = audits {
        let passed = check_all_passed(a);
        let (icon, color) = audit_pass_fail_icon(passed);
        push_span(&mut spans, Span::raw("  "));
        push_span(&mut spans, Span::styled(icon, Style::fg(color)));
    }
    assert(span_views(spans@) =~= security_spans(
        *item,
        match audits {
            Some(a) => Some(*a),
            None => None,
        },
    ));
    spans
}

fn check_all_passed(audits: &Vec<SecurityAudit>) -> (r: bool)
    ensures
        r == all_passed(audits@),
{
    if audits.len() == 0 {
        return false;
    }
    let mut i: usize = 0;
    while i < audits.len()
        invariant
            i <= audits@.len(),
            forall|j: int| 0 <= j < i ==> (#[trigger] audits@[j]).passed,
        decreases audits@.len() - i,
    {
        if !audits[i].passed {
            return false;
        }
        i += 1;
    }
    true
}

/// The mark and the color of a verdict on all audits.
pub fn audit_pass_fail_icon(passed: bool) -> (r: (&'static str, Color))
    ensures
        styled(r.0@, colored(r.1)) == shield(passed),
{
    if passed {
        ("\u{1f6e1} \u{2713}", Color::Green)
    } else {
        ("\u{1f6e1} \u{2717}", Color::Red)
    }
}

/// The row of a result.
pub open spec fn list_line(item: SearchResult, audits: Option<AuditState>) -> Seq<SpanView> {
    seq![
        styled(item.name@, bold_style()),
        styled(
            match item.stars {
                Some(n) => "  \u{2605}"@ + decimal(n as nat),
                None => ""@,
            },
            colored(Color::Yellow),
        ),
    ] + security_spans(item, audits) + seq![
        raw("  "@),
        styled(item.registry.word(), colored(color_of_registry(item.registry))),
    ]
}

fn build_list_line(item: &SearchResult, audits: Option<&AuditState>) -> (r: Line)
    ensures
        r@ == list_line(
            *item,
            match audits {
                Some(a) => Some(*a),
                None => None,
            },
        ),
{
    let stars_text = match item.stars {
        Some(n) => {
            let mut s: String = String::from_str("  \u{2605}");
            let d = number(n);
            s.append(&d);
            s
        },
        None => String::from_str(""),
    };
    let mut spans: Vec<Span> = Vec::new();
    assert(span_views(spans@) =~= Seq::empty());
    push_span(&mut spans, Span::styled(&item.name, Style::bold()));
    push_span(&mut spans, Span::styled(&stars_text, Style::fg(Color::Yellow)));
    append_spans(&mut spans, build_list_item_audit_spans(item, audits));
    push_span(&mut spans, Span::raw("  "));
    push_span(
        &mut spans,
        Span::styled(item.registry.as_str(), Style::fg(registry_color(item.registry))),
    );
    let r = Line { spans };
    assert(r@ =~= list_line(
        *item,
        match audits {
            Some(a) => Some(*a),
            None => None,
        },
    ));
    r
}

/// The rows of the list.
pub open spec fn list_lines(
    items: Seq<SearchResult>,
    rows: Seq<usize>,
    cache: TextMap<AuditState>,
) -> Seq<Seq<SpanView>>
    decreases rows.len(),
{
    if rows.len() == 0 {
        Seq::empty()
    } else {
        let init = list_lines(items, rows.drop_last(), cache);
        let i = rows.last() as int;
        if i < items.len() {
            init.push(list_line(items[i], cache.at(items[i].url@)))
        } else {
            init
        }
    }
}

/// The rows of the list.
pub fn draw_list(app: &App<'_>) -> (r: Vec<Line>)
    ensures
        line_views(r@) == list_lines(app.items@, app.filtered@, app.audit_cache),
{
    let ghost items = app.items@;
    let ghost rows = app.filtered@;
    let ghost cache = app.audit_cache;
    let mut out: Vec<Line> = Vec::new();
    let mut i: usize = 0;
    assert(line_views(out@) =~= list_lines(items, rows.take(0), cache));
    while i < app.filtered.len()
        invariant
            items == app.items@,
            rows == app.filtered@,
            cache == app.audit_cache,
            i <= rows.len(),
            line_views(out@) == list_lines(items, rows.take(i as int), cache),
        decreases rows.len() - i,
    {
        assert(rows.take(i + 1).drop_last() =~= rows.take(i as int));
        assert(rows.take(i + 1).last() == rows[i as int]);
        let idx: usize = app.filtered[i];
        if idx < app.items.len() {
            let item = &app.items[idx];
            let line = build_list_line(item, app.audit_cache.get(&item.url));
            push_line(&mut out, line);
        }
        i += 1;
    }
    assert(rows.take(i as int) =~= rows);
    out
}

/// The verdict of a provider.
pub open spec fn provider_span(a: SecurityAudit) -> SpanView {
    if a.passed {
        styled("\u{2713} "@ + a.provider@, colored(Color::Green))
    } else {
        styled("\u{2717} "@ + a.provider@, colored(Color::Red))
    }
}

/// The verdicts of providers, with a bar between them.
pub open spec fn provider_spans(audits: Seq<SecurityAudit>) -> Seq<SpanView>
    decreases audits.len(),
{
    if audits.len() == 0 {
        Seq::empty()
    } else {
        let init = provider_spans(audits.drop_last());
        (if audits.len() == 1 {
            init
        } else {
            init.push(styled(" | "@, colored(Color::DarkGray)))
        }).push(provider_span(audits.last()))
    }
}

/// The label of the audits.
pub open spec fn audits_label() -> SpanView {
    styled("Audits:         "@, colored(Color::DarkGray))
}

/// The line of the audits of a result, where its registry shows audits and they were asked for.
pub open spec fn audit_lines(registry: RegistryId, state: Option<AuditState>) -> Seq<
    Seq<SpanView>,
> {
    if !registry.audits() {
        Seq::empty()
    } else {
        match state {
            Some(AuditState::Loaded(a)) => if a@.len() > 0 {
                seq![seq![audits_label()] + provider_spans(a@)]
            } else {
                Seq::empty()
            },
            Some(AuditState::Loading) => seq![
                seq![audits_label(), styled("loading..."@, colored(Color::DarkGray))],
            ],
            Some(AuditState::Failed) => seq![
                seq![audits_label(), styled("fetch failed"@, colored(Color::Red))],
            ],
            None => Seq::empty(),
        }
    }
}

fn build_single_audit_spans(audit: &SecurityAudit, is_first: bool) -> (r: Vec<Span>)
    ensures
        span_views(r@) == (if is_first {
            seq![provider_span(*audit)]
        } else {
            seq![styled(" | "@, colored(Color::DarkGray)), provider_span(*audit)]
        }),
{
    let mut spans: Vec<Span> = Vec::new();
    assert(span_views(spans@) =~= Seq::empty());
    if !is_first {
        push_span(&mut spans, Span::styled(" | ", Style::fg(Color::DarkGray)));
    }
    let (icon, color) = audit_provider_icon(audit.passed);
    let mut s: String = String::from_str(icon);
    s.append(&audit.provider);
    push_span(&mut spans, Span::styled(&s, Style::fg(color)));
    assert(span_views(spans@) =~= (if is_first {
        seq![provider_span(*audit)]
    } else {
        seq![styled(" | "@, colored(Color::DarkGray)), provider_span(*audit)]
    }));
    spans
}

/// The mark and the color of the verdict of a provider.
pub fn audit_provider_icon(passed: bool) -> (r: (&'static str, Color))
    ensures
        r.0@ == (if passed {
            "\u{2713} "@
        } else {
            "\u{2717} "@
        }),
        r.1 == (if passed {
            Color::Green
        } else {
            Color::Red
        }),
{
    if passed {
        ("\u{2713} ", Color::Green)
    } else {
        ("\u{2717} ", Color::Red)
    }
}

/// The line of the audits of a result.
pub fn build_audit_lines(registry: RegistryId, audit_state: Option<&AuditState>) -> (r: Vec<Line>)
    ensures
        line_views(r@) == audit_lines(
            registry,
            match audit_state {
                Some(a) => Some(*a),
                None => None,
            },
        ),
{
    let mut out: Vec<Line> = Vec::new();
    assert(line_views(out@) =~= Seq::empty());
    if !registry.has_security_audits() {
        return out;
    }
    let label = Span::styled("Audits:         ", Style::fg(Color::DarkGray));
    match audit_state {
        Some(AuditState::Loaded(audits)) => {
            if audits.len() > 0 {
                let ghost all = audits@;
                let mut spans: Vec<Span> = Vec::new();
                assert(span_views(spans@) =~= Seq::empty());
                push_span(&mut spans, label);
                let ghost start = span_views(spans@);
                let mut i: usize = 0;
                assert(start + provider_spans(all.take(0)) =~= start);
                while i < audits.len()
                    invariant
                        all == audits@,
                        i <= all.len(),
                        span_views(spans@) == start + provider_spans(all.take(i as int)),
                    decreases all.len() - i,
                {
                    assert(all.take(i + 1).drop_last() =~= all.take(i as int));
                    assert(all.take(i + 1).last() == all[i as int]);
                    append_spans(&mut spans, build_single_audit_spans(&audits[i], i == 0));
                    assert(span_views(spans@) =~= start + provider_spans(all.take(i + 1)));
                    i += 1;
                }
                assert(all.take(i as int) =~= all);
                assert(span_views(spans@) =~= seq![audits_label()] + provider_spans(all));
                push_line(&mut out, Line { spans });
            }
        },
        Some(AuditState::Loading) => {
            push_line(
                &mut out,
                Line::two(label, Span::styled("loading...", Style::fg(Color::DarkGray))),
            );
        },
        Some(AuditState::Failed) => {
            push_line(
                &mut out,
                Line::two(label, Span::styled("fetch failed", Style::fg(Color::Red))),
            );
        },
        None => {},
    }
    assert(line_views(out@) =~= audit_lines(
        registry,
        match audit_state {
            Some(a) => Some(*a),
            None => None,
        },
    ));
    out
}

/// The lines of the description of a result.
pub open spec fn description_lines(description: Option<Seq<char>>) -> Seq<Seq<SpanView>> {
    match description {
        Some(d) => seq![
            seq![raw(""@)],
            seq![styled("Description:"@, bold_colored(Color::DarkGray))],
            seq![raw(""@)],
        ] + lines(d).map_values(|l: Seq<char>| seq![raw(l)]),
        None => seq![
            seq![raw(""@)],
            seq![styled("No description available."@, colored(Color::DarkGray))],
        ],
    }
}

/// The lines of the description of a result.
pub fn build_description_lines(description: &Option<String>) -> (r: Vec<Line>)
    ensures
        line_views(r@) == description_lines(opt_text(*description)),
{
    let mut out: Vec<Line> = Vec::new();
    assert(line_views(out@) =~= Seq::empty());
    push_line(&mut out, Line::raw(""));
    if let Some(desc) = description {
        push_line(&mut out, Line::one(Span::styled("Description:", Style::bold_fg(Color::DarkGray))));
        push_line(&mut out, Line::raw(""));
        let all = plain_lines(desc);
        let ghost ls = texts(all@);
        let ghost shown = ls.map_values(|l: Seq<char>| seq![raw(l)]);
        let ghost start = line_views(out@);
        let mut i: usize = 0;
        assert(start + shown.take(0) =~= start);
        while i < all.len()
            invariant
                ls == texts(all@),
                shown == ls.map_values(|l: Seq<char>| seq![raw(l)]),
                i <= all@.len(),
                line_views(out@) == start + shown.take(i as int),
            decreases all@.len() - i,
        {
            let l = Line::raw(&all[i]);
            assert(start + shown.take(i + 1) =~= (start + shown.take(i as int)).push(l@));
            push_line(&mut out, l);
            i += 1;
        }
        assert(shown.take(i as int) =~= shown);
    } else {
        push_line(
            &mut out,
            Line::one(Span::styled("No description available.", Style::fg(Color::DarkGray))),
        );
    }
    assert(line_views(out@) =~= description_lines(opt_text(*description)));
    out
}

/// An empty line, a rule and an empty line.
pub open spec fn rule_lines() -> Seq<Seq<SpanView>> {
    seq![
        seq![raw(""@)],
        seq![styled(PREVIEW_HR@, colored(Color::DarkGray))],
        seq![raw(""@)],
    ]
}

/// The lines of the preview of a result, as far as it is fetched.
pub open spec fn skill_section(state: Option<SkillPreviewState>) -> Seq<Seq<SpanView>> {
    match state {
        Some(SkillPreviewState::Loaded(content)) => rule_lines() + seq![
            seq![styled("SKILL.md:"@, bold_colored(Color::DarkGray))],
            seq![raw(""@)],
        ] + content_lines(content@),
        Some(SkillPreviewState::Loading) => rule_lines().push(
            seq![styled("Loading SKILL.md..."@, colored(Color::Yellow))],
        ),
        Some(SkillPreviewState::Failed) => rule_lines().push(
            seq![styled("Could not fetch SKILL.md"@, colored(Color::Red))],
        ),
        _ => Seq::empty(),
    }
}

/// The lines of the preview of a result.
pub fn build_skill_preview_section(state: Option<&SkillPreviewState>) -> (r: Vec<Line>)
    ensures
        line_views(r@) == skill_section(
            match state {
                Some(s) => Some(*s),
                None => None,
            },
        ),
{
    let mut out: Vec<Line> = Vec::new();
    assert(line_views(out@) =~= Seq::empty());
    match state {
        Some(SkillPreviewState::Loaded(content)) => {
            push_rule(&mut out);
            push_line(&mut out, Line::one(Span::styled("SKILL.md:", Style::bold_fg(Color::DarkGray))));
            push_line(&mut out, Line::raw(""));
            append_lines(&mut out, build_skill_content_lines(content));
        },
        Some(SkillPreviewState::Loading) => {
            push_rule(&mut out);
            push_line(
                &mut out,
                Line::one(Span::styled("Loading SKILL.md...", Style::fg(Color::Yellow))),
            );
        },
        Some(SkillPreviewState::Failed) => {
            push_rule(&mut out);
            push_line(
                &mut out,
                Line::one(Span::styled("Could not fetch SKILL.md", Style::fg(Color::Red))),
            );
        },
        _ => {},
    }
    assert(line_views(out@) =~= skill_section(
        match state {
            Some(s) => Some(*s),
            None => None,
        },
    ));
    out
}

/// The lines above the audits: what is known of a result.
pub open spec fn fact_lines(item: SearchResult) -> Seq<Seq<SpanView>> {
    seq![
        seq![styled(item.name@, bold_colored(Color::Cyan))],
        seq![raw(""@)],
        field_line(
            "Registry:       "@,
            item.registry.word(),
            colored(color_of_registry(item.registry)),
        ),
    ] + (if item.owner@.len() > 0 {
        seq![field_line("Owner:          "@, item.owner@, no_style())]
    } else {
        Seq::empty()
    }) + (match item.stars {
        Some(n) => seq![
            field_line("Stars:          "@, decimal(n as nat), colored(Color::Yellow)),
        ],
        None => Seq::empty(),
    }) + (match item.security_score {
        Some(score) => seq![
            field_line(
                "Security Score: "@,
                decimal(score as nat) + "/100"@,
                colored(color_of_score(score)),
            ),
        ],
        None => Seq::empty(),
    }) + (match item.source_repo {
        Some(repo) => seq![field_line("Source:         "@, repo@, no_style())],
        None => Seq::empty(),
    }) + seq![
        field_line("URL:            "@, item.url@, underlined_colored(Color::Blue)),
    ]
}

/// The lines of the preview pane for a result.
pub open spec fn preview_lines(
    item: SearchResult,
    audits: Option<AuditState>,
    preview: Option<SkillPreviewState>,
) -> Seq<Seq<SpanView>> {
    fact_lines(item) + audit_lines(item.registry, audits) + description_lines(
        opt_text(item.description),
    ) + skill_section(preview)
}

fn build_fact_lines(item: &SearchResult) -> (r: Vec<Line>)
    ensures
        line_views(r@) == fact_lines(*item),
{
    let mut out: Vec<Line> = Vec::new();
    assert(line_views(out@) =~= Seq::empty());
    push_line(&mut out, Line::one(Span::styled(&item.name, Style::bold_fg(Color::Cyan))));
    push_line(&mut out, Line::raw(""));
    push_line(
        &mut out,
        field(
            "Registry:       ",
            item.registry.as_str(),
            Style::fg(registry_color(item.registry)),
        ),
    );
    if !item.owner.as_str().is_empty() {
        push_line(&mut out, field("Owner:          ", &item.owner, Style::plain()));
    }
    if let Some(stars) = item.stars {
        push_line(&mut out, field("Stars:          ", &number(stars), Style::fg(Color::Yellow)));
    }
    if let Some(score) = item.security_score {
        let mut s = number(score as u64);
        s.append("/100");
        push_line(&mut out, field("Security Score: ", &s, Style::fg(score_color(score))));
    }
    if let Some(repo) = &item.source_repo {
        push_line(&mut out, field("Source:         ", repo, Style::plain()));
    }
    push_line(&mut out, field("URL:            ", &item.url, Style::underlined_fg(Color::Blue)));
    assert(line_views(out@) =~= fact_lines(*item));
    out
}

/// Builds the lines of the preview pane for a result.
pub fn build_preview_lines(
    item: &SearchResult,
    audit_state: Option<&AuditState>,
    skill_preview: Option<&SkillPreviewState>,
) -> (r: Vec<Line>)
    ensures
        line_views(r@) == preview_lines(
            *item,
            match audit_state {
                Some(a) => Some(*a),
                None => None,
            },
            match skill_preview {
                Some(p) => Some(*p),
                None => None,
            },
        ),
{
    let mut out = build_fact_lines(item);
    append_lines(&mut out, build_audit_lines(item.registry, audit_state));
    append_lines(&mut out, build_description_lines(&item.description));
    append_lines(&mut out, build_skill_preview_section(skill_preview));
    out
}

/// The lines of the preview pane.
pub fn draw_preview(app: &App<'_>) -> (r: Vec<Line>)
    ensures
        match highlighted(app.items@, app.state()) {
            Some(i) => line_views(r@) == preview_lines(
                app.items@[i],
                app.audit_cache.at(app.items@[i].url@),
                app.skill_preview_cache.at(app.items@[i].url@),
            ),
            None => line_views(r@) == seq![seq![raw("No results match the filter."@)]],
        },
{
    match app.selected() {
        Some(item) => {
            let audit_state = app.audit_cache.get(&item.url);
            let skill_preview = app.skill_preview_cache.get(&item.url);
            build_preview_lines(item, audit_state, skill_preview)
        },
        None => {
            let mut out: Vec<Line> = Vec::new();
            push_line(&mut out, Line::raw("No results match the filter."));
            assert(line_views(out@) =~= seq![seq![raw("No results match the filter."@)]]);
            out
        },
    }
}

} // verus!
