//! The interactive list of entries to add: its state, what keys do, and what is shown.

use std::collections::HashSet;
use vstd::prelude::*;
use vstd::string::StringExecFns;
use vstd::utf8::{decode_utf8, valid_utf8};
use crate::commands::common::{push_text, sentence};
use crate::commands::picker::{
    all_rows, first_row, last_row, law_moves_undo, law_picked, lemma_all_picked, matches_words,
    moved, next_row, picked, text_matches, KeyCode, KeyEvent, ListState,
};
use crate::commands::search::{last_part, last_part_of};
use crate::commands::search_tui::without_last;
use crate::commands::skill_preview::{
    build_skill_content_lines, content_lines, field, field_line, parse_skill_frontmatter,
    preview_of, PreviewContent,
};
use crate::commands::styled::{
    append_lines, bold_colored, bold_style, colored, line_views, push_line, push_span, raw,
    span_views, styled, underlined_colored, Color, Line, Span, SpanView, Style,
};
use crate::commands::text_map::{last_of, TextMap};
use crate::parser::{lossy_text, utf8_text};
use crate::numbers::{decimal, number, size_number};
use crate::paths::{extension, extension_of, file_name, file_name_of, last_index, rindex};
use crate::text::{
    ascii_lower, ascii_only, lowercase, same, slice_string, texts, to_ascii_lower, to_chars,
};

verus! {

// ---------------------------------------------------------------------------
// Paths
// ---------------------------------------------------------------------------

/// Whether a path leads to a file whose extension is `md`, whatever its case.
pub open spec fn is_md(path: Seq<char>) -> bool {
    match file_name_of(path) {
        Some(name) => match extension_of(name) {
            Some(ext) => ascii_lower(ext) == ascii_lower("md"@),
            None => false,
        },
        None => false,
    }
}

/// Whether a path leads to a file whose extension is `md`.
pub fn has_md_extension(path: &str) -> (r: bool)
    ensures
        r == is_md(path@),
{
    if let Some(name) = file_name(path) {
        if let Some(ext) = extension(&name) {
            let e = to_ascii_lower(&ext);
            let md = to_ascii_lower("md");
            return same(&e, &md);
        }
    }
    false
}

/// The file that is fetched to preview an entry.
pub open spec fn preview_path(path: Seq<char>) -> Seq<char> {
    if is_md(path) {
        path
    } else if path == "."@ {
        "SKILL.md"@
    } else {
        path + "/SKILL.md"@
    }
}

/// The file that is fetched to preview an entry: the entry itself where it is a Markdown file, and
/// else the `SKILL.md` in it.
pub fn resolve_preview_path(path: &str) -> (r: String)
    ensures
        r@ == preview_path(path@),
{
    if has_md_extension(path) {
        path.to_owned()
    } else if same(path, ".") {
        String::from_str("SKILL.md")
    } else {
        let mut s: String = path.to_owned();
        s.append("/SKILL.md");
        s
    }
}

/// Whether an entry is a directory other than the root.
pub open spec fn is_dir_path(path: Seq<char>) -> bool {
    !is_md(path) && path != "."@
}

/// Whether an entry is a directory other than the root.
pub fn is_dir_entry(path: &str) -> (r: bool)
    ensures
        r == is_dir_path(path@),
{
    !has_md_extension(path) && !same(path, ".")
}

/// How an entry is called in the list: by the last part of its path.
pub fn display_label(path: &str) -> (r: String)
    ensures
        r@ == last_part(path@),
{
    last_part_of(path)
}

/// The part of a path up to its last `/`.
pub open spec fn parent_part(path: Seq<char>) -> Seq<char> {
    path.take(last_index(path, '/') + 1)
}

/// The part of a path up to its last `/`; empty where it has none.
pub fn parent_hint(path: &str) -> (r: String)
    ensures
        r@ == parent_part(path@),
{
    let v = to_chars(path);
    let n: usize = v.len();
    let end: usize = match rindex(&v, '/') {
        Some(i) => i + 1,
        None => 0,
    };
    assert(end <= n);
    let r = slice_string(&v, 0, end);
    assert(r@ =~= parent_part(path@));
    r
}

/// The page of an entry at GitHub.
pub open spec fn github_url(owner_repo: Seq<char>, ref_: Seq<char>, path: Seq<char>) -> Seq<char> {
    if path == "."@ {
        "https://github.com/"@ + owner_repo + "/tree/"@ + ref_
    } else {
        "https://github.com/"@ + owner_repo + (if is_dir_path(path) {
            "/tree/"@
        } else {
            "/blob/"@
        }) + ref_ + "/"@ + path
    }
}

/// The page of an entry at GitHub.
pub fn build_github_url(owner_repo: &str, ref_: &str, path: &str) -> (r: String)
    ensures
        r@ == github_url(owner_repo@, ref_@, path@),
{
    if same(path, ".") {
        let mut s = sentence("https://github.com/", owner_repo, "/tree/");
        s.append(ref_);
        return s;
    }
    let kind = if is_dir_entry(path) {
        "/tree/"
    } else {
        "/blob/"
    };
    let mut s = sentence("https://github.com/", owner_repo, kind);
    s.append(ref_);
    s.append("/");
    s.append(path);
    s
}

// ---------------------------------------------------------------------------
// State
// ---------------------------------------------------------------------------

/// How far the preview of an entry is fetched.
#[derive(Debug)]
pub enum PreviewState {
    Loading,
    Loaded(PreviewContent),
    Failed,
}

/// The preview of an entry, by what was fetched of it.
pub fn fetch_preview(bytes: Option<&[u8]>) -> (r: PreviewState)
    ensures
        match bytes {
            Some(b) => r matches PreviewState::Loaded(p) && p@ == preview_of(lossy_text(b@)) && (
            valid_utf8(b@) ==> p@ == preview_of(decode_utf8(b@))),
            None => r is Failed,
        },
{
    match bytes {
        Some(b) => PreviewState::Loaded(parse_skill_frontmatter(&utf8_text(b))),
        None => PreviewState::Failed,
    }
}

/// The state of the list.
pub struct App<'a> {
    /// The paths of all entries.
    pub items: &'a Vec<String>,
    /// The positions of the entries that match the filter.
    pub filtered: Vec<usize>,
    /// The filter.
    pub filter: String,
    /// The highlighted row.
    pub list_state: ListState,
    /// The positions of the entries that are picked.
    pub selected: HashSet<usize>,
    /// Whether the picked entries were chosen.
    pub confirmed: bool,
    /// Whether the user gave up.
    pub cancelled: bool,
    /// The previews that were fetched, by path.
    pub preview_cache: TextMap<PreviewState>,
    /// The repository of the entries.
    pub owner_repo: String,
    /// The branch or tag of the entries.
    pub ref_: String,
    /// How far the preview is scrolled.
    pub preview_scroll: u16,
    /// The entry that was highlighted when the preview was last at its start.
    pub last_highlighted_idx: Option<usize>,
}

/// What keys change.
pub struct AppView {
    pub filtered: Seq<usize>,
    pub filter: Seq<char>,
    pub row: Option<usize>,
    pub selected: Set<usize>,
    pub confirmed: bool,
    pub cancelled: bool,
    pub preview_scroll: u16,
}

/// Whether a path matches a query.
pub open spec fn path_matches(path: Seq<char>, query: Seq<char>) -> bool {
    matches_words(lowercase(path), query)
}

/// Which paths match a query.
pub open spec fn match_flags(paths: Seq<Seq<char>>, query: Seq<char>) -> Seq<bool> {
    paths.map_values(|p: Seq<char>| path_matches(p, query))
}

/// The positions of the paths that match a filter, whatever the case; all where it is empty.
pub open spec fn shown_rows(paths: Seq<Seq<char>>, filter: Seq<char>) -> Seq<usize> {
    if filter.len() == 0 {
        all_rows(paths.len())
    } else {
        picked(match_flags(paths, lowercase(filter)))
    }
}

/// The state with another filter: the first match is highlighted.
pub open spec fn refiltered(paths: Seq<Seq<char>>, s: AppView, filter: Seq<char>) -> AppView {
    let rows = shown_rows(paths, filter);
    AppView { filtered: rows, filter, row: first_row(rows.len()), ..s }
}

/// The position of the highlighted entry.
pub open spec fn highlighted(s: AppView) -> Option<usize> {
    match s.row {
        Some(r) => if r < s.filtered.len() {
            Some(s.filtered[r as int])
        } else {
            None
        },
        None => None,
    }
}

/// The state in which the highlighted entry is picked where it was not, and the other way round.
pub open spec fn toggled(s: AppView) -> AppView {
    match highlighted(s) {
        Some(i) => AppView {
            selected: if s.selected.contains(i) {
                s.selected.remove(i)
            } else {
                s.selected.insert(i)
            },
            ..s
        },
        None => s,
    }
}

/// Whether all rows are picked.
pub open spec fn all_picked(s: AppView) -> bool {
    forall|i: int| 0 <= i < s.filtered.len() ==> s.selected.contains(#[trigger] s.filtered[i])
}

/// The state in which all rows are picked, or none where all were.
pub open spec fn all_toggled(s: AppView) -> AppView {
    AppView {
        selected: if all_picked(s) {
            s.selected.difference(s.filtered.to_set())
        } else {
            s.selected.union(s.filtered.to_set())
        },
        ..s
    }
}

/// How far a key scrolls the preview.
pub const SCROLL_STEP: u16 = 3;

/// How far the preview is scrolled, one step further down.
pub open spec fn scrolled_down(scroll: u16) -> u16 {
    if scroll + SCROLL_STEP > u16::MAX {
        u16::MAX
    } else {
        (scroll + SCROLL_STEP) as u16
    }
}

/// How far the preview is scrolled, one step further up.
pub open spec fn scrolled_up(scroll: u16) -> u16 {
    if scroll < SCROLL_STEP {
        0
    } else {
        (scroll - SCROLL_STEP) as u16
    }
}

/// The state after a key. Space picks; other letters move, pick all or leave while the filter is
/// empty, and are typed into it otherwise.
pub open spec fn after_key(paths: Seq<Seq<char>>, s: AppView, key: KeyEvent) -> AppView {
    let idle = s.filter.len() == 0;
    let n = s.filtered.len();
    match key.code {
        KeyCode::Esc => AppView { cancelled: true, ..s },
        KeyCode::Enter => if s.selected.len() > 0 {
            AppView { confirmed: true, ..s }
        } else {
            s
        },
        KeyCode::Up => if idle {
            AppView { row: moved(s.row, n, -1), ..s }
        } else {
            s
        },
        KeyCode::Down => if idle {
            AppView { row: moved(s.row, n, 1), ..s }
        } else {
            s
        },
        KeyCode::Home => if idle && n > 0 {
            AppView { row: Some(0), ..s }
        } else {
            s
        },
        KeyCode::End => if idle && n > 0 {
            AppView { row: last_row(n), ..s }
        } else {
            s
        },
        KeyCode::Tab => AppView { preview_scroll: scrolled_down(s.preview_scroll), ..s },
        KeyCode::BackTab => AppView { preview_scroll: scrolled_up(s.preview_scroll), ..s },
        KeyCode::Backspace => refiltered(
            paths,
            s,
            if s.filter.len() == 0 {
                s.filter
            } else {
                s.filter.drop_last()
            },
        ),
        KeyCode::Char(c) => if c == 'q' && idle {
            AppView { cancelled: true, ..s }
        } else if c == 'c' && key.control {
            AppView { cancelled: true, ..s }
        } else if c == ' ' {
            toggled(s)
        } else if c == 'a' && idle {
            all_toggled(s)
        } else if c == 'k' && idle {
            AppView { row: moved(s.row, n, -1), ..s }
        } else if c == 'j' && idle {
            AppView { row: moved(s.row, n, 1), ..s }
        } else if c == 'g' && idle {
            if n > 0 {
                AppView { row: Some(0), ..s }
            } else {
                s
            }
        } else if c == 'G' && idle {
            if n > 0 {
                AppView { row: last_row(n), ..s }
            } else {
                s
            }
        } else {
            refiltered(paths, s, s.filter.push(c))
        },
        KeyCode::Other => s,
    }
}

/// Whether a state is one that the list can be in: the rows are those that match the filter, a row
/// is highlighted where there is one, and what is picked are entries.
pub open spec fn valid_state(paths: Seq<Seq<char>>, s: AppView) -> bool {
    &&& s.filtered == shown_rows(paths, s.filter)
    &&& match s.row {
        Some(r) => r < s.filtered.len(),
        None => s.filtered.len() == 0,
    }
    &&& s.selected.finite()
    &&& forall|i: usize| s.selected.contains(i) ==> i < paths.len()
}

proof fn lemma_rows_fit(paths: Seq<Seq<char>>, filter: Seq<char>)
    requires
        paths.len() <= usize::MAX,
    ensures
        shown_rows(paths, filter).len() <= paths.len(),
        forall|i: int|
            0 <= i < shown_rows(paths, filter).len() ==> (#[trigger] shown_rows(paths, filter)[i])
                < paths.len(),
{
    if filter.len() > 0 {
        let flags = match_flags(paths, lowercase(filter));
        law_picked(flags);
        lemma_picked_len(flags);
    }
}

proof fn lemma_picked_len(flags: Seq<bool>)
    ensures
        picked(flags).len() <= flags.len(),
    decreases flags.len(),
{
    if flags.len() > 0 {
        lemma_picked_len(flags.drop_last());
    }
}

/// Keys keep the state valid.
pub proof fn law_keys_keep_state(paths: Seq<Seq<char>>, s: AppView, key: KeyEvent)
    requires
        paths.len() <= usize::MAX,
        valid_state(paths, s),
    ensures
        valid_state(paths, after_key(paths, s, key)),
{
    lemma_rows_fit(paths, s.filter);
    let n = s.filtered.len();
    if n > 0 {
        let r = s.row->Some_0;
        law_moves_undo(r, n, 1);
        law_moves_undo(r, n, -1);
    }
    vstd::seq_lib::seq_to_set_is_finite(s.filtered);
}

/// Picking twice changes nothing, and so does picking all rows twice where none is picked.
pub proof fn law_toggle_twice(s: AppView)
    ensures
        toggled(toggled(s)).selected =~= s.selected,
        (forall|i: int|
            0 <= i < s.filtered.len() ==> !s.selected.contains(#[trigger] s.filtered[i]))
            ==> all_toggled(all_toggled(s)).selected =~= s.selected,
{
    let t = all_toggled(s);
    let rows = s.filtered.to_set();
    assert forall|i: int| 0 <= i < s.filtered.len() implies rows.contains(
        #[trigger] s.filtered[i],
    ) by {
        assert(s.filtered.contains(s.filtered[i]));
    }
    if forall|i: int|
        0 <= i < s.filtered.len() ==> !s.selected.contains(#[trigger] s.filtered[i]) {
        assert forall|x: usize| rows.contains(x) implies !s.selected.contains(x) by {
            let i = choose|i: int| 0 <= i < s.filtered.len() && s.filtered[i] == x;
            assert(!s.selected.contains(s.filtered[i]));
        }
        if !all_picked(s) {
            assert(all_picked(t));
        }
    }
}

/// Whether a path matches a query.
pub fn path_matches_query(path: &str, query: &str) -> (r: bool)
    ensures
        r == path_matches(path@, query@),
{
    if query.is_empty() {
        return true;
    }
    let text = path.to_lowercase();
    text_matches(&text, query)
}

/// The paths at the picked positions, in order.
pub open spec fn chosen(paths: Seq<Seq<char>>, selected: Set<usize>) -> Seq<Seq<char>>
    decreases paths.len(),
{
    if paths.len() == 0 {
        paths
    } else if selected.contains((paths.len() - 1) as usize) {
        chosen(paths.drop_last(), selected).push(paths.last())
    } else {
        chosen(paths.drop_last(), selected)
    }
}

impl<'a> App<'a> {
    /// What keys change.
    pub open spec fn state(&self) -> AppView {
        AppView {
            filtered: self.filtered@,
            filter: self.filter@,
            row: self.list_state.row,
            selected: self.selected@,
            confirmed: self.confirmed,
            cancelled: self.cancelled,
            preview_scroll: self.preview_scroll,
        }
    }

    /// Whether all that keys do not change is as in another state.
    pub open spec fn same_data(&self, other: &App<'a>) -> bool {
        &&& self.items == other.items
        &&& self.preview_cache == other.preview_cache
        &&& self.owner_repo == other.owner_repo
        &&& self.ref_ == other.ref_
        &&& self.last_highlighted_idx == other.last_highlighted_idx
    }

    /// The list of all entries, with the first one highlighted and none picked.
    pub fn new(items: &'a Vec<String>, owner_repo: &str, ref_: &str) -> (r: Self)
        ensures
            valid_state(texts(items@), r.state()),
            r.filter@.len() == 0,
            r.selected@ == Set::<usize>::empty(),
            !r.confirmed && !r.cancelled,
            r.preview_scroll == 0,
            r.items == items,
            r.owner_repo@ == owner_repo@,
            r.ref_@ == ref_@,
            r.last_highlighted_idx is None,
            forall|k: Seq<char>| #[trigger] r.preview_cache.at(k) is None,
    {
        let mut filtered: Vec<usize> = Vec::new();
        let mut i: usize = 0;
        while i < items.len()
            invariant
                i <= items@.len(),
                filtered@ == all_rows(i as nat),
            decreases items@.len() - i,
        {
            filtered.push(i);
            i += 1;
            assert(filtered@ =~= all_rows(i as nat));
        }
        assert(texts(items@).len() == items@.len());
        let list_state = ListState::first_of(filtered.len());
        App {
            items,
            filtered,
            filter: String::new(),
            list_state,
            selected: HashSet::new(),
            confirmed: false,
            cancelled: false,
            preview_cache: TextMap::new(),
            owner_repo: owner_repo.to_owned(),
            ref_: ref_.to_owned(),
            preview_scroll: 0,
            last_highlighted_idx: None,
        }
    }

    /// The position of the highlighted entry.
    pub fn highlighted_index(&self) -> (r: Option<usize>)
        ensures
            r == highlighted(self.state()),
    {
        match self.list_state.row {
            Some(i) => if i < self.filtered.len() {
                Some(self.filtered[i])
            } else {
                None
            },
            None => None,
        }
    }

    /// The path of the highlighted entry.
    pub fn highlighted_path(&self) -> (r: Option<&'a str>)
        ensures
            match highlighted(self.state()) {
                Some(i) if i < self.items@.len() => r matches Some(p) && p@ == self.items@[i as int]@,
                _ => r is None,
            },
    {
        match self.highlighted_index() {
            Some(i) => if i < self.items.len() {
                Some(self.items[i].as_str())
            } else {
                None
            },
            None => None,
        }
    }

    /// Shows what matches the filter, with the first match highlighted.
    pub fn refilter(&mut self)
        ensures
            final(self).state() == refiltered(
                texts(old(self).items@),
                old(self).state(),
                old(self).filter@,
            ),
            final(self).same_data(old(self)),
    {
        let query = self.filter.as_str().to_lowercase();
        let items = self.items;
        let ghost paths = texts(items@);
        let ghost flags = match_flags(paths, query@);
        let mut filtered: Vec<usize> = Vec::new();
        let mut i: usize = 0;
        assert(filtered@ =~= picked(flags.take(0)));
        while i < items.len()
            invariant
                paths == texts(items@),
                flags == match_flags(paths, query@),
                i <= items@.len(),
                filtered@ == picked(flags.take(i as int)),
            decreases items@.len() - i,
        {
            assert(flags.take(i + 1).drop_last() =~= flags.take(i as int));
            assert(flags.take(i + 1).last() == path_matches(paths[i as int], query@));
            if path_matches_query(&items[i], &query) {
                filtered.push(i);
            }
            i += 1;
        }
        assert(flags.take(i as int) =~= flags);
        proof {
            if self.filter@.len() == 0 {
                assert(ascii_only(self.filter@));
                assert(query@.len() == 0);
                lemma_all_picked(flags);
            }
        }
        self.list_state = ListState::first_of(filtered.len());
        self.filtered = filtered;
    }

    /// Whether the list is to be left.
    pub fn should_quit(&self) -> (r: bool)
        ensures
            r == (self.confirmed || self.cancelled),
    {
        self.confirmed || self.cancelled
    }

    /// How many entries are picked.
    pub fn selection_count(&self) -> (r: usize)
        ensures
            r == self.selected@.len(),
    {
        broadcast use vstd::std_specs::hash::group_hash_axioms;

        self.selected.len()
    }

    /// The path whose preview has to be fetched now: the highlighted one, unless it was asked for
    /// already. It counts as being fetched from now on.
    pub fn maybe_fetch_preview(&mut self) -> (r: Option<String>)
        ensures
            match highlighted(old(self).state()) {
                Some(i) if i < old(self).items@.len() => if old(self).preview_cache.at(
                    old(self).items@[i as int]@,
                ) is None {
                    &&& r matches Some(p) && p@ == old(self).items@[i as int]@
                    &&& final(self).preview_cache.at(old(self).items@[i as int]@) == Some(
                        PreviewState::Loading,
                    )
                    &&& forall|k: Seq<char>|
                        k != old(self).items@[i as int]@ ==> #[trigger] final(self).preview_cache.at(k)
                            == old(self).preview_cache.at(k)
                } else {
                    r is None && final(self).preview_cache == old(self).preview_cache
                },
                _ => r is None && final(self).preview_cache == old(self).preview_cache,
            },
            final(self).state() == old(self).state(),
            final(self).items == old(self).items,
            final(self).owner_repo == old(self).owner_repo,
            final(self).ref_ == old(self).ref_,
            final(self).last_highlighted_idx == old(self).last_highlighted_idx,
    {
        match self.highlighted_path() {
            Some(path) => {
                if self.preview_cache.contains_key(path) {
                    return None;
                }
                self.preview_cache.insert(path.to_owned(), PreviewState::Loading);
                Some(path.to_owned())
            },
            None => None,
        }
    }

    /// Takes the previews that were fetched.
    pub fn poll_previews(&mut self, done: Vec<(String, PreviewState)>)
        ensures
            forall|k: Seq<char>| #[trigger]
                final(self).preview_cache.at(k) == (match last_of(done@, k) {
                    Some(v) => Some(v),
                    None => old(self).preview_cache.at(k),
                }),
            final(self).state() == old(self).state(),
            final(self).items == old(self).items,
            final(self).owner_repo == old(self).owner_repo,
            final(self).ref_ == old(self).ref_,
            final(self).last_highlighted_idx == old(self).last_highlighted_idx,
    {
        self.preview_cache.extend(done);
    }

    /// Puts the preview back to its start where another entry is highlighted than before.
    pub fn reset_scroll_if_changed(&mut self)
        ensures
            final(self).last_highlighted_idx == highlighted(old(self).state()),
            final(self).state() == (AppView {
                preview_scroll: if highlighted(old(self).state()) != old(
                    self,
                ).last_highlighted_idx {
                    0
                } else {
                    old(self).preview_scroll
                },
                ..old(self).state()
            }),
            final(self).items == old(self).items,
            final(self).preview_cache == old(self).preview_cache,
            final(self).owner_repo == old(self).owner_repo,
            final(self).ref_ == old(self).ref_,
    {
        let current = self.highlighted_index();
        if current != self.last_highlighted_idx {
            self.preview_scroll = 0;
            self.last_highlighted_idx = current;
        }
    }
}

// ---------------------------------------------------------------------------
// Keys
// ---------------------------------------------------------------------------

/// Does what a key asks for.
pub fn handle_key(app: &mut App<'_>, key: KeyEvent)
    ensures
        final(app).state() == after_key(texts(old(app).items@), old(app).state(), key),
        final(app).same_data(old(app)),
{
    let idle = app.filter.as_str().is_empty();
    match key.code {
        KeyCode::Esc => {
            app.cancelled = true;
        },
        KeyCode::Enter => {
            handle_key_enter(app);
        },
        KeyCode::Up => {
            if idle {
                move_selection(app, -1);
            }
        },
        KeyCode::Down => {
            if idle {
                move_selection(app, 1);
            }
        },
        KeyCode::Home => {
            if idle {
                handle_key_jump_top(app);
            }
        },
        KeyCode::End => {
            if idle {
                handle_key_jump_bottom(app);
            }
        },
        KeyCode::Tab => {
            if app.preview_scroll > u16::MAX - SCROLL_STEP {
                app.preview_scroll = u16::MAX;
            } else {
                app.preview_scroll = app.preview_scroll + SCROLL_STEP;
            }
        },
        KeyCode::BackTab => {
            if app.preview_scroll < SCROLL_STEP {
                app.preview_scroll = 0;
            } else {
                app.preview_scroll = app.preview_scroll - SCROLL_STEP;
            }
        },
        KeyCode::Backspace => {
            app.filter = without_last(&app.filter);
            app.refilter();
        },
        KeyCode::Char(c) => {
            if c == 'q' && idle {
                app.cancelled = true;
            } else if c == 'c' && key.control {
                app.cancelled = true;
            } else if c == ' ' {
                handle_key_space(app);
            } else if c == 'a' && idle {
                handle_key_toggle_all(app);
            } else if c == 'k' && idle {
                move_selection(app, -1);
            } else if c == 'j' && idle {
                move_selection(app, 1);
            } else if c == 'g' && idle {
                handle_key_jump_top(app);
            } else if c == 'G' && idle {
                handle_key_jump_bottom(app);
            } else {
                app.filter.push(c);
                app.refilter();
            }
        },
        KeyCode::Other => {},
    }
}

/// Chooses the picked entries; nothing happens where there is none.
pub fn handle_key_enter(app: &mut App<'_>)
    ensures
        final(app).state() == (if old(app).selected@.len() > 0 {
            AppView { confirmed: true, ..old(app).state() }
        } else {
            old(app).state()
        }),
        final(app).same_data(old(app)),
{
    if app.selection_count() > 0 {
        app.confirmed = true;
    }
}

/// Picks the highlighted entry where it is not picked, and the other way round.
pub fn handle_key_space(app: &mut App<'_>)
    ensures
        final(app).state() == toggled(old(app).state()),
        final(app).same_data(old(app)),
{
    broadcast use vstd::std_specs::hash::group_hash_axioms;

    if let Some(idx) = app.highlighted_index() {
        if app.selected.contains(&idx) {
            app.selected.remove(&idx);
        } else {
            app.selected.insert(idx);
        }
    }
}

/// Picks all rows, or none where all are picked.
pub fn handle_key_toggle_all(app: &mut App<'_>)
    ensures
        final(app).state() == all_toggled(old(app).state()),
        final(app).same_data(old(app)),
{
    broadcast use vstd::std_specs::hash::group_hash_axioms;

    let ghost start = app.state();
    let ghost rows = app.filtered@;
    let mut all_selected = true;
    let mut i: usize = 0;
    while i < app.filtered.len()
        invariant
            *app == *old(app),
            start == app.state(),
            rows == app.filtered@,
            i <= rows.len(),
            all_selected == (forall|j: int|
                0 <= j < i ==> start.selected.contains(#[trigger] rows[j])),
        decreases rows.len() - i,
    {
        if !app.selected.contains(&app.filtered[i]) {
            assert(!start.selected.contains(rows[i as int]));
            all_selected = false;
        }
        i += 1;
    }
    let ghost every = all_picked(start);
    assert(all_selected == every);
    let mut k: usize = 0;
    assert(rows.take(0).to_set() =~= Set::empty());
    assert(start.selected.difference(rows.take(0).to_set()) =~= start.selected);
    assert(start.selected.union(rows.take(0).to_set()) =~= start.selected);
    while k < app.filtered.len()
        invariant
            rows == app.filtered@,
            k <= rows.len(),
            app.same_data(old(app)),
            app.selected@ == (if all_selected {
                start.selected.difference(rows.take(k as int).to_set())
            } else {
                start.selected.union(rows.take(k as int).to_set())
            }),
            app.state() == (AppView { selected: app.selected@, ..start }),
        decreases rows.len() - k,
    {
        let idx: usize = app.filtered[k];
        let ghost before = app.selected@;
        let ghost part = rows.take(k as int);
        proof {
            let more = rows.take(k + 1);
            assert(more =~= part.push(idx));
            assert(more.to_set() =~= part.to_set().insert(idx)) by {
                assert forall|x: usize| more.to_set().contains(x) == part.to_set().insert(
                    idx,
                ).contains(x) by {
                    if part.contains(x) {
                        let p = choose|p: int| 0 <= p < part.len() && part[p] == x;
                        assert(more[p] == x);
                    }
                    if x == idx {
                        assert(more[k as int] == x);
                    }
                }
            }
        }
        if all_selected {
            app.selected.remove(&idx);
        } else {
            app.selected.insert(idx);
        }
        assert(app.selected@ =~= (if all_selected {
            start.selected.difference(rows.take(k + 1).to_set())
        } else {
            start.selected.union(rows.take(k + 1).to_set())
        }));
        k += 1;
    }
    assert(rows.take(k as int) =~= rows);
}

/// Highlights the first row.
pub fn handle_key_jump_top(app: &mut App<'_>)
    ensures
        final(app).state() == (if old(app).filtered@.len() > 0 {
            AppView { row: Some(0), ..old(app).state() }
        } else {
            old(app).state()
        }),
        final(app).same_data(old(app)),
{
    if app.filtered.len() > 0 {
        app.list_state = ListState { row: Some(0) };
    }
}

/// Highlights the last row.
pub fn handle_key_jump_bottom(app: &mut App<'_>)
    ensures
        final(app).state() == (if old(app).filtered@.len() > 0 {
            AppView { row: last_row(old(app).filtered@.len()), ..old(app).state() }
        } else {
            old(app).state()
        }),
        final(app).same_data(old(app)),
{
    if app.filtered.len() > 0 {
        app.list_state = ListState { row: Some(app.filtered.len() - 1) };
    }
}

/// Moves the highlight by `delta` rows, round the ends.
pub fn move_selection(app: &mut App<'_>, delta: i32)
    ensures
        final(app).state() == (AppView {
            row: moved(old(app).list_state.row, old(app).filtered@.len(), delta as int),
            ..old(app).state()
        }),
        final(app).same_data(old(app)),
{
    app.list_state = ListState { row: next_row(app.list_state.row, app.filtered.len(), delta) };
}

/// The paths that are picked, in the order of the list.
pub fn resolve_selections(app: &App<'_>) -> (r: Vec<String>)
    ensures
        texts(r@) == chosen(texts(app.items@), app.selected@),
{
    broadcast use vstd::std_specs::hash::group_hash_axioms;

    let ghost paths = texts(app.items@);
    let mut out: Vec<String> = Vec::new();
    let mut i: usize = 0;
    assert(texts(out@) =~= chosen(paths.take(0), app.selected@));
    while i < app.items.len()
        invariant
            paths == texts(app.items@),
            i <= app.items@.len(),
            texts(out@) == chosen(paths.take(i as int), app.selected@),
        decreases app.items@.len() - i,
    {
        assert(paths.take(i + 1).drop_last() =~= paths.take(i as int));
        assert(paths.take(i + 1).last() == app.items@[i as int]@);
        if app.selected.contains(&i) {
            push_text(&mut out, &app.items[i]);
        }
        i += 1;
    }
    assert(paths.take(i as int) =~= paths);
    out
}

/// What the list gives back: the picked paths where they were chosen, and none where the user gave
/// up.
pub fn resolve_result(app: &App<'_>) -> (r: Vec<String>)
    ensures
        texts(r@) == (if app.confirmed {
            chosen(texts(app.items@), app.selected@)
        } else {
            Seq::empty()
        }),
{
    if app.confirmed {
        resolve_selections(app)
    } else {
        let r: Vec<String> = Vec::new();
        assert(texts(r@) =~= Seq::empty());
        r
    }
}

// ---------------------------------------------------------------------------
// What is shown
// ---------------------------------------------------------------------------

/// What the keys do.
pub open spec fn key_hints() -> Seq<SpanView> {
    seq![
        styled(" Space"@, colored(Color::Cyan)),
        styled(" toggle  "@, colored(Color::DarkGray)),
        styled("a"@, colored(Color::Cyan)),
        styled(" all  "@, colored(Color::DarkGray)),
        styled("Tab"@, colored(Color::Cyan)),
        styled(" scroll  "@, colored(Color::DarkGray)),
        styled("Enter"@, colored(Color::Cyan)),
        styled(" confirm  "@, colored(Color::DarkGray)),
        styled("Esc"@, colored(Color::Cyan)),
        styled(" cancel"@, colored(Color::DarkGray)),
    ]
}

/// The line above the list: the keys or the filter, how many entries are picked, and how many are
/// shown.
pub open spec fn status_bar(app: App<'_>) -> Seq<SpanView> {
    (if app.filter@.len() == 0 {
        key_hints()
    } else {
        seq![
            styled(" filter: "@, colored(Color::DarkGray)),
            styled(app.filter@ + "_"@, colored(Color::Yellow)),
        ]
    }) + (if app.selected@.len() > 0 {
        seq![
            styled(
                "  \u{2713} "@ + decimal(app.selected@.len()) + " selected"@,
                bold_colored(Color::Green),
            ),
        ]
    } else {
        Seq::empty()
    }) + seq![
        raw("  "@),
        styled(
            decimal(app.filtered@.len()) + "/"@ + decimal(app.items@.len()),
            colored(Color::DarkGray),
        ),
    ]
}

fn build_key_hints() -> (r: Vec<Span>)
    ensures
        span_views(r@) == key_hints(),
{
    let mut spans: Vec<Span> = Vec::new();
    spans.push(Span::styled(" Space", Style::fg(Color::Cyan)));
    spans.push(Span::styled(" toggle  ", Style::fg(Color::DarkGray)));
    spans.push(Span::styled("a", Style::fg(Color::Cyan)));
    spans.push(Span::styled(" all  ", Style::fg(Color::DarkGray)));
    spans.push(Span::styled("Tab", Style::fg(Color::Cyan)));
    spans.push(Span::styled(" scroll  ", Style::fg(Color::DarkGray)));
    spans.push(Span::styled("Enter", Style::fg(Color::Cyan)));
    spans.push(Span::styled(" confirm  ", Style::fg(Color::DarkGray)));
    spans.push(Span::styled("Esc", Style::fg(Color::Cyan)));
    spans.push(Span::styled(" cancel", Style::fg(Color::DarkGray)));
    assert(span_views(spans@) =~= key_hints());
    spans
}

/// The line above the list.
pub fn draw_status_bar(app: &App<'_>) -> (r: Line)
    ensures
        r@ == status_bar(*app),
{
    let mut spans: Vec<Span> = if app.filter.as_str().is_empty() {
        build_key_hints()
    } else {
        let mut filter: String = app.filter.clone();
        filter.append("_");
        let mut v: Vec<Span> = Vec::new();
        v.push(Span::styled(" filter: ", Style::fg(Color::DarkGray)));
        v.push(Span::styled(&filter, Style::fg(Color::Yellow)));
        assert(span_views(v@) =~= seq![
            styled(" filter: "@, colored(Color::DarkGray)),
            styled(app.filter@ + "_"@, colored(Color::Yellow)),
        ]);
        v
    };
    let sel_count = app.selection_count();
    if sel_count > 0 {
        let n = size_number(sel_count);
        let s = sentence("  \u{2713} ", &n, " selected");
        push_span(&mut spans, Span::styled(&s, Style::bold_fg(Color::Green)));
    }
    let shown = size_number(app.filtered.len());
    let all = size_number(app.items.len());
    let count = sentence(&shown, "/", &all);
    push_span(&mut spans, Span::raw("  "));
    push_span(&mut spans, Span::styled(&count, Style::fg(Color::DarkGray)));
    let r = Line { spans };
    assert(r@ =~= status_bar(*app));
    r
}

/// The row of an entry.
pub open spec fn list_line(path: Seq<char>, checked: bool) -> Seq<SpanView> {
    seq![
        if checked {
            styled("\u{25c9} "@, colored(Color::Green))
        } else {
            styled("\u{25cb} "@, colored(Color::DarkGray))
        },
        styled(last_part(path), bold_style()),
    ] + (if is_dir_path(path) {
        seq![styled("  \u{1f4c1}"@, colored(Color::Yellow))]
    } else {
        Seq::empty()
    }) + (if parent_part(path).len() > 0 {
        seq![styled("  "@ + parent_part(path), colored(Color::DarkGray))]
    } else {
        Seq::empty()
    })
}

fn build_list_line(path: &str, checked: bool) -> (r: Line)
    ensures
        r@ == list_line(path@, checked),
{
    let mut spans: Vec<Span> = Vec::new();
    assert(span_views(spans@) =~= Seq::empty());
    if checked {
        push_span(&mut spans, Span::styled("\u{25c9} ", Style::fg(Color::Green)));
    } else {
        push_span(&mut spans, Span::styled("\u{25cb} ", Style::fg(Color::DarkGray)));
    }
    push_span(&mut spans, Span::styled(&display_label(path), Style::bold()));
    if is_dir_entry(path) {
        push_span(&mut spans, Span::styled("  \u{1f4c1}", Style::fg(Color::Yellow)));
    }
    let hint = parent_hint(path);
    if !hint.as_str().is_empty() {
        let mut s: String = String::from_str("  ");
        s.append(&hint);
        push_span(&mut spans, Span::styled(&s, Style::fg(Color::DarkGray)));
    }
    let r = Line { spans };
    assert(r@ =~= list_line(path@, checked));
    r
}

/// The rows of the list.
pub open spec fn list_lines(paths: Seq<Seq<char>>, rows: Seq<usize>, selected: Set<usize>) -> Seq<
    Seq<SpanView>,
>
    decreases rows.len(),
{
    if rows.len() == 0 {
        Seq::empty()
    } else {
        let init = list_lines(paths, rows.drop_last(), selected);
        let i = rows.last();
        if i < paths.len() {
            init.push(list_line(paths[i as int], selected.contains(i)))
        } else {
            init
        }
    }
}

/// The rows of the list.
pub fn draw_list(app: &App<'_>) -> (r: Vec<Line>)
    ensures
        line_views(r@) == list_lines(texts(app.items@), app.filtered@, app.selected@),
{
    broadcast use vstd::std_specs::hash::group_hash_axioms;

    let ghost paths = texts(app.items@);
    let ghost rows = app.filtered@;
    let mut out: Vec<Line> = Vec::new();
    let mut i: usize = 0;
    assert(line_views(out@) =~= list_lines(paths, rows.take(0), app.selected@));
    while i < app.filtered.len()
        invariant
            paths == texts(app.items@),
            rows == app.filtered@,
            i <= rows.len(),
            line_views(out@) == list_lines(paths, rows.take(i as int), app.selected@),
        decreases rows.len() - i,
    {
        assert(rows.take(i + 1).drop_last() =~= rows.take(i as int));
        assert(rows.take(i + 1).last() == rows[i as int]);
        let idx: usize = app.filtered[i];
        if idx < app.items.len() {
            assert(paths[idx as int] == app.items@[idx as int]@);
            let checked = app.selected.contains(&idx);
            push_line(&mut out, build_list_line(&app.items[idx], checked));
        }
        i += 1;
    }
    assert(rows.take(i as int) =~= rows);
    out
}

/// The title of the list: the repository.
pub fn list_title(app: &App<'_>) -> (r: Line)
    ensures
        r@ == seq![
            raw(" "@),
            styled(app.owner_repo@, bold_colored(Color::Cyan)),
            raw(" "@),
        ],
{
    let mut spans: Vec<Span> = Vec::new();
    spans.push(Span::raw(" "));
    spans.push(Span::styled(&app.owner_repo, Style::bold_fg(Color::Cyan)));
    spans.push(Span::raw(" "));
    let r = Line { spans };
    assert(r@ =~= seq![
        raw(" "@),
        styled(app.owner_repo@, bold_colored(Color::Cyan)),
        raw(" "@),
    ]);
    r
}

/// The title of the preview: how far it is scrolled.
pub fn preview_title(app: &App<'_>) -> (r: String)
    ensures
        r@ == (if app.preview_scroll > 0 {
            " Preview (scroll: "@ + decimal(app.preview_scroll as nat) + ") "@
        } else {
            " Preview \u{2191}\u{2193}Tab "@
        }),
{
    if app.preview_scroll > 0 {
        let n = number(app.preview_scroll as u64);
        sentence(" Preview (scroll: ", &n, ") ")
    } else {
        String::from_str(" Preview \u{2191}\u{2193}Tab ")
    }
}

/// The lines of the preview pane for an entry.
pub open spec fn preview_lines(path: Seq<char>, state: Option<PreviewState>, url: Seq<char>) -> Seq<
    Seq<SpanView>,
> {
    seq![seq![styled(path, bold_colored(Color::Cyan))], seq![raw(""@)]] + (match state {
        Some(PreviewState::Loaded(content)) => seq![
            field_line("URL:         "@, url, underlined_colored(Color::Blue)),
            seq![raw(""@)],
        ] + content_lines(content@),
        Some(PreviewState::Failed) => seq![
            seq![styled("\u{2717} Preview not available"@, colored(Color::Red))],
        ],
        _ => seq![seq![styled("\u{25cb} Loading preview..."@, colored(Color::Yellow))]],
    })
}

fn build_loaded_preview_lines(content: &PreviewContent, url: &str) -> (r: Vec<Line>)
    ensures
        line_views(r@) == seq![
            field_line("URL:         "@, url@, underlined_colored(Color::Blue)),
            seq![raw(""@)],
        ] + content_lines(content@),
{
    let mut out: Vec<Line> = Vec::new();
    assert(line_views(out@) =~= Seq::empty());
    push_line(&mut out, field("URL:         ", url, Style::underlined_fg(Color::Blue)));
    push_line(&mut out, Line::raw(""));
    append_lines(&mut out, build_skill_content_lines(content));
    assert(line_views(out@) =~= seq![
        field_line("URL:         "@, url@, underlined_colored(Color::Blue)),
        seq![raw(""@)],
    ] + content_lines(content@));
    out
}

/// Builds the lines of the preview pane for an entry.
pub fn build_preview_lines(path: &str, state: Option<&PreviewState>, url: &str) -> (r: Vec<Line>)
    ensures
        line_views(r@) == preview_lines(
            path@,
            match state {
                Some(s) => Some(*s),
                None => None,
            },
            url@,
        ),
{
    let mut out: Vec<Line> = Vec::new();
    assert(line_views(out@) =~= Seq::empty());
    push_line(&mut out, Line::one(Span::styled(path, Style::bold_fg(Color::Cyan))));
    push_line(&mut out, Line::raw(""));
    match state {
        Some(PreviewState::Loaded(content)) => {
            append_lines(&mut out, build_loaded_preview_lines(content, url));
        },
        Some(PreviewState::Failed) => {
            push_line(
                &mut out,
                Line::one(Span::styled("\u{2717} Preview not available", Style::fg(Color::Red))),
            );
        },
        _ => {
            push_line(
                &mut out,
                Line::one(Span::styled("\u{25cb} Loading preview...", Style::fg(Color::Yellow))),
            );
        },
    }
    assert(line_views(out@) =~= preview_lines(
        path@,
        match state {
            Some(s) => Some(*s),
            None => None,
        },
        url@,
    ));
    out
}

/// The lines of the preview pane.
pub fn draw_preview(app: &App<'_>) -> (r: Vec<Line>)
    ensures
        match highlighted(app.state()) {
            Some(i) if i < app.items@.len() => line_views(r@) == preview_lines(
                app.items@[i as int]@,
                app.preview_cache.at(app.items@[i as int]@),
                github_url(app.owner_repo@, app.ref_@, app.items@[i as int]@),
            ),
            _ => line_views(r@) == seq![
                seq![styled("No entries match the filter."@, colored(Color::DarkGray))],
            ],
        },
{
    match app.highlighted_path() {
        Some(path) => {
            let url = build_github_url(&app.owner_repo, &app.ref_, path);
            build_preview_lines(path, app.preview_cache.get(path), &url)
        },
        None => {
            let mut out: Vec<Line> = Vec::new();
            push_line(
                &mut out,
                Line::one(Span::styled("No entries match the filter.", Style::fg(Color::DarkGray))),
            );
            assert(line_views(out@) =~= seq![
                seq![styled("No entries match the filter."@, colored(Color::DarkGray))],
            ]);
            out
        },
    }
}

} // verus!
