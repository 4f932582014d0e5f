//! Searching the registries.

use vstd::prelude::*;
use vstd::string::StringExecFns;
use crate::commands::common::{copy_texts, push_text, sentence};
use crate::error::SkillfileError;
use crate::numbers::{decimal, number, size_number};
use crate::paths::{last_index, rindex};
use crate::registry::{RegistryId, SearchResponse, SearchResult};
use crate::text::{
    after_prefix, ascii_lower, contains_text, ends, ends_with, has_text, join, join_all, opt_text,
    pad_to, padded, same, slice_string, starts_with, texts, to_ascii_lower, to_chars,
};

verus! {

// ---------------------------------------------------------------------------
// Where a skill is found in its repository
// ---------------------------------------------------------------------------

/// The last part of a path.
pub open spec fn last_part(path: Seq<char>) -> Seq<char> {
    path.skip(last_index(path, '/') + 1)
}

/// The last part of a path.
pub fn last_part_of(path: &str) -> (r: String)
    ensures
        r@ == last_part(path@),
{
    let v = to_chars(path);
    let n: usize = v.len();
    let from: usize = match rindex(&v, '/') {
        Some(i) => i + 1,
        None => 0,
    };
    let r = slice_string(&v, from, n);
    assert(r@ =~= last_part(path@));
    r
}

/// The path of an entry for a file in a repository: the directory of a `SKILL.md`, `.` for one at
/// the root, and any other file itself.
pub open spec fn entry_path(github_path: Seq<char>) -> Seq<char> {
    if ascii_lower(last_part(github_path)) == ascii_lower("SKILL.md"@) {
        let k = last_index(github_path, '/');
        if k >= 0 {
            github_path.take(k)
        } else {
            "."@
        }
    } else {
        github_path
    }
}

/// The path of an entry for a file in a repository.
pub fn entry_path_from_github_path(github_path: &str) -> (r: String)
    ensures
        r@ == entry_path(github_path@),
{
    let name = to_ascii_lower(&last_part_of(github_path));
    let wanted = to_ascii_lower("SKILL.md");
    if same(&name, &wanted) {
        let v = to_chars(github_path);
        match rindex(&v, '/') {
            Some(i) => {
                let r = slice_string(&v, 0, i);
                assert(r@ =~= github_path@.take(i as int));
                r
            },
            None => String::from_str("."),
        }
    } else {
        github_path.to_owned()
    }
}

/// How well a path matches a name.
#[derive(Debug, Clone, Copy, PartialEq, Eq, Structural)]
pub enum MatchScore {
    Exact,
    Contains,
}

/// A path without a final `.md`.
pub open spec fn without_md(tail: Seq<char>) -> Seq<char> {
    if ends_with(tail, ".md"@) {
        tail.take(tail.len() - 3)
    } else {
        tail
    }
}

/// How well a path matches a name, whatever the case of ASCII letters: exactly where its last part,
/// without `.md`, is the name; and else where the name stands in it.
pub open spec fn score_of(path: Seq<char>, name: Seq<char>) -> Option<MatchScore> {
    let p = ascii_lower(path);
    let n = ascii_lower(name);
    if without_md(last_part(p)) == n {
        Some(MatchScore::Exact)
    } else if has_text(p, n) {
        Some(MatchScore::Contains)
    } else {
        None
    }
}

/// The paths that match a name with a score, in order.
pub open spec fn with_score(paths: Seq<Seq<char>>, name: Seq<char>, score: MatchScore) -> Seq<
    Seq<char>,
>
    decreases paths.len(),
{
    if paths.len() == 0 {
        paths
    } else if score_of(paths.last(), name) == Some(score) {
        with_score(paths.drop_last(), name, score).push(paths.last())
    } else {
        with_score(paths.drop_last(), name, score)
    }
}

fn score_path(path: &str, name: &str) -> (r: Option<MatchScore>)
    ensures
        r == score_of(path@, name@),
{
    let path_lower = to_ascii_lower(path);
    let name_lower = to_ascii_lower(name);
    let tail = last_part_of(&path_lower);
    proof {
        reveal_strlit(".md");
    }
    let key = if ends(&tail, ".md") {
        let v = to_chars(&tail);
        let s = slice_string(&v, 0, v.len() - 3);
        assert(s@ =~= tail@.take(tail@.len() - 3));
        s
    } else {
        tail
    };
    if same(&key, &name_lower) {
        Some(MatchScore::Exact)
    } else if contains_text(&path_lower, &name_lower) {
        Some(MatchScore::Contains)
    } else {
        None
    }
}

/// A path and how well it matches.
#[derive(Debug)]
pub struct Ranked {
    pub path: String,
    pub score: MatchScore,
}

/// The paths of a list of ranked paths.
pub open spec fn ranked_paths(v: Seq<Ranked>) -> Seq<Seq<char>> {
    v.map_values(|r: Ranked| r.path@)
}

fn push_with_score(out: &mut Vec<Ranked>, paths: &Vec<String>, name: &str, score: MatchScore)
    ensures
        ranked_paths(final(out)@) == ranked_paths(old(out)@) + with_score(
            texts(paths@),
            name@,
            score,
        ),
        final(out)@.len() >= old(out)@.len(),
        forall|i: int|
            0 <= i < old(out)@.len() ==> #[trigger] final(out)@[i].score == old(out)@[i].score,
        forall|i: int|
            old(out)@.len() <= i < final(out)@.len() ==> #[trigger] final(out)@[i].score == score,
{
    let ghost ps = texts(paths@);
    let ghost before = ranked_paths(out@);
    let ghost first = out@;
    let mut i: usize = 0;
    assert(before + with_score(ps.take(0), name@, score) =~= before);
    while i < paths.len()
        invariant
            ps == texts(paths@),
            i <= paths@.len(),
            ranked_paths(out@) == before + with_score(ps.take(i as int), name@, score),
            out@.len() >= first.len(),
            forall|j: int| 0 <= j < first.len() ==> #[trigger] out@[j].score == first[j].score,
            forall|j: int| first.len() <= j < out@.len() ==> #[trigger] out@[j].score == score,
        decreases paths@.len() - i,
    {
        assert(ps.take(i + 1).drop_last() =~= ps.take(i as int));
        assert(ps.take(i + 1).last() == paths@[i as int]@);
        if let Some(s) = score_path(&paths[i], name) {
            if s == score {
                let ghost mid = out@;
                out.push(Ranked { path: paths[i].clone(), score });
                assert(ranked_paths(out@) =~= ranked_paths(mid).push(paths@[i as int]@));
                assert(ranked_paths(out@) =~= before + with_score(
                    ps.take(i + 1),
                    name@,
                    score,
                ));
            }
        }
        i += 1;
    }
    assert(ps.take(i as int) =~= ps);
}

/// Whether a list of ranked paths is the exact matches of a name followed by the other ones.
pub open spec fn is_ranking(v: Seq<Ranked>, paths: Seq<Seq<char>>, name: Seq<char>) -> bool {
    let exact = with_score(paths, name, MatchScore::Exact);
    &&& ranked_paths(v) == exact + with_score(paths, name, MatchScore::Contains)
    &&& forall|i: int|
        0 <= i < v.len() ==> (#[trigger] v[i]).score == (if i < exact.len() {
            MatchScore::Exact
        } else {
            MatchScore::Contains
        })
}

/// Ranks paths by how well they match a name: exact matches first, then the others, each in the
/// order given; paths that do not match are left out.
pub fn rank_by_name(entries: &Vec<String>, skill_name: &str) -> (r: Vec<Ranked>)
    ensures
        is_ranking(r@, texts(entries@), skill_name@),
{
    let mut out: Vec<Ranked> = Vec::new();
    assert(ranked_paths(out@) =~= Seq::empty());
    push_with_score(&mut out, entries, skill_name, MatchScore::Exact);
    let ghost exact = with_score(texts(entries@), skill_name@, MatchScore::Exact);
    assert(ranked_paths(out@) =~= exact);
    assert(out@.len() == ranked_paths(out@).len());
    push_with_score(&mut out, entries, skill_name, MatchScore::Contains);
    out
}

/// What is to be done to find the path of a skill in its repository.
pub enum PathStep {
    /// Ask for the path.
    Prompt,
    /// Take this path.
    Take(String),
    /// Let the user pick one of these.
    Pick(Vec<String>),
}

/// Decides how the path of a skill is found: where the repository has no file it is asked for; the
/// only file, or the best exact match, is taken; else the user picks among the matches, or among
/// all files where none matches.
pub fn resolve_skill_path(md_files: &Vec<String>, skill_name: &str) -> (r: PathStep)
    ensures
        ({
            let fs = texts(md_files@);
            let exact = with_score(fs, skill_name@, MatchScore::Exact);
            let others = with_score(fs, skill_name@, MatchScore::Contains);
            if fs.len() == 0 {
                r is Prompt
            } else if fs.len() == 1 {
                r matches PathStep::Take(p) && p@ == fs[0]
            } else if exact.len() > 0 {
                r matches PathStep::Take(p) && p@ == exact[0]
            } else {
                r matches PathStep::Pick(l) && texts(l@) == (if others.len() == 0 {
                    fs
                } else {
                    others
                })
            }
        }),
{
    let ghost fs = texts(md_files@);
    assert(fs.len() == md_files@.len());
    if md_files.len() == 0 {
        return PathStep::Prompt;
    }
    if md_files.len() == 1 {
        return PathStep::Take(md_files[0].clone());
    }
    let ranked = rank_by_name(md_files, skill_name);
    let ghost exact = with_score(fs, skill_name@, MatchScore::Exact);
    let ghost others = with_score(fs, skill_name@, MatchScore::Contains);
    let ghost rp = ranked_paths(ranked@);
    assert(rp.len() == ranked@.len());
    if ranked.len() > 0 {
        assert(rp[0] == ranked@[0].path@);
        if ranked[0].score == MatchScore::Exact {
            return PathStep::Take(ranked[0].path.clone());
        }
    } else {
        assert(exact + others =~= Seq::empty());
        assert(exact.len() + others.len() == 0);
        return PathStep::Pick(copy_texts(md_files));
    }
    assert(exact.len() == 0);
    assert(rp =~= others);
    let mut list: Vec<String> = Vec::new();
    let mut i: usize = 0;
    while i < ranked.len()
        invariant
            rp == ranked_paths(ranked@),
            i <= ranked@.len(),
            texts(list@) == rp.take(i as int),
        decreases ranked@.len() - i,
    {
        push_text(&mut list, &ranked[i].path);
        assert(rp.take(i + 1) =~= rp.take(i as int).push(ranked@[i as int].path@));
        i += 1;
    }
    assert(rp.take(i as int) =~= rp);
    PathStep::Pick(list)
}

// ---------------------------------------------------------------------------
// The repository of a skill
// ---------------------------------------------------------------------------

/// A repository and a path in it, as far as they are known.
pub struct SourceCoords {
    pub repo: Option<String>,
    pub path: Option<String>,
}

/// What is to be done to find the repository of a search result.
pub enum CoordStep {
    /// It is known, or it is known that there is none.
    Known(SourceCoords),
    /// Ask the registry about this slug.
    Ask(String),
}

/// The start of the pages of skills at agentskill.sh.
pub const SLUG_PREFIX: &'static str = "https://agentskill.sh/@";

/// Whether the registry has to be asked for the repository of a search result.
pub open spec fn asks_registry(item: SearchResult) -> bool {
    item.registry == RegistryId::AgentskillSh && item.source_repo is None && item.source_path is None
        && starts_with(item.url@, SLUG_PREFIX@) && item.url@.len() > SLUG_PREFIX@.len()
}

/// Decides how the repository of a search result is found: for a result of agentskill.sh that names
/// none, by asking the registry about the slug of its page.
pub fn resolve_source_coords(item: &SearchResult) -> (r: CoordStep)
    ensures
        if asks_registry(*item) {
            r matches CoordStep::Ask(s) && s@ == item.url@.skip(SLUG_PREFIX@.len() as int)
        } else {
            r matches CoordStep::Known(c) && opt_text(c.repo) == opt_text(item.source_repo)
                && opt_text(c.path) == opt_text(item.source_path)
        },
{
    let unknown = item.registry == RegistryId::AgentskillSh && item.source_repo.is_none()
        && item.source_path.is_none();
    if unknown {
        if let Some(slug) = after_prefix(&item.url, SLUG_PREFIX) {
            if !slug.as_str().is_empty() {
                return CoordStep::Ask(slug);
            }
        }
    }
    CoordStep::Known(
        SourceCoords {
            repo: copy_opt(&item.source_repo),
            path: copy_opt(&item.source_path),
        },
    )
}

fn copy_opt(t: &Option<String>) -> (r: Option<String>)
    ensures
        opt_text(r) == opt_text(*t),
{
    match t {
        Some(s) => Some(s.clone()),
        None => None,
    }
}

/// What the registry knows of a slug.
pub struct GithubMeta {
    pub source_repo: String,
    pub source_path: String,
}

/// The repository of a search result, by what the registry answered about its slug, and by what its
/// page says where it did not: a page may name no path.
pub fn coords_from_answers(detail: Option<GithubMeta>, page: Option<GithubMeta>) -> (r:
    SourceCoords)
    ensures
        match (detail, page) {
            (Some(m), _) => opt_text(r.repo) == Some(m.source_repo@) && opt_text(r.path) == Some(
                m.source_path@,
            ),
            (None, Some(m)) => opt_text(r.repo) == Some(m.source_repo@) && opt_text(r.path) == (
            if m.source_path@.len() == 0 {
                None
            } else {
                Some(m.source_path@)
            }),
            (None, None) => r.repo is None && r.path is None,
        },
{
    if let Some(m) = detail {
        return SourceCoords { repo: Some(m.source_repo), path: Some(m.source_path) };
    }
    match page {
        Some(m) => {
            let path = if m.source_path.as_str().is_empty() {
                None
            } else {
                Some(m.source_path)
            };
            SourceCoords { repo: Some(m.source_repo), path }
        },
        None => SourceCoords { repo: None, path: None },
    }
}

/// What is shown of a selected result before further questions.
pub open spec fn selection_text(url: Seq<char>, repo: Option<Seq<char>>) -> Seq<char> {
    "\n  "@ + url + "\n"@ + (match repo {
        Some(r) => "  source: "@ + r + "\n"@,
        None => Seq::empty(),
    }) + "\n"@
}

/// What to do with a selected result.
pub struct Selection {
    /// What is shown first.
    pub shown: String,
    /// Whether the repository could not be found, so that nothing can be added.
    pub unresolved: bool,
}

/// Decides what to do with a selected result whose repository was looked for.
pub fn interactive_select(item: &SearchResult, coords: &SourceCoords) -> (r: Selection)
    ensures
        r.shown@ == selection_text(item.url@, opt_text(coords.repo)),
        r.unresolved == (coords.repo is None && coords.path is None && item.registry
            == RegistryId::AgentskillSh),
{
    let mut s = sentence("\n  ", &item.url, "\n");
    let ghost start = s@;
    if let Some(repo) = &coords.repo {
        let line = sentence("  source: ", repo, "\n");
        s.append(&line);
        assert(s@ =~= start + ("  source: "@ + repo@ + "\n"@));
    } else {
        assert(s@ =~= start + Seq::<char>::empty());
    }
    s.append("\n");
    Selection {
        shown: s,
        unresolved: coords.repo.is_none() && coords.path.is_none() && item.registry
            == RegistryId::AgentskillSh,
    }
}

/// What the user answered to a question.
pub enum Prompt {
    Answer(String),
    Canceled,
    Interrupted,
    Failed(String),
}

/// The answer; `None` where the user gave up; an error where the question could not be put.
pub fn prompt_result(answer: Prompt) -> (r: Result<Option<String>, SkillfileError>)
    ensures
        match answer {
            Prompt::Answer(s) => r == Ok::<Option<String>, SkillfileError>(Some(s)),
            Prompt::Canceled => r == Ok::<Option<String>, SkillfileError>(None),
            Prompt::Interrupted => r == Ok::<Option<String>, SkillfileError>(None),
            Prompt::Failed(e) => r matches Err(SkillfileError::Install(m)) && m@
                == "prompt failed: "@ + e@,
        },
{
    match answer {
        Prompt::Answer(s) => Ok(Some(s)),
        Prompt::Canceled => Ok(None),
        Prompt::Interrupted => Ok(None),
        Prompt::Failed(e) => {
            let mut m: String = String::from_str("prompt failed: ");
            m.append(&e);
            Err(SkillfileError::Install(m))
        },
    }
}

// ---------------------------------------------------------------------------
// Plain text output
// ---------------------------------------------------------------------------

/// How the results of a search are shown.
#[derive(Debug, Clone, Copy, PartialEq, Eq, Structural)]
pub enum SearchOutput {
    Json,
    Interactive,
    Table,
}

/// What is searched for, and how the results are shown.
pub struct SearchConfig<'a> {
    pub query: &'a str,
    pub limit: usize,
    pub min_score: Option<u8>,
    pub json: bool,
    pub registry: Option<&'a str>,
    pub no_interactive: bool,
    pub repo_root: &'a str,
}

/// Decides how the results of a search are shown: interactively only at a terminal, and where there
/// are results.
pub fn cmd_search(cfg: &SearchConfig<'_>, is_tty: bool, resp: &SearchResponse) -> (r: SearchOutput)
    ensures
        r == (if cfg.json {
            SearchOutput::Json
        } else if !cfg.no_interactive && is_tty && resp.items@.len() > 0 {
            SearchOutput::Interactive
        } else {
            SearchOutput::Table
        }),
{
    if cfg.json {
        SearchOutput::Json
    } else if !cfg.no_interactive && is_tty && resp.items.len() > 0 {
        SearchOutput::Interactive
    } else {
        SearchOutput::Table
    }
}

/// What is known of a result besides its name and description.
pub open spec fn meta_parts(item: SearchResult) -> Seq<Seq<char>> {
    (if item.owner@.len() > 0 {
        seq!["by "@ + item.owner@]
    } else {
        Seq::empty()
    }) + (match item.stars {
        Some(n) => seq![decimal(n as nat) + " stars"@],
        None => Seq::empty(),
    }) + (match item.security_score {
        Some(n) => seq!["score: "@ + decimal(n as nat) + "/100"@],
        None => Seq::empty(),
    })
}

/// The owner, the stars and the score of a result, as far as they are known.
pub fn build_meta_line(item: &SearchResult) -> (r: String)
    ensures
        r@ == join(meta_parts(*item), "  "@),
{
    let mut parts: Vec<String> = Vec::new();
    if !item.owner.as_str().is_empty() {
        let mut s: String = String::from_str("by ");
        s.append(&item.owner);
        push_text(&mut parts, &s);
    }
    if let Some(stars) = item.stars {
        let mut s = number(stars);
        s.append(" stars");
        push_text(&mut parts, &s);
    }
    if let Some(score) = item.security_score {
        let mut s: String = String::from_str("score: ");
        let d = number(score as u64);
        s.append(&d);
        s.append("/100");
        push_text(&mut parts, &s);
    }
    assert(texts(parts@) =~= meta_parts(*item));
    join_all(&parts, "  ")
}

/// The lines of a result. The registry is shown where several were asked.
pub open spec fn result_lines(item: SearchResult, single: bool) -> Seq<char> {
    let desc = match item.description {
        Some(d) => d@,
        None => Seq::empty(),
    };
    let meta = join(meta_parts(item), "  "@);
    "  "@ + pad_to(item.name@, 24) + (if single {
        Seq::empty()
    } else {
        pad_to("["@ + item.registry.word() + "]"@, 16)
    }) + desc + "\n"@ + (if meta.len() == 0 {
        Seq::empty()
    } else {
        "  "@ + pad_to(""@, 24) + meta + "\n"@
    }) + ("  "@ + pad_to(""@, 24) + item.url@ + "\n\n"@)
}

fn append_result(out: &mut String, item: &SearchResult, single: bool)
    ensures
        final(out)@ == old(out)@ + result_lines(*item, single),
{
    let ghost before = out@;
    let mut s: String = String::from_str("  ");
    let name = padded(&item.name, 24);
    s.append(&name);
    let ghost a = s@;
    if !single {
        let tag = sentence("[", item.registry.as_str(), "]");
        let tag = padded(&tag, 16);
        s.append(&tag);
    } else {
        assert(s@ =~= a + Seq::<char>::empty());
    }
    let ghost b = s@;
    if let Some(d) = &item.description {
        s.append(d);
    } else {
        assert(s@ =~= b + Seq::<char>::empty());
    }
    s.append("\n");
    let ghost c = s@;
    let meta = build_meta_line(item);
    let gap = padded("", 24);
    if !meta.as_str().is_empty() {
        let line = sentence("  ", &gap, &meta);
        s.append(&line);
        s.append("\n");
        assert(s@ =~= c + ("  "@ + gap@ + meta@ + "\n"@));
    } else {
        assert(s@ =~= c + Seq::<char>::empty());
    }
    let ghost d = s@;
    let mut line = sentence("  ", &gap, &item.url);
    line.append("\n\n");
    s.append(&line);
    assert(s@ =~= d + ("  "@ + gap@ + item.url@ + "\n\n"@));
    out.append(&s);
    assert(out@ =~= before + result_lines(*item, single));
}

/// The lines of all results.
pub open spec fn results_lines(items: Seq<SearchResult>, single: bool) -> Seq<char>
    decreases items.len(),
{
    if items.len() == 0 {
        Seq::empty()
    } else {
        results_lines(items.drop_last(), single) + result_lines(items.last(), single)
    }
}

/// The line below the results: how many are shown, of how many, and where they come from.
pub open spec fn table_footer(n: nat, total: nat, single: Option<Seq<char>>) -> Seq<char> {
    let word = if n == 1 {
        " result"@
    } else {
        " results"@
    };
    let label = match single {
        Some(name) => "via "@ + name,
        None => "across all registries"@,
    };
    if total > n {
        decimal(n) + word + " shown ("@ + decimal(total) + " total, "@ + label + ")\n"@
    } else {
        decimal(n) + word + " ("@ + label + ")\n"@
    }
}

/// The table of results.
pub open spec fn table(resp: SearchResponse, single: Option<Seq<char>>) -> Seq<char> {
    if resp.items@.len() == 0 {
        "No results found.\n"@
    } else {
        results_lines(resp.items@, single is Some) + table_footer(
            resp.items@.len(),
            resp.total as nat,
            single,
        )
    }
}

/// Makes the table of results; `single_registry` is the registry that alone was asked.
pub fn print_table(resp: &SearchResponse, single_registry: Option<&str>) -> (r: String)
    ensures
        r@ == table(
            *resp,
            match single_registry {
                Some(s) => Some(s@),
                None => None,
            },
        ),
{
    if resp.items.len() == 0 {
        return String::from_str("No results found.\n");
    }
    let ghost items = resp.items@;
    let single = single_registry.is_some();
    let mut out: String = String::new();
    let mut i: usize = 0;
    assert(out@ =~= results_lines(items.take(0), single));
    while i < resp.items.len()
        invariant
            items == resp.items@,
            i <= items.len(),
            out@ == results_lines(items.take(i as int), single),
        decreases items.len() - i,
    {
        assert(items.take(i + 1).drop_last() =~= items.take(i as int));
        assert(items.take(i + 1).last() == items[i as int]);
        append_result(&mut out, &resp.items[i], single);
        i += 1;
    }
    assert(items.take(i as int) =~= items);
    let n: usize = resp.items.len();
    let mut footer = size_number(n);
    footer.append(
        if n == 1 {
            " result"
        } else {
            " results"
        },
    );
    let label = match single_registry {
        Some(name) => {
            let mut l: String = String::from_str("via ");
            l.append(name);
            l
        },
        None => String::from_str("across all registries"),
    };
    if resp.total > n {
        footer.append(" shown (");
        let t = size_number(resp.total);
        footer.append(&t);
        footer.append(" total, ");
    } else {
        footer.append(" (");
    }
    footer.append(&label);
    footer.append(")\n");
    out.append(&footer);
    out
}

} // verus!
