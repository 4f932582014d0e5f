//! How the files of a repository are matched with a name, and what is shown of a search.

use vstd::prelude::*;
use crate::commands::add_tui::{github_url, is_md, parent_part, preview_path};
use crate::commands::search::{
    asks_registry, entry_path, is_ranking, last_part, meta_parts, ranked_paths, resolve_skill_path,
    result_lines, results_lines, score_of, table, table_footer, with_score, MatchScore, PathStep,
    Ranked, SLUG_PREFIX,
};
use crate::numbers::decimal;
use crate::parser_laws::law_file_name;
use crate::paths::last_index;
use crate::registry::{RegistryId, SearchResponse, SearchResult};
use crate::text::{
    ascii_lower, ends_with, has_text, join, lower_char, occurs_at, pad_to, starts_with, texts,
};

verus! {

// ---------------------------------------------------------------------------
// Paths in a repository
// ---------------------------------------------------------------------------

proof fn lemma_last_index(before: Seq<char>, c: char, behind: Seq<char>)
    requires
        !behind.contains(c),
    ensures
        last_index(before.push(c) + behind, c) == before.len(),
        last_index(behind, c) == -1,
    decreases behind.len(),
{
    let s = before.push(c) + behind;
    if behind.len() > 0 {
        let init = behind.drop_last();
        assert(s.last() == behind.last());
        assert(behind.contains(behind[behind.len() - 1]));
        assert(s.drop_last() =~= before.push(c) + init);
        assert forall|i: int| 0 <= i < init.len() implies init[i] != c by {
            assert(behind.contains(behind[i]));
        }
        lemma_last_index(before, c, init);
    } else {
        assert(s =~= before.push(c));
    }
}

/// The last part of a path is what follows its last slash.
pub proof fn law_last_part(dir: Seq<char>, name: Seq<char>)
    requires
        !name.contains('/'),
    ensures
        last_part(dir.push('/') + name) == name,
        last_part(name) == name,
{
    lemma_last_index(dir, '/', name);
    assert((dir.push('/') + name).skip(dir.len() as int + 1) =~= name);
    assert(name.skip(0) =~= name);
}

/// Whether two texts differ at most in the case of ASCII letters.
pub open spec fn same_letters(a: Seq<char>, b: Seq<char>) -> bool {
    a.len() == b.len() && forall|i: int|
        0 <= i < a.len() ==> lower_char(#[trigger] a[i]) == lower_char(b[i])
}

proof fn lemma_same_letters(a: Seq<char>, b: Seq<char>)
    ensures
        same_letters(a, b) <==> ascii_lower(a) == ascii_lower(b),
{
    let x = ascii_lower(a);
    let y = ascii_lower(b);
    assert(x.len() == a.len());
    assert(y.len() == b.len());
    if x == y {
        assert forall|i: int| 0 <= i < a.len() implies lower_char(#[trigger] a[i]) == lower_char(
            b[i],
        ) by {
            assert(x[i] == lower_char(a[i]));
            assert(y[i] == lower_char(b[i]));
        }
    }
    if same_letters(a, b) {
        assert forall|i: int| 0 <= i < a.len() implies x[i] == y[i] by {
            assert(lower_char(a[i]) == lower_char(b[i]));
        }
        assert(x =~= y);
    }
}

/// A file that is called `SKILL.md`, whatever the case, stands for its directory, and for the whole
/// repository where it is at the root. Any other file stands for itself.
pub proof fn law_skill_file_stands_for_its_directory(dir: Seq<char>, name: Seq<char>)
    requires
        !name.contains('/'),
    ensures
        same_letters(name, "SKILL.md"@) ==> entry_path(dir.push('/') + name) == dir && entry_path(
            name,
        ) == "."@,
        !same_letters(name, "SKILL.md"@) ==> entry_path(dir.push('/') + name) == dir.push('/')
            + name && entry_path(name) == name,
{
    law_last_part(dir, name);
    lemma_last_index(dir, '/', name);
    lemma_same_letters(name, "SKILL.md"@);
    assert((dir.push('/') + name).take(dir.len() as int) =~= dir);
}

/// A path leads to a Markdown file exactly where the last ending of its name is `md`, whatever the
/// case and in whatever directory.
pub proof fn law_markdown_files(dir: Seq<char>, stem: Seq<char>, ext: Seq<char>)
    requires
        stem.len() > 0,
        !stem.contains('/'),
        !ext.contains('/'),
        !ext.contains('.'),
        stem.push('.') + ext != ".."@,
    ensures
        is_md(dir + "/"@ + (stem.push('.') + ext)) <==> same_letters(ext, "md"@),
        is_md(stem.push('.') + ext) <==> same_letters(ext, "md"@),
{
    let name = stem.push('.') + ext;
    reveal_strlit(".");
    assert forall|i: int| 0 <= i < name.len() implies name[i] != '/' by {
        if i < stem.len() {
            assert(stem.contains(stem[i]));
        } else if i > stem.len() {
            assert(ext.contains(ext[i - stem.len() - 1]));
        }
    }
    assert(name.len() >= 2);
    law_file_name(dir, name);
    lemma_last_index(stem, '.', ext);
    assert(name.skip(stem.len() as int + 1) =~= ext);
    lemma_same_letters(ext, "md"@);
}

/// What is fetched to preview an entry is the file that stands for it: a Markdown file itself, and
/// else the `SKILL.md` of its directory.
pub proof fn law_preview_stands_for_the_entry(path: Seq<char>)
    ensures
        is_md(path) ==> preview_path(path) == path,
        !is_md(path) ==> entry_path(preview_path(path)) == path,
{
    let name = "SKILL.md"@;
    reveal_strlit("SKILL.md");
    reveal_strlit("/SKILL.md");
    reveal_strlit(".");
    assert(!name.contains('/'));
    assert forall|i: int| 0 <= i < name.len() implies lower_char(#[trigger] name[i]) == lower_char(
        name[i],
    ) by {}
    law_skill_file_stands_for_its_directory(path, name);
    assert(path + "/SKILL.md"@ =~= path.push('/') + name);
}

/// The page of an entry leads to its repository and its ref, and to its path unless it is the root:
/// as a file where it is a Markdown file, and as a directory else.
pub proof fn law_pages_of_entries(owner_repo: Seq<char>, ref_: Seq<char>, path: Seq<char>)
    ensures
        ({
            let url = github_url(owner_repo, ref_, path);
            let repo = "https://github.com/"@ + owner_repo;
            &&& path == "."@ ==> url == repo + "/tree/"@ + ref_
            &&& path != "."@ && is_md(path) ==> url == repo + "/blob/"@ + ref_ + "/"@ + path
            &&& path != "."@ && !is_md(path) ==> url == repo + "/tree/"@ + ref_ + "/"@ + path
        }),
{
}

/// A row of the list of entries shows the last part of a path, and in which directory it is.
pub proof fn law_parent_part(dir: Seq<char>, name: Seq<char>)
    requires
        !name.contains('/'),
    ensures
        parent_part(dir.push('/') + name) == dir.push('/'),
        parent_part(name).len() == 0,
{
    lemma_last_index(dir, '/', name);
    assert((dir.push('/') + name).take(dir.len() as int + 1) =~= dir.push('/'));
}

// ---------------------------------------------------------------------------
// Matching a name
// ---------------------------------------------------------------------------

proof fn lemma_lower_path(dir: Seq<char>, name: Seq<char>)
    requires
        !name.contains('/'),
    ensures
        ascii_lower(dir.push('/') + name) == ascii_lower(dir).push('/') + ascii_lower(name),
        !ascii_lower(name).contains('/'),
{
    assert(ascii_lower(dir.push('/') + name) =~= ascii_lower(dir).push('/') + ascii_lower(name));
    let l = ascii_lower(name);
    assert forall|i: int| 0 <= i < l.len() implies l[i] != '/' by {
        assert(name.contains(name[i]));
        lemma_lower_is_a_letter(name[i]);
    }
}

proof fn lemma_lower_is_a_letter(c: char)
    ensures
        lower_char(c) == '/' <==> c == '/',
        lower_char(c) == '.' <==> c == '.',
{
    if 'A' <= c && c <= 'Z' {
        let n: u32 = c as u32;
        assert(97 <= n + 32 <= 122);
    }
}

/// A file matches a name exactly where it is called so, with or without `.md`, whatever the case of
/// its letters and in whatever directory it is.
pub proof fn law_exact_match(dir: Seq<char>, file: Seq<char>, name: Seq<char>)
    requires
        !file.contains('/'),
    ensures
        ({
            let ends = file.len() >= 3 && same_letters(file.skip(file.len() - 3), ".md"@);
            let exact = same_letters(file, name + ".md"@) || (same_letters(file, name) && !ends);
            &&& score_of(dir.push('/') + file, name) == Some(MatchScore::Exact) <==> exact
            &&& score_of(file, name) == Some(MatchScore::Exact) <==> exact
        }),
{
    let n = ascii_lower(name);
    let f = ascii_lower(file);
    let md = ".md"@;
    lemma_lower_path(dir, file);
    law_last_part(ascii_lower(dir), f);
    reveal_strlit(".md");
    assert(ascii_lower(md) =~= md);
    assert(ascii_lower(name + md) =~= n + md);
    lemma_same_letters(file, name + md);
    lemma_same_letters(file, name);
    if file.len() >= 3 {
        let e = file.skip(file.len() - 3);
        lemma_same_letters(e, md);
        assert(ascii_lower(e) =~= f.subrange(f.len() - 3, f.len() as int));
        assert(ends_with(f, md) <==> same_letters(e, md));
    }
    if same_letters(file, name + md) {
        assert(f.subrange(f.len() - 3, f.len() as int) =~= md);
        assert(f.take(f.len() - 3) =~= n);
    } else if ends_with(f, md) && f.take(f.len() - 3) == n {
        assert(f =~= n + md);
    }
}

/// A path without an exact match matches a name where the name stands in it anywhere, whatever the
/// case, and else it does not match.
pub proof fn law_loose_match(path: Seq<char>, name: Seq<char>)
    ensures
        score_of(path, name) is None ==> !has_text(ascii_lower(path), ascii_lower(name)),
        score_of(path, name) == Some(MatchScore::Contains) ==> has_text(
            ascii_lower(path),
            ascii_lower(name),
        ),
        has_text(path, name) ==> score_of(path, name) is Some,
{
    if has_text(path, name) {
        let i = choose|i: int| #[trigger] occurs_at(path, name, i);
        assert(ascii_lower(path).subrange(i, i + name.len()) =~= ascii_lower(name)) by {
            assert(path.subrange(i, i + name.len()) =~= name);
            assert forall|j: int| 0 <= j < name.len() implies path[i + j] == name[j] by {
                assert(path.subrange(i, i + name.len())[j] == name[j]);
            }
        }
        assert(occurs_at(ascii_lower(path), ascii_lower(name), i));
    }
}

/// Whether a path matches a name with a score.
pub open spec fn scores(name: Seq<char>, score: MatchScore) -> spec_fn(Seq<char>) -> bool {
    |p: Seq<char>| score_of(p, name) == Some(score)
}

proof fn lemma_with_score(paths: Seq<Seq<char>>, name: Seq<char>, score: MatchScore)
    ensures
        with_score(paths, name, score) == paths.filter(scores(name, score)),
    decreases paths.len(),
{
    reveal(Seq::filter);
    if paths.len() > 0 {
        lemma_with_score(paths.drop_last(), name, score);
    }
}

/// The ranking of paths holds every path that matches, the exact matches in front of the others, and
/// among equals in the order of the paths. It holds nothing else.
pub proof fn law_ranking(v: Seq<Ranked>, paths: Seq<Seq<char>>, name: Seq<char>)
    requires
        is_ranking(v, paths, name),
    ensures
        ranked_paths(v) == paths.filter(scores(name, MatchScore::Exact)) + paths.filter(
            scores(name, MatchScore::Contains),
        ),
        forall|i: int|
            0 <= i < v.len() ==> score_of((#[trigger] v[i]).path@, name) == Some(v[i].score),
        forall|i: int|
            0 <= i < v.len() ==> paths.contains((#[trigger] v[i]).path@),
{
    let exact = MatchScore::Exact;
    let other = MatchScore::Contains;
    lemma_with_score(paths, name, exact);
    lemma_with_score(paths, name, other);
    let a = paths.filter(scores(name, exact));
    let b = paths.filter(scores(name, other));
    let rp = ranked_paths(v);
    assert(rp.len() == v.len());
    assert forall|i: int| 0 <= i < v.len() implies score_of((#[trigger] v[i]).path@, name) == Some(
        v[i].score,
    ) && paths.contains(v[i].path@) by {
        assert(rp[i] == v[i].path@);
        if i < a.len() {
            assert(rp[i] == a[i]);
            assert(a.contains(a[i]));
            paths.lemma_filter_contains_rev(scores(name, exact), a[i]);
            lemma_filtered(paths, scores(name, exact), i);
        } else {
            assert(rp[i] == b[i - a.len()]);
            assert(b.contains(b[i - a.len()]));
            paths.lemma_filter_contains_rev(scores(name, other), b[i - a.len()]);
            lemma_filtered(paths, scores(name, other), i - a.len());
        }
    }
}

proof fn lemma_filtered(s: Seq<Seq<char>>, p: spec_fn(Seq<char>) -> bool, i: int)
    requires
        0 <= i < s.filter(p).len(),
    ensures
        p(s.filter(p)[i]),
    decreases s.len(),
{
    reveal(Seq::filter);
    if s.len() > 0 {
        let f = s.drop_last().filter(p);
        if i < f.len() {
            lemma_filtered(s.drop_last(), p, i);
        }
    }
}

/// Where the repository has no file the path is asked for. One file is taken whatever its name; of
/// several, the first that matches the name exactly. Where none does, the user picks: among the
/// files that match otherwise, or among all where none matches.
pub proof fn law_how_a_path_is_found(files: &Vec<String>, name: &str, r: PathStep)
    requires
        call_ensures(resolve_skill_path, (files, name), r),
    ensures
        r is Prompt <==> files@.len() == 0,
        files@.len() == 1 ==> (r matches PathStep::Take(p) && p@ == files@[0]@),
        r matches PathStep::Take(p) ==> exists|i: int|
            0 <= i < files@.len() && (#[trigger] files@[i])@ == p@ && (files@.len() == 1 || score_of(
                p@,
                name@,
            ) == Some(MatchScore::Exact)),
        r matches PathStep::Pick(l) ==> l@.len() > 0 && forall|i: int|
            0 <= i < files@.len() ==> score_of((#[trigger] files@[i])@, name@) != Some(
                MatchScore::Exact,
            ),
{
    let fs = texts(files@);
    assert(fs.len() == files@.len());
    let exact = with_score(fs, name@, MatchScore::Exact);
    let others = with_score(fs, name@, MatchScore::Contains);
    lemma_with_score(fs, name@, MatchScore::Exact);
    if fs.len() > 1 {
        if exact.len() > 0 {
            lemma_filtered(fs, scores(name@, MatchScore::Exact), 0);
            assert(exact.contains(exact[0]));
            fs.lemma_filter_contains_rev(scores(name@, MatchScore::Exact), exact[0]);
            let i = choose|i: int| 0 <= i < fs.len() && fs[i] == exact[0];
            assert(files@[i]@ == exact[0]);
        } else {
            assert forall|i: int| 0 <= i < files@.len() implies score_of(
                (#[trigger] files@[i])@,
                name@,
            ) != Some(MatchScore::Exact) by {
                if score_of(fs[i], name@) == Some(MatchScore::Exact) {
                    fs.lemma_filter_contains(scores(name@, MatchScore::Exact), i);
                }
            }
        }
    } else if fs.len() == 1 {
        assert(files@[0]@ == fs[0]);
    }
}

/// The registry is asked for the repository of a result exactly where the result names neither a
/// repository nor a path and its page is that of a slug at agentskill.sh.
pub proof fn law_when_the_registry_is_asked(item: SearchResult, slug: Seq<char>)
    requires
        item.url@ == "https://agentskill.sh/@"@ + slug,
    ensures
        asks_registry(item) <==> slug.len() > 0 && item.registry == RegistryId::AgentskillSh
            && item.source_repo is None && item.source_path is None,
        item.url@.skip(SLUG_PREFIX@.len() as int) == slug,
{
    let p = "https://agentskill.sh/@"@;
    assert(item.url@.subrange(0, p.len() as int) =~= p);
    assert(item.url@.skip(p.len() as int) =~= slug);
}

// ---------------------------------------------------------------------------
// The table of results
// ---------------------------------------------------------------------------

/// The results stand one below the other, in their order.
pub proof fn law_results_stand_in_order(a: Seq<SearchResult>, b: Seq<SearchResult>, single: bool)
    ensures
        results_lines(a + b, single) == results_lines(a, single) + results_lines(b, single),
    decreases b.len(),
{
    if b.len() == 0 {
        assert(a + b =~= a);
        assert(results_lines(a, single) + results_lines(b, single) =~= results_lines(a, single));
    } else {
        assert((a + b).drop_last() =~= a + b.drop_last());
        law_results_stand_in_order(a, b.drop_last(), single);
        assert(results_lines(a + b, single) =~= results_lines(a, single) + results_lines(b, single));
    }
}

proof fn lemma_stands_between(a: Seq<char>, x: Seq<char>, b: Seq<char>, p: Seq<char>)
    requires
        has_text(x, p),
    ensures
        has_text(a + x + b, p),
{
    let k = choose|k: int| #[trigger] occurs_at(x, p, k);
    let t = a + x + b;
    let at = a.len() + k;
    assert(t.subrange(at, at + p.len()) =~= x.subrange(k, k + p.len()));
    assert(occurs_at(t, p, at));
}

proof fn lemma_stands_in_itself(p: Seq<char>)
    ensures
        has_text(p, p),
{
    assert(p.subrange(0, p.len() as int) =~= p);
    assert(occurs_at(p, p, 0));
}

spec fn result_head(item: SearchResult, single: bool) -> Seq<char> {
    "  "@ + pad_to(item.name@, 24) + (if single {
        Seq::empty()
    } else {
        pad_to("["@ + item.registry.word() + "]"@, 16)
    })
}

spec fn result_tail(item: SearchResult) -> Seq<char> {
    "  "@ + pad_to(""@, 24) + item.url@ + "\n\n"@
}

proof fn lemma_meta_is_shown(item: SearchResult, single: bool, i: int)
    requires
        0 <= i < meta_parts(item).len(),
        meta_parts(item)[i].len() > 0,
    ensures
        has_text(result_lines(item, single), meta_parts(item)[i]),
{
    let t = result_lines(item, single);
    let parts = meta_parts(item);
    let meta = join(parts, "  "@);
    lemma_part_of_join(parts, "  "@, i);
    let k = choose|k: int| #[trigger] occurs_at(meta, parts[i], k);
    assert(meta.len() > 0);
    let desc = match item.description {
        Some(d) => d@,
        None => Seq::empty(),
    };
    let a = result_head(item, single) + desc + "\n"@ + ("  "@ + pad_to(""@, 24));
    let b = "\n"@ + result_tail(item);
    lemma_stands_between(a, meta, b, parts[i]);
    assert(t =~= a + meta + b);
}

/// The lines of a result start with its name and end with its address, and its description is there.
pub proof fn law_result_is_shown(item: SearchResult, single: bool)
    ensures
        starts_with(result_lines(item, single), "  "@ + item.name@),
        ends_with(result_lines(item, single), item.url@ + "\n\n"@),
        item.description matches Some(d) ==> has_text(result_lines(item, single), d@),
{
    let t = result_lines(item, single);
    let url = item.url@ + "\n\n"@;
    let name = "  "@ + item.name@;
    assert(t.subrange(0, name.len() as int) =~= name);
    assert(t.subrange(t.len() - url.len(), t.len() as int) =~= url);
    if let Some(d) = item.description {
        let meta = join(meta_parts(item), "  "@);
        let b = "\n"@ + (if meta.len() == 0 {
            Seq::empty()
        } else {
            "  "@ + pad_to(""@, 24) + meta + "\n"@
        }) + result_tail(item);
        lemma_stands_in_itself(d@);
        lemma_stands_between(result_head(item, single), d@, b, d@);
        assert(t =~= result_head(item, single) + d@ + b);
    }
}

proof fn lemma_stands_at(a: Seq<char>, x: Seq<char>, b: Seq<char>)
    ensures
        occurs_at(a + x + b, x, a.len() as int),
{
    let t = a + x + b;
    assert(t.subrange(a.len() as int, (a.len() + x.len()) as int) =~= x);
}

/// Names of twenty-four characters at most stand in a column. Behind it comes the description where
/// one registry was asked, and else the registry between brackets.
pub proof fn law_columns_of_results(item: SearchResult)
    requires
        item.name@.len() <= 24,
        item.description is Some,
    ensures
        occurs_at(result_lines(item, true), item.description->Some_0@, 26),
        occurs_at(result_lines(item, false), "["@ + item.registry.word() + "]"@, 26),
{
    let d = item.description->Some_0@;
    let meta = join(meta_parts(item), "  "@);
    let rest = "\n"@ + (if meta.len() == 0 {
        Seq::empty()
    } else {
        "  "@ + pad_to(""@, 24) + meta + "\n"@
    }) + result_tail(item);
    let name = "  "@ + pad_to(item.name@, 24);
    reveal_strlit("  ");
    assert(name.len() == 26);
    lemma_stands_at(name, d, rest);
    assert(result_lines(item, true) =~= name + d + rest);
    let tag = "["@ + item.registry.word() + "]"@;
    let gap = pad_to(tag, 16).skip(tag.len() as int);
    lemma_stands_at(name, tag, gap + d + rest);
    assert(pad_to(tag, 16) =~= tag + gap);
    assert(result_lines(item, false) =~= name + tag + (gap + d + rest));
}

/// What is known of a result is shown: its owner, its stars and its score.
pub proof fn law_known_facts_are_shown(item: SearchResult, single: bool)
    ensures
        item.owner@.len() > 0 ==> has_text(result_lines(item, single), "by "@ + item.owner@),
        item.stars matches Some(n) ==> has_text(
            result_lines(item, single),
            decimal(n as nat) + " stars"@,
        ),
        item.security_score matches Some(n) ==> has_text(
            result_lines(item, single),
            "score: "@ + decimal(n as nat) + "/100"@,
        ),
{
    let parts = meta_parts(item);
    reveal_strlit("by ");
    reveal_strlit(" stars");
    reveal_strlit("score: ");
    let o: int = if item.owner@.len() > 0 {
        1
    } else {
        0
    };
    if item.owner@.len() > 0 {
        assert(parts[0] =~= "by "@ + item.owner@);
        lemma_meta_is_shown(item, single, 0);
    }
    if let Some(n) = item.stars {
        assert(parts[o] =~= decimal(n as nat) + " stars"@);
        lemma_meta_is_shown(item, single, o);
    }
    if let Some(n) = item.security_score {
        assert(parts[parts.len() - 1] =~= "score: "@ + decimal(n as nat) + "/100"@);
        lemma_meta_is_shown(item, single, parts.len() - 1);
    }
}

proof fn lemma_part_of_join(parts: Seq<Seq<char>>, sep: Seq<char>, i: int)
    requires
        0 <= i < parts.len(),
    ensures
        has_text(join(parts, sep), parts[i]),
    decreases parts.len(),
{
    let j = join(parts, sep);
    if parts.len() == 1 {
        assert(j.subrange(0, j.len() as int) =~= parts[i]);
        assert(occurs_at(j, parts[i], 0));
    } else if i == parts.len() - 1 {
        let k = j.len() - parts[i].len();
        assert(j.subrange(k, j.len() as int) =~= parts[i]);
        assert(occurs_at(j, parts[i], k));
    } else {
        let init = parts.drop_last();
        lemma_part_of_join(init, sep, i);
        assert(init[i] == parts[i]);
        let k = choose|k: int| #[trigger] occurs_at(join(init, sep), parts[i], k);
        assert(j.subrange(k, k + parts[i].len()) =~= join(init, sep).subrange(
            k,
            k + parts[i].len(),
        ));
        assert(occurs_at(j, parts[i], k));
    }
}

/// The line below the results starts with how many there are. It names the total exactly where more
/// were found than are shown, and the registry where only one was asked.
pub proof fn law_footer_counts(n: nat, total: nat, single: Option<Seq<char>>)
    ensures
        starts_with(table_footer(n, total, single), decimal(n)),
        total > n ==> table_footer(n, total, single) == decimal(n) + (if n == 1 {
            " result"@
        } else {
            " results"@
        }) + " shown ("@ + decimal(total) + " total, "@ + (match single {
            Some(name) => "via "@ + name,
            None => "across all registries"@,
        }) + ")\n"@,
        total <= n ==> table_footer(n, total, single) == table_footer(n, n, single),
        single matches Some(name) ==> ends_with(
            table_footer(n, total, single),
            "via "@ + name + ")\n"@,
        ),
        single is None ==> ends_with(
            table_footer(n, total, single),
            "across all registries)\n"@,
        ),
        n == 1 && total <= n ==> starts_with(table_footer(n, total, single), decimal(n) + " result ("@),
        n != 1 && total <= n ==> starts_with(table_footer(n, total, single), decimal(n) + " results ("@),
{
    let t = table_footer(n, total, single);
    reveal_strlit("across all registries)\n");
    reveal_strlit("across all registries");
    reveal_strlit(")\n");
    reveal_strlit(" shown (");
    reveal_strlit("shown (");
    reveal_strlit(" result");
    reveal_strlit(" results");
    reveal_strlit(" result (");
    reveal_strlit(" results (");
    reveal_strlit(" (");
    assert(t.subrange(0, decimal(n).len() as int) =~= decimal(n));
    match single {
        Some(name) => {
            let e = "via "@ + name + ")\n"@;
            assert(t.subrange(t.len() - e.len(), t.len() as int) =~= e);
        },
        None => {
            let e = "across all registries)\n"@;
            assert(t.subrange(t.len() - e.len(), t.len() as int) =~= e);
        },
    }
    if total > n {
    } else if n == 1 {
        let p = decimal(n) + " result ("@;
        assert(t.subrange(0, p.len() as int) =~= p);
    } else {
        let p = decimal(n) + " results ("@;
        assert(t.subrange(0, p.len() as int) =~= p);
    }
}

/// Without a result the table says so; else it is the results and the line below them.
pub proof fn law_table(resp: SearchResponse, single: Option<Seq<char>>)
    ensures
        resp.items@.len() == 0 ==> table(resp, single) == "No results found.\n"@,
        resp.items@.len() > 0 ==> table(resp, single) == results_lines(
            resp.items@,
            single is Some,
        ) + table_footer(resp.items@.len(), resp.total as nat, single),
{
}

} // verus!
