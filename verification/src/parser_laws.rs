//! What the lines of a manifest declare, by their words.

use vstd::prelude::*;
use crate::commands::files::is_cache_file;
use crate::lines::{split_at_char, words};
use crate::manifest_laws::{lemma_declared_add, lemma_declared_one, lemma_manifest_parts};
use crate::models::{EntityType, Scope, SourceView, TargetView};
use crate::numbers::decimal;
use crate::parser::{
    before_comment, has_name, inferred_name, law_unquoted_fields_are_words, line_fields,
    line_meaning, line_warning, manifest_of_lines, name_char, valid_name, LineView,
};
use crate::paths::{file_name_of, last_index, named_parts, stem_of};
use crate::text::{alphanumeric, ends_with, lemma_until_char, trim_both, until_char};

verus! {

/// Whether a word starts a comment.
pub open spec fn is_mark(w: Seq<char>) -> bool {
    w.len() > 0 && w[0] == '#'
}

/// Whether a line without quotes consists of given words, behind which a comment may stand.
pub open spec fn holds_words(raw: Seq<char>, ws: Seq<Seq<char>>) -> bool {
    let line = trim_both(raw);
    let all = words(line);
    &&& !line.contains('"')
    &&& line.len() > 0
    &&& line[0] != '#'
    &&& ws.is_prefix_of(all)
    &&& forall|i: int| 0 <= i < ws.len() ==> !is_mark(#[trigger] ws[i])
    &&& ws.len() < all.len() ==> is_mark(all[ws.len() as int])
}

/// Whether a name can stand in a manifest: it is not empty and consists of letters, digits, dots,
/// hyphens and underscores.
pub open spec fn fit_name(name: Seq<char>) -> bool {
    name.len() > 0 && forall|i: int|
        0 <= i < name.len() ==> alphanumeric(#[trigger] name[i]) || name[i] == '.' || name[i] == '-'
            || name[i] == '_'
}

/// A name is valid exactly where it can stand in a manifest.
pub proof fn law_valid_names(name: Seq<char>)
    ensures
        valid_name(name) <==> fit_name(name),
{
    if valid_name(name) {
        assert forall|i: int| 0 <= i < name.len() implies alphanumeric(#[trigger] name[i])
            || name[i] == '.' || name[i] == '-' || name[i] == '_' by {
            assert(name_char(name[i]));
        }
    }
}

proof fn lemma_before_mark(all: Seq<Seq<char>>, n: int)
    requires
        0 <= n <= all.len(),
        forall|i: int| 0 <= i < n ==> !is_mark(#[trigger] all[i]),
        n < all.len() ==> is_mark(all[n]),
    ensures
        before_comment(all) == n,
    decreases n,
{
    if n > 0 {
        assert(!is_mark(all[0]));
        let rest = all.skip(1);
        assert forall|i: int| 0 <= i < n - 1 implies !is_mark(#[trigger] rest[i]) by {
            assert(rest[i] == all[i + 1]);
        }
        lemma_before_mark(rest, n - 1);
    }
}

proof fn lemma_holds_words(raw: Seq<char>, ws: Seq<Seq<char>>)
    requires
        holds_words(raw, ws),
    ensures
        line_fields(trim_both(raw)) == ws,
{
    let line = trim_both(raw);
    let all = words(line);
    law_unquoted_fields_are_words(line);
    assert forall|i: int| 0 <= i < ws.len() implies !is_mark(#[trigger] all[i]) by {
        assert(all[i] == ws[i]);
    }
    lemma_before_mark(all, ws.len() as int);
    assert(line_fields(line) =~= ws);
}

proof fn lemma_keywords()
    ensures
        "github"@ != "install"@,
        "local"@ != "install"@,
        "url"@ != "install"@,
        "github"@ != "local"@,
        "github"@ != "url"@,
        "local"@ != "url"@,
        "skill"@ != "agent"@,
        "global"@ != "local"@,
{
    reveal_strlit("github");
    reveal_strlit("local");
    reveal_strlit("url");
    reveal_strlit("install");
    reveal_strlit("skill");
    reveal_strlit("agent");
    reveal_strlit("global");
    assert("skill"@[0] != "agent"@[0]);
    assert("global"@[0] != "local"@[0]);
    assert("github"@[0] == 'g' && "install"@[0] == 'i' && "local"@[0] == 'l' && "url"@[0] == 'u');
}

proof fn lemma_names()
    ensures
        forall|n: Seq<char>| #[trigger] valid_name(n) <==> fit_name(n),
{
    assert forall|n: Seq<char>| #[trigger] valid_name(n) <==> fit_name(n) by {
        law_valid_names(n);
    }
}

/// The word for an entity type.
pub open spec fn type_word(t: EntityType) -> Seq<char> {
    match t {
        EntityType::Skill => "skill"@,
        EntityType::Agent => "agent"@,
    }
}

/// A GitHub line with a name declares an entry with that name, of the repository and the path that
/// follow it. A sixth field is its ref, whatever the name and the path are; without one the ref is
/// `main`. Further fields change nothing.
pub proof fn law_named_github_line(raw: Seq<char>, ws: Seq<Seq<char>>, t: EntityType)
    requires
        holds_words(raw, ws),
        ws.len() >= 5,
        ws[0] == "github"@,
        ws[1] == type_word(t),
        !ws[2].contains('/'),
        fit_name(ws[2]),
    ensures
        line_meaning(raw) matches LineView::Entry(e) && e.entity_type == t && e.name == ws[2] && (
        e.source matches SourceView::Github { owner_repo, path_in_repo, ref_ } && owner_repo
            == ws[3] && path_in_repo == ws[4] && (ws.len() == 5 ==> ref_ == "main"@) && (ws.len()
            > 5 ==> ref_ == ws[5])),
{
    lemma_holds_words(raw, ws);
    lemma_keywords();
    lemma_names();
}

/// A GitHub line without a name declares an entry of the repository and the path that follow the
/// type, with the name that the path gives it. A fifth field is its ref; without one the ref is
/// `main`.
pub proof fn law_unnamed_github_line(raw: Seq<char>, ws: Seq<Seq<char>>, t: EntityType)
    requires
        holds_words(raw, ws),
        ws.len() >= 4,
        ws[0] == "github"@,
        ws[1] == type_word(t),
        ws[2].contains('/'),
        fit_name(inferred_name(ws[3])),
    ensures
        line_meaning(raw) matches LineView::Entry(e) && e.entity_type == t && e.name
            == inferred_name(ws[3]) && (e.source matches SourceView::Github {
            owner_repo,
            path_in_repo,
            ref_,
        } && owner_repo == ws[2] && path_in_repo == ws[3] && (ws.len() == 4 ==> ref_ == "main"@) && (
        ws.len() > 4 ==> ref_ == ws[4])),
{
    lemma_holds_words(raw, ws);
    lemma_keywords();
    lemma_names();
}

/// A local line declares the path behind the name. Where what follows the type is a path already,
/// by a slash or by its ending, it is the path, and the name is what the path gives.
pub proof fn law_local_line(raw: Seq<char>, ws: Seq<Seq<char>>, t: EntityType)
    requires
        holds_words(raw, ws),
        ws.len() >= 3,
        ws[0] == "local"@,
        ws[1] == type_word(t),
    ensures
        ({
            let is_path = ws[2].contains('/') || ends_with(ws[2], ".md"@);
            let m = line_meaning(raw);
            &&& is_path && fit_name(inferred_name(ws[2])) ==> (m matches LineView::Entry(e)
                && e.entity_type == t && e.name == inferred_name(ws[2])
                && e.source == (SourceView::Local { path: ws[2] }))
            &&& !is_path && ws.len() > 3 && fit_name(ws[2]) ==> (m matches LineView::Entry(e)
                && e.entity_type == t && e.name == ws[2] && e.source == (SourceView::Local { path: ws[3] }))
            &&& !is_path && ws.len() == 3 ==> m is Warning
        }),
{
    lemma_holds_words(raw, ws);
    lemma_keywords();
    lemma_names();
}

/// A URL line declares the address behind the name. Where what follows the type starts with `http`,
/// it is the address, and the name is what the address gives.
pub proof fn law_url_line(raw: Seq<char>, ws: Seq<Seq<char>>, t: EntityType)
    requires
        holds_words(raw, ws),
        ws.len() >= 3,
        ws[0] == "url"@,
        ws[1] == type_word(t),
    ensures
        ({
            let is_url = ws[2].len() >= 4 && ws[2].take(4) == "http"@;
            let m = line_meaning(raw);
            &&& is_url && fit_name(inferred_name(ws[2])) ==> (m matches LineView::Entry(e)
                && e.entity_type == t && e.name == inferred_name(ws[2])
                && e.source == (SourceView::Url { url: ws[2] }))
            &&& !is_url && ws.len() > 3 && fit_name(ws[2]) ==> (m matches LineView::Entry(e)
                && e.entity_type == t && e.name == ws[2] && e.source == (SourceView::Url { url: ws[3] }))
            &&& !is_url && ws.len() == 3 ==> m is Warning
        }),
{
    lemma_holds_words(raw, ws);
    lemma_keywords();
    lemma_names();
    reveal_strlit("http");
    if ws[2].len() >= 4 {
        assert(ws[2].take(4) =~= ws[2].subrange(0, 4));
    }
}

/// An install line declares a target: the adapter first, then the scope, which is one of two words.
pub proof fn law_install_line(raw: Seq<char>, ws: Seq<Seq<char>>)
    requires
        holds_words(raw, ws),
        ws.len() >= 2,
        ws[0] == "install"@,
    ensures
        ({
            let m = line_meaning(raw);
            &&& ws.len() >= 3 && ws[2] == "global"@ ==> m == LineView::Target(
                TargetView { adapter: ws[1], scope: Scope::Global },
            )
            &&& ws.len() >= 3 && ws[2] == "local"@ ==> m == LineView::Target(
                TargetView { adapter: ws[1], scope: Scope::Local },
            )
            &&& m is Warning <==> ws.len() == 2 || (ws[2] != "global"@ && ws[2] != "local"@)
        }),
{
    lemma_holds_words(raw, ws);
    lemma_keywords();
    lemma_names();
}

/// An entry comes only of a line that names a source, a type and what the source asks for, and a
/// target only of an install line. Every other line with words gets a warning.
pub proof fn law_what_a_line_needs(raw: Seq<char>, ws: Seq<Seq<char>>)
    requires
        holds_words(raw, ws),
    ensures
        !(line_meaning(raw) is Nothing),
        line_meaning(raw) is Target ==> ws.len() >= 3 && ws[0] == "install"@,
        line_meaning(raw) matches LineView::Entry(e) ==> {
            &&& ws.len() >= 3
            &&& ws[1] == type_word(e.entity_type)
            &&& fit_name(e.name)
            &&& match e.source {
                SourceView::Github { owner_repo, path_in_repo, ref_ } => ws[0] == "github"@
                    && ws.len() >= 4 && (ws[2].contains('/') || ws.len() >= 5),
                SourceView::Local { path } => ws[0] == "local"@,
                SourceView::Url { url } => ws[0] == "url"@,
            }
        },
{
    lemma_holds_words(raw, ws);
    lemma_keywords();
    lemma_names();
}

// ---------------------------------------------------------------------------
// Names that paths give
// ---------------------------------------------------------------------------

proof fn lemma_last_part(dir: Seq<char>, name: Seq<char>)
    requires
        !name.contains('/'),
    ensures
        split_at_char(dir + "/"@ + name, '/').len() > 0,
        split_at_char(dir + "/"@ + name, '/').last() == name,
        split_at_char(name, '/') == seq![name],
    decreases dir.len(),
{
    reveal_strlit("/");
    let path = dir + "/"@ + name;
    lemma_until_char(path, '/');
    lemma_until_char(name, '/');
    if until_char(name, '/') < name.len() {
        assert(name.contains(name[until_char(name, '/') as int]));
    }
    let k = until_char(path, '/') as int;
    assert(path[dir.len() as int] == '/');
    let rest = path.skip(k + 1);
    if k == dir.len() {
        assert(rest =~= name);
    } else {
        assert(rest =~= dir.skip(k + 1) + "/"@ + name);
        lemma_last_part(dir.skip(k + 1), name);
    }
    let tail = split_at_char(rest, '/');
    assert(split_at_char(path, '/').last() == tail.last());
}

proof fn lemma_last_dot(stem: Seq<char>, ext: Seq<char>)
    requires
        !ext.contains('.'),
    ensures
        last_index(stem + "."@ + ext, '.') == stem.len(),
    decreases ext.len(),
{
    reveal_strlit(".");
    let s = stem + "."@ + ext;
    if ext.len() > 0 {
        assert(s.last() == ext.last());
        assert(ext.contains(ext[ext.len() - 1]));
        assert(s.drop_last() =~= stem + "."@ + ext.drop_last());
        assert forall|i: int| 0 <= i < ext.drop_last().len() implies ext.drop_last()[i] != '.' by {
            assert(ext.contains(ext[i]));
        }
        lemma_last_dot(stem, ext.drop_last());
    } else {
        assert(s.last() == '.');
    }
}

/// The name that a path gives is the name of its file without the last ending, in whatever
/// directory the file is.
pub proof fn law_path_gives_the_name(dir: Seq<char>, stem: Seq<char>, ext: Seq<char>)
    requires
        stem.len() > 0,
        stem != "."@,
        !stem.contains('/'),
        !ext.contains('/'),
        !ext.contains('.'),
    ensures
        inferred_name(dir + "/"@ + (stem + "."@ + ext)) == stem,
        inferred_name(stem + "."@ + ext) == stem,
{
    reveal_strlit(".");
    reveal_strlit("..");
    let name = stem + "."@ + ext;
    assert(!name.contains('/')) by {
        assert forall|i: int| 0 <= i < name.len() implies name[i] != '/' by {
            if i < stem.len() {
                assert(stem.contains(stem[i]));
            } else if i > stem.len() {
                assert(ext.contains(ext[i - stem.len() - 1]));
            }
        }
    }
    lemma_last_dot(stem, ext);
    assert(name.take(stem.len() as int) =~= stem);
    assert(stem_of(name) == stem);
    assert(name.len() >= 2);
    assert(name != "."@);
    assert(name != ".."@) by {
        if name == ".."@ {
            assert(name[0] == '.');
            assert(stem =~= "."@);
        }
    }
    law_file_name(dir, name);
}

proof fn lemma_no_dot(s: Seq<char>)
    requires
        forall|i: int| 0 < i < s.len() ==> s[i] != '.',
    ensures
        last_index(s, '.') <= 0,
    decreases s.len(),
{
    if s.len() > 1 {
        let init = s.drop_last();
        assert(s.last() == s[s.len() - 1]);
        assert forall|i: int| 0 < i < init.len() implies init[i] != '.' by {
            assert(init[i] == s[i]);
        }
        lemma_no_dot(init);
    } else if s.len() == 1 && s.last() != '.' {
        assert(s.drop_last() =~= Seq::empty());
        assert(last_index(Seq::empty(), '.') == -1);
        assert(last_index(s, '.') == last_index(s.drop_last(), '.'));
    }
}

/// A file or directory whose name has no ending gives its whole name; a dot in front is no ending.
pub proof fn law_name_without_an_ending(dir: Seq<char>, name: Seq<char>)
    requires
        name.len() > 0,
        !name.contains('/'),
        name != "."@,
        forall|i: int| 0 < i < name.len() ==> name[i] != '.',
    ensures
        inferred_name(dir + "/"@ + name) == name,
        inferred_name(name) == name,
{
    reveal_strlit("..");
    assert(name != ".."@) by {
        if name == ".."@ {
            assert(name[1] == '.');
        }
    }
    law_file_name(dir, name);
    lemma_no_dot(name);
}

/// A path that leads to no file by name gives the name `content`.
pub proof fn law_nameless_paths(dir: Seq<char>)
    ensures
        file_name_of(dir) is None ==> inferred_name(dir) == "content"@,
        inferred_name(dir + "/"@ + ".."@) == "content"@,
        inferred_name(Seq::empty()) == "content"@,
{
    reveal_strlit("..");
    reveal_strlit(".");
    let name = ".."@;
    assert(name.len() == 2);
    assert(!name.contains('/'));
    lemma_last_part(dir, name);
    let none = Seq::<char>::empty();
    lemma_last_part(dir, none);
    let parts = seq![none];
    assert(parts.drop_last() =~= Seq::empty());
    assert(named_parts(parts.drop_last()) =~= Seq::empty());
    assert(named_parts(parts) =~= Seq::empty());
    assert(file_name_of(none) is None);
}

/// The name of a file is the last part of its path, in whatever directory it is.
pub proof fn law_file_name(dir: Seq<char>, name: Seq<char>)
    requires
        !name.contains('/'),
        name.len() > 0,
        name != "."@,
        name != ".."@,
    ensures
        file_name_of(dir + "/"@ + name) == Some(name),
        file_name_of(name) == Some(name),
{
    lemma_last_part(dir, name);
    let parts = seq![name];
    assert(parts.drop_last() =~= Seq::empty());
    assert(named_parts(parts.drop_last()) =~= Seq::empty());
    assert(named_parts(parts) =~= seq![name]);
}

/// A file in the cache is one of upstream whatever its name, unless it is the tool's own notes.
pub proof fn law_notes_are_not_upstream(dir: Seq<char>, name: Seq<char>)
    requires
        !name.contains('/'),
        name.len() > 0,
        name != "."@,
        name != ".."@,
    ensures
        is_cache_file(dir + "/"@ + name) <==> name != ".meta"@,
        is_cache_file(name) <==> name != ".meta"@,
{
    law_file_name(dir, name);
}

// ---------------------------------------------------------------------------
// Manifests of many lines
// ---------------------------------------------------------------------------

/// Each line declares what it declares wherever it stands, and what lines declare stands in their
/// order: a line between others adds its own entry or target between theirs.
pub proof fn law_lines_declare_in_order(a: Seq<Seq<char>>, raw: Seq<char>, b: Seq<Seq<char>>)
    ensures
        ({
            let before = manifest_of_lines(a);
            let behind = manifest_of_lines(b);
            let m = manifest_of_lines(a + seq![raw] + b);
            &&& m.entries == before.entries + (match line_meaning(raw) {
                LineView::Entry(e) => seq![e],
                _ => Seq::empty(),
            }) + behind.entries
            &&& m.install_targets == before.install_targets + (match line_meaning(raw) {
                LineView::Target(t) => seq![t],
                _ => Seq::empty(),
            }) + behind.install_targets
        }),
{
    lemma_manifest_parts(a);
    lemma_manifest_parts(b);
    lemma_manifest_parts(a + seq![raw] + b);
    lemma_declared_one(raw);
    lemma_declared_add(a, seq![raw]);
    lemma_declared_add(a + seq![raw], b);
}

/// A line is warned about under its own number, counted from one: with its fault, or as a duplicate
/// where an earlier line declares an entry of the same name. A line without either adds no warning.
pub proof fn law_warnings_name_their_line(ls: Seq<Seq<char>>, raw: Seq<char>)
    ensures
        ({
            let before = manifest_of_lines(ls);
            let after = manifest_of_lines(ls.push(raw));
            let n = ls.len() + 1;
            match line_meaning(raw) {
                LineView::Warning(w) => after.warnings == before.warnings.push(
                    "warning: line "@ + decimal(n) + ": "@ + w,
                ),
                LineView::Entry(e) => if exists|i: int|
                    0 <= i < before.entries.len() && (#[trigger] before.entries[i]).name == e.name {
                    after.warnings == before.warnings.push(
                        "warning: line "@ + decimal(n) + ": duplicate entry name '"@ + e.name + "'"@,
                    )
                } else {
                    after.warnings == before.warnings
                },
                _ => after.warnings == before.warnings,
            }
        }),
{
    assert(ls.push(raw).drop_last() =~= ls);
    let before = manifest_of_lines(ls);
    let after = manifest_of_lines(ls.push(raw));
    if let LineView::Entry(e) = line_meaning(raw) {
        if has_name(before.entries, e.name) {
            reveal_strlit(": ");
            reveal_strlit("duplicate entry name '");
            reveal_strlit(": duplicate entry name '");
            let n = ls.len() + 1;
            assert(line_warning(n, "duplicate entry name '"@ + e.name + "'"@) =~= "warning: line "@
                + decimal(n) + ": duplicate entry name '"@ + e.name + "'"@);
        }
    }
}

} // verus!
