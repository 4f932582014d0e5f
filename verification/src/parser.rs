//! The manifest format: one entry or install target per line.

use vstd::prelude::*;
use vstd::string::StringExecFns;
use vstd::utf8::{decode_utf8, encode_utf8, valid_utf8};
use crate::error::SkillfileError;
use crate::lines::{lines, plain_lines, words, lemma_word_len_is};
use crate::models::{
    entry_views, target_views, EntityType, Entry, EntryView, InstallTarget, Manifest, ManifestView,
    Scope, SourceFields, SourceView, TargetView, DEFAULT_REF,
};
use crate::numbers::{decimal, size_number};
use crate::paths::{file_name, file_name_of, file_stem, stem_of};
use crate::text::{
    alphanumeric, contains_char, ends, ends_with, same, slice_string, starts, starts_with, texts,
    to_chars, trim_both, trimmed, white_space,
};

verus! {

/// The name of the manifest file.
pub const MANIFEST_NAME: &'static str = "Skillfile";

// ---------------------------------------------------------------------------
// Names
// ---------------------------------------------------------------------------

/// The name an entry gets from its path or address: the stem of the file name, or `content`.
pub open spec fn inferred_name(path: Seq<char>) -> Seq<char> {
    match file_name_of(path) {
        None => "content"@,
        Some(n) => if stem_of(n).len() == 0 || stem_of(n) == "."@ {
            "content"@
        } else {
            stem_of(n)
        },
    }
}

/// Infers the name of an entry from its path or address.
pub fn infer_name(path_or_url: &str) -> (r: String)
    ensures
        r@ == inferred_name(path_or_url@),
{
    match file_name(path_or_url) {
        None => String::from_str("content"),
        Some(n) => {
            let stem = file_stem(&n);
            if stem.as_str().is_empty() || same(&stem, ".") {
                String::from_str("content")
            } else {
                stem
            }
        },
    }
}

/// Whether a character may stand in a name.
pub open spec fn name_char(c: char) -> bool {
    alphanumeric(c) || c == '.' || c == '-' || c == '_'
}

/// Whether a name is safe as a file name.
pub open spec fn valid_name(name: Seq<char>) -> bool {
    name.len() > 0 && forall|i: int| 0 <= i < name.len() ==> name_char(#[trigger] name[i])
}

/// Whether a name is safe as a file name: letters, digits, dots, hyphens and underscores.
pub fn is_valid_name(name: &str) -> (r: bool)
    ensures
        r == valid_name(name@),
{
    let v = to_chars(name);
    if v.len() == 0 {
        return false;
    }
    let mut i: usize = 0;
    while i < v.len()
        invariant
            v@ == name@,
            i <= v@.len(),
            forall|j: int| 0 <= j < i ==> name_char(#[trigger] v@[j]),
        decreases v@.len() - i,
    {
        let c = v[i];
        if !(c.is_alphanumeric() || c == '.' || c == '-' || c == '_') {
            assert(!name_char(name@[i as int]));
            return false;
        }
        i += 1;
    }
    true
}

// ---------------------------------------------------------------------------
// Fields of a line
// ---------------------------------------------------------------------------

/// A text as a list: nothing for an empty one.
pub open spec fn field_of(current: Seq<char>) -> Seq<Seq<char>> {
    if current.len() > 0 {
        seq![current]
    } else {
        Seq::empty()
    }
}

/// The fields of the rest of a line, where `current` has been read of the next one.
pub open spec fn fields_from(current: Seq<char>, in_quotes: bool, rest: Seq<char>) -> Seq<Seq<char>>
    decreases rest.len(),
{
    if rest.len() == 0 {
        field_of(current)
    } else if rest[0] == '"' {
        fields_from(current, !in_quotes, rest.skip(1))
    } else if white_space(rest[0]) && !in_quotes {
        field_of(current) + fields_from(Seq::empty(), in_quotes, rest.skip(1))
    } else {
        fields_from(current.push(rest[0]), in_quotes, rest.skip(1))
    }
}

/// The fields of a line: separated by white space, except between double quotes.
pub open spec fn fields(line: Seq<char>) -> Seq<Seq<char>> {
    fields_from(Seq::empty(), false, line)
}

/// Splits a line into its fields.
pub fn split_line(line: &str) -> (r: Vec<String>)
    ensures
        texts(r@) == fields(line@),
{
    let v = to_chars(line);
    let mut parts: Vec<String> = Vec::new();
    let mut current: String = String::new();
    let mut in_quotes: bool = false;
    let mut i: usize = 0;
    assert(line@.skip(0) =~= line@);
    assert(texts(parts@) + fields(line@) =~= fields(line@));
    while i < v.len()
        invariant
            v@ == line@,
            i <= v@.len(),
            texts(parts@) + fields_from(current@, in_quotes, line@.skip(i as int)) == fields(line@),
        decreases v@.len() - i,
    {
        let ch = v[i];
        let ghost rest = line@.skip(i as int);
        let ghost before = texts(parts@);
        assert(rest[0] == ch);
        assert(rest.skip(1) =~= line@.skip(i + 1));
        if ch == '"' {
            in_quotes = !in_quotes;
        } else if ch.is_whitespace() && !in_quotes {
            if !current.as_str().is_empty() {
                let ghost done = current@;
                parts.push(current);
                assert(texts(parts@) =~= before.push(done));
                current = String::new();
                assert(texts(parts@) + fields_from(Seq::empty(), false, line@.skip(i + 1))
                    =~= before + (field_of(done) + fields_from(
                    Seq::empty(),
                    false,
                    line@.skip(i + 1),
                )));
            } else {
                assert(current@ =~= Seq::empty());
                assert(field_of(current@) + fields_from(Seq::empty(), false, line@.skip(i + 1))
                    =~= fields_from(Seq::empty(), false, line@.skip(i + 1)));
            }
        } else {
            current.push(ch);
        }
        i += 1;
    }
    assert(line@.skip(i as int).len() == 0);
    let ghost before = texts(parts@);
    if !current.as_str().is_empty() {
        let ghost done = current@;
        parts.push(current);
        assert(texts(parts@) =~= before.push(done));
        assert(texts(parts@) =~= before + field_of(done));
    } else {
        assert(texts(parts@) =~= before + field_of(current@));
    }
    parts
}

/// How many fields there are before the first that starts a comment.
pub open spec fn before_comment(parts: Seq<Seq<char>>) -> nat
    decreases parts.len(),
{
    if parts.len() == 0 || (parts[0].len() > 0 && parts[0][0] == '#') {
        0
    } else {
        1 + before_comment(parts.skip(1))
    }
}

/// The fields before a comment.
pub open spec fn without_comment(parts: Seq<Seq<char>>) -> Seq<Seq<char>> {
    parts.take(before_comment(parts) as int)
}

/// Takes a comment off the fields of a line.
pub fn strip_inline_comment(parts: Vec<String>) -> (r: Vec<String>)
    ensures
        texts(r@) == without_comment(texts(parts@)),
{
    let ghost ps = texts(parts@);
    let mut out: Vec<String> = Vec::new();
    let mut i: usize = 0;
    assert(ps.skip(0) =~= ps);
    assert(texts(out@) =~= ps.take(0));
    while i < parts.len() && !starts_comment(&parts[i])
        invariant
            ps == texts(parts@),
            i <= parts@.len(),
            before_comment(ps) == i + before_comment(ps.skip(i as int)),
            texts(out@) == ps.take(i as int),
        decreases parts@.len() - i,
    {
        let ghost before = texts(out@);
        assert(ps.skip(i as int)[0] == parts@[i as int]@);
        assert(ps.skip(i as int).skip(1) =~= ps.skip(i + 1));
        out.push(parts[i].clone());
        assert(texts(out@) =~= before.push(parts@[i as int]@));
        assert(ps.take(i + 1) =~= before.push(parts@[i as int]@));
        i += 1;
    }
    proof {
        if i < parts@.len() {
            assert(ps.skip(i as int)[0] == parts@[i as int]@);
        }
    }
    out
}

fn starts_comment(s: &str) -> (r: bool)
    ensures
        r == (s@.len() > 0 && s@[0] == '#'),
{
    let v = to_chars(s);
    v.len() > 0 && v[0] == '#'
}

/// The fields of a line before a comment.
pub open spec fn line_fields(line: Seq<char>) -> Seq<Seq<char>> {
    without_comment(fields(line))
}

/// A line without quotes splits at its white space.
pub proof fn law_unquoted_fields_are_words(line: Seq<char>)
    requires
        !line.contains('"'),
    ensures
        fields(line) == words(line),
{
    lemma_unquoted(Seq::empty(), line);
    assert(Seq::<char>::empty() + line =~= line);
}

proof fn lemma_unquoted(current: Seq<char>, rest: Seq<char>)
    requires
        forall|i: int| 0 <= i < current.len() ==> !white_space(#[trigger] current[i]),
        !rest.contains('"'),
    ensures
        fields_from(current, false, rest) == words(current + rest),
    decreases rest.len(),
{
    let s = current + rest;
    if rest.len() == 0 {
        assert(s =~= current);
        if current.len() > 0 {
            lemma_word_len_is(s, s.len() as int);
            assert(s.take(s.len() as int) =~= s);
            assert(words(s.skip(s.len() as int)) =~= Seq::empty());
            assert(words(s) =~= seq![s]);
        }
    } else {
        assert(rest.contains(rest[0]));
        let tail = rest.skip(1);
        assert(!tail.contains('"')) by {
            if tail.contains('"') {
                let k = choose|k: int| 0 <= k < tail.len() && tail[k] == '"';
                assert(rest[k + 1] == '"');
            }
        }
        if white_space(rest[0]) {
            lemma_unquoted(Seq::empty(), tail);
            assert(Seq::<char>::empty() + tail =~= tail);
            if current.len() > 0 {
                assert(s[current.len() as int] == rest[0]);
                lemma_word_len_is(s, current.len() as int);
                assert(s.take(current.len() as int) =~= current);
                assert(s.skip(current.len() as int) =~= rest);
                assert(words(s) == seq![current] + words(rest));
            } else {
                assert(s =~= rest);
                assert(field_of(current) + words(tail) =~= words(tail));
            }
        } else {
            lemma_unquoted(current.push(rest[0]), tail);
            assert(current.push(rest[0]) + tail =~= s);
        }
    }
}

/// A text without white space and quotes is read as it is into the field in which it stands.
pub proof fn lemma_plain_start(current: Seq<char>, w: Seq<char>, rest: Seq<char>)
    requires
        forall|i: int| 0 <= i < w.len() ==> !white_space(#[trigger] w[i]) && w[i] != '"',
    ensures
        fields_from(current, false, w + rest) == fields_from(current + w, false, rest),
    decreases w.len(),
{
    if w.len() == 0 {
        assert(w + rest =~= rest);
        assert(current + w =~= current);
    } else {
        let tail = w.skip(1);
        assert forall|i: int| 0 <= i < tail.len() implies !white_space(#[trigger] tail[i]) && tail[i]
            != '"' by {
            assert(tail[i] == w[i + 1]);
        }
        assert(!white_space(w[0]) && w[0] != '"');
        lemma_plain_start(current.push(w[0]), tail, rest);
        assert((w + rest).skip(1) =~= tail + rest);
        assert(current.push(w[0]) + tail =~= current + w);
    }
}

/// A quoted text is read as it is into the field in which it stands, white space and all.
pub proof fn law_quoted_text_is_kept(current: Seq<char>, quoted: Seq<char>, rest: Seq<char>)
    requires
        !quoted.contains('"'),
    ensures
        fields_from(current, false, seq!['"'] + quoted + seq!['"'] + rest) == fields_from(
            current + quoted,
            false,
            rest,
        ),
{
    let s = seq!['"'] + quoted + seq!['"'] + rest;
    assert(s[0] == '"');
    assert(s.skip(1) =~= quoted + (seq!['"'] + rest));
    lemma_in_quotes(current, quoted, seq!['"'] + rest);
    assert((seq!['"'] + rest).skip(1) =~= rest);
}

proof fn lemma_in_quotes(current: Seq<char>, quoted: Seq<char>, rest: Seq<char>)
    requires
        !quoted.contains('"'),
    ensures
        fields_from(current, true, quoted + rest) == fields_from(current + quoted, true, rest),
    decreases quoted.len(),
{
    if quoted.len() == 0 {
        assert(quoted + rest =~= rest);
        assert(current + quoted =~= current);
    } else {
        assert(quoted.contains(quoted[0]));
        let tail = quoted.skip(1);
        assert(!tail.contains('"')) by {
            if tail.contains('"') {
                let k = choose|k: int| 0 <= k < tail.len() && tail[k] == '"';
                assert(quoted[k + 1] == '"');
            }
        }
        assert((quoted + rest)[0] == quoted[0]);
        assert((quoted + rest).skip(1) =~= tail + rest);
        lemma_in_quotes(current.push(quoted[0]), tail, rest);
        assert(current.push(quoted[0]) + tail =~= current + quoted);
    }
}

// ---------------------------------------------------------------------------
// Entries
// ---------------------------------------------------------------------------

/// The field at a position, or a default where the line ends before it.
pub open spec fn field_or(parts: Seq<Seq<char>>, i: int, default_text: Seq<char>) -> Seq<char> {
    if i < parts.len() {
        parts[i]
    } else {
        default_text
    }
}

/// What the fields of a GitHub line say, or what they lack. A third field with a slash is the
/// repository, and the name is inferred; else it is the name.
pub open spec fn github_entry(t: EntityType, parts: Seq<Seq<char>>) -> Result<
    EntryView,
    Seq<char>,
> {
    if parts[2].contains('/') {
        if parts.len() < 4 {
            Err("github entry needs at least: owner/repo path"@)
        } else {
            Ok(
                EntryView {
                    entity_type: t,
                    name: inferred_name(parts[3]),
                    source: SourceView::Github {
                        owner_repo: parts[2],
                        path_in_repo: parts[3],
                        ref_: field_or(parts, 4, DEFAULT_REF@),
                    },
                },
            )
        }
    } else {
        if parts.len() < 5 {
            Err("github entry needs at least: name owner/repo path"@)
        } else {
            Ok(
                EntryView {
                    entity_type: t,
                    name: parts[2],
                    source: SourceView::Github {
                        owner_repo: parts[3],
                        path_in_repo: parts[4],
                        ref_: field_or(parts, 5, DEFAULT_REF@),
                    },
                },
            )
        }
    }
}

/// Whether a field of a local line is a path.
pub open spec fn looks_like_path(s: Seq<char>) -> bool {
    ends_with(s, ".md"@) || s.contains('/')
}

/// What the fields of a local line say, or what they lack. A third field that looks like a path
/// is the path, and the name is inferred; else it is the name.
pub open spec fn local_entry(t: EntityType, parts: Seq<Seq<char>>) -> Result<EntryView, Seq<char>> {
    if looks_like_path(parts[2]) {
        Ok(
            EntryView {
                entity_type: t,
                name: inferred_name(parts[2]),
                source: SourceView::Local { path: parts[2] },
            },
        )
    } else if parts.len() < 4 {
        Err("local entry needs: name path"@)
    } else {
        Ok(
            EntryView {
                entity_type: t,
                name: parts[2],
                source: SourceView::Local { path: parts[3] },
            },
        )
    }
}

/// What the fields of a URL line say, or what they lack. A third field that starts with `http` is
/// the address, and the name is inferred; else it is the name.
pub open spec fn url_entry(t: EntityType, parts: Seq<Seq<char>>) -> Result<EntryView, Seq<char>> {
    if starts_with(parts[2], "http"@) {
        Ok(
            EntryView {
                entity_type: t,
                name: inferred_name(parts[2]),
                source: SourceView::Url { url: parts[2] },
            },
        )
    } else if parts.len() < 4 {
        Err("url entry needs: name url"@)
    } else {
        Ok(EntryView { entity_type: t, name: parts[2], source: SourceView::Url { url: parts[3] } })
    }
}

fn parse_github_entry(t: EntityType, parts: &Vec<String>) -> (r: Result<Entry, &'static str>)
    requires
        parts@.len() >= 3,
    ensures
        match github_entry(t, texts(parts@)) {
            Ok(e) => r matches Ok(x) && x@ == e,
            Err(m) => r matches Err(x) && x@ == m,
        },
{
    if contains_char(&parts[2], '/') {
        if parts.len() < 4 {
            return Err("github entry needs at least: owner/repo path");
        }
        let ref_ = if parts.len() > 4 {
            parts[4].clone()
        } else {
            String::from_str(DEFAULT_REF)
        };
        Ok(
            Entry {
                entity_type: t,
                name: infer_name(&parts[3]),
                source: SourceFields::Github {
                    owner_repo: parts[2].clone(),
                    path_in_repo: parts[3].clone(),
                    ref_,
                },
            },
        )
    } else {
        if parts.len() < 5 {
            return Err("github entry needs at least: name owner/repo path");
        }
        let ref_ = if parts.len() > 5 {
            parts[5].clone()
        } else {
            String::from_str(DEFAULT_REF)
        };
        Ok(
            Entry {
                entity_type: t,
                name: parts[2].clone(),
                source: SourceFields::Github {
                    owner_repo: parts[3].clone(),
                    path_in_repo: parts[4].clone(),
                    ref_,
                },
            },
        )
    }
}

fn parse_local_entry(t: EntityType, parts: &Vec<String>) -> (r: Result<Entry, &'static str>)
    requires
        parts@.len() >= 3,
    ensures
        match local_entry(t, texts(parts@)) {
            Ok(e) => r matches Ok(x) && x@ == e,
            Err(m) => r matches Err(x) && x@ == m,
        },
{
    if ends(&parts[2], ".md") || contains_char(&parts[2], '/') {
        return Ok(
            Entry {
                entity_type: t,
                name: infer_name(&parts[2]),
                source: SourceFields::Local { path: parts[2].clone() },
            },
        );
    }
    if parts.len() < 4 {
        return Err("local entry needs: name path");
    }
    Ok(
        Entry {
            entity_type: t,
            name: parts[2].clone(),
            source: SourceFields::Local { path: parts[3].clone() },
        },
    )
}

fn parse_url_entry(t: EntityType, parts: &Vec<String>) -> (r: Result<Entry, &'static str>)
    requires
        parts@.len() >= 3,
    ensures
        match url_entry(t, texts(parts@)) {
            Ok(e) => r matches Ok(x) && x@ == e,
            Err(m) => r matches Err(x) && x@ == m,
        },
{
    if starts(&parts[2], "http") {
        return Ok(
            Entry {
                entity_type: t,
                name: infer_name(&parts[2]),
                source: SourceFields::Url { url: parts[2].clone() },
            },
        );
    }
    if parts.len() < 4 {
        return Err("url entry needs: name url");
    }
    Ok(
        Entry {
            entity_type: t,
            name: parts[2].clone(),
            source: SourceFields::Url { url: parts[3].clone() },
        },
    )
}

/// Whether a word names a kind of source.
pub open spec fn known_source(s: Seq<char>) -> bool {
    s == "github"@ || s == "local"@ || s == "url"@
}

/// What the fields of an entry line say, or what is wrong with them.
pub open spec fn entry_of_fields(parts: Seq<Seq<char>>) -> Result<EntryView, Seq<char>> {
    if parts.len() < 3 {
        Err("too few fields, skipping"@)
    } else {
        match EntityType::of_word(parts[1]) {
            None => Err("unknown entity type '"@ + parts[1] + "', skipping"@),
            Some(t) => if parts[0] == "github"@ {
                github_entry(t, parts)
            } else if parts[0] == "local"@ {
                local_entry(t, parts)
            } else {
                url_entry(t, parts)
            },
        }
    }
}

fn parse_entry(parts: &Vec<String>) -> (r: Result<Entry, String>)
    requires
        parts@.len() >= 1,
        known_source(parts@[0]@),
    ensures
        match entry_of_fields(texts(parts@)) {
            Ok(e) => r matches Ok(x) && x@ == e,
            Err(m) => r matches Err(x) && x@ == m,
        },
{
    if parts.len() < 3 {
        return Err(String::from_str("too few fields, skipping"));
    }
    let t = match EntityType::parse(&parts[1]) {
        None => {
            let mut m: String = String::from_str("unknown entity type '");
            m.append(&parts[1]);
            m.append("', skipping");
            return Err(m);
        },
        Some(t) => t,
    };
    let r = if same(&parts[0], "github") {
        parse_github_entry(t, parts)
    } else if same(&parts[0], "local") {
        parse_local_entry(t, parts)
    } else {
        parse_url_entry(t, parts)
    };
    match r {
        Ok(e) => Ok(e),
        Err(m) => Err(String::from_str(m)),
    }
}

/// The entry that one line of a manifest declares, whatever its name.
pub open spec fn entry_of_line(line: Seq<char>) -> Option<EntryView> {
    let parts = line_fields(line);
    if parts.len() >= 3 && known_source(parts[0]) {
        match entry_of_fields(parts) {
            Ok(e) => Some(e),
            Err(_) => None,
        }
    } else {
        None
    }
}

/// Parses one line of a manifest as an entry. `None` where it is none.
pub fn parse_manifest_line(line: &str) -> (r: Option<Entry>)
    ensures
        match entry_of_line(line@) {
            Some(e) => r matches Some(x) && x@ == e,
            None => r is None,
        },
{
    let parts = strip_inline_comment(split_line(line));
    assert(texts(parts@).len() == parts@.len());
    if parts.len() < 3 {
        return None;
    }
    if !is_known_source(&parts[0]) {
        return None;
    }
    match parse_entry(&parts) {
        Ok(e) => Some(e),
        Err(_) => None,
    }
}

fn is_known_source(s: &str) -> (r: bool)
    ensures
        r == known_source(s@),
{
    same(s, "github") || same(s, "local") || same(s, "url")
}

// ---------------------------------------------------------------------------
// The manifest
// ---------------------------------------------------------------------------

/// What one line of a manifest declares.
pub enum LineView {
    Nothing,
    Warning(Seq<char>),
    Target(TargetView),
    Entry(EntryView),
}

/// What one line of a manifest declares; blank lines and comments declare nothing.
pub open spec fn line_meaning(raw: Seq<char>) -> LineView {
    let line = trim_both(raw);
    if line.len() == 0 || line[0] == '#' {
        LineView::Nothing
    } else {
        let parts = line_fields(line);
        if parts.len() < 2 {
            LineView::Warning("too few fields, skipping"@)
        } else if parts[0] == "install"@ {
            if parts.len() < 3 {
                LineView::Warning("install line needs: adapter scope"@)
            } else {
                match Scope::of_word(parts[2]) {
                    None => LineView::Warning(
                        "invalid scope '"@ + parts[2] + "', must be one of: global, local"@,
                    ),
                    Some(scope) => LineView::Target(TargetView { adapter: parts[1], scope }),
                }
            }
        } else if known_source(parts[0]) {
            match entry_of_fields(parts) {
                Ok(e) => if valid_name(e.name) {
                    LineView::Entry(e)
                } else {
                    LineView::Warning(
                        "invalid name '"@ + e.name
                            + "' \u{2014} names must match [a-zA-Z0-9._-], skipping"@,
                    )
                },
                Err(m) => LineView::Warning(m),
            }
        } else {
            LineView::Warning("unknown source type '"@ + parts[0] + "', skipping"@)
        }
    }
}

/// A parsed manifest and the warnings about it.
pub struct ParseView {
    pub entries: Seq<EntryView>,
    pub install_targets: Seq<TargetView>,
    pub warnings: Seq<Seq<char>>,
}

/// A warning about a line.
pub open spec fn line_warning(lineno: nat, text: Seq<char>) -> Seq<char> {
    "warning: line "@ + decimal(lineno) + ": "@ + text
}

/// Whether one of the entries has a name.
pub open spec fn has_name(entries: Seq<EntryView>, name: Seq<char>) -> bool {
    exists|i: int| 0 <= i < entries.len() && (#[trigger] entries[i]).name == name
}

/// A manifest with one more line. An entry whose name is taken is kept, with a warning.
pub open spec fn with_line(m: ParseView, lineno: nat, raw: Seq<char>) -> ParseView {
    match line_meaning(raw) {
        LineView::Nothing => m,
        LineView::Warning(w) => ParseView {
            warnings: m.warnings.push(line_warning(lineno, w)),
            ..m
        },
        LineView::Target(t) => ParseView { install_targets: m.install_targets.push(t), ..m },
        LineView::Entry(e) => ParseView {
            entries: m.entries.push(e),
            warnings: if has_name(m.entries, e.name) {
                m.warnings.push(
                    line_warning(lineno, "duplicate entry name '"@ + e.name + "'"@),
                )
            } else {
                m.warnings
            },
            ..m
        },
    }
}

/// The manifest that lines declare.
pub open spec fn manifest_of_lines(ls: Seq<Seq<char>>) -> ParseView
    decreases ls.len(),
{
    if ls.len() == 0 {
        ParseView {
            entries: Seq::empty(),
            install_targets: Seq::empty(),
            warnings: Seq::empty(),
        }
    } else {
        with_line(manifest_of_lines(ls.drop_last()), ls.len(), ls.last())
    }
}

/// The manifest that a text declares.
pub open spec fn manifest_of(text: Seq<char>) -> ParseView {
    manifest_of_lines(lines(text))
}

/// A parsed manifest and the warnings about it.
#[derive(Debug)]
pub struct ParseResult {
    pub manifest: Manifest,
    pub warnings: Vec<String>,
}

impl View for ParseResult {
    type V = ParseView;

    open spec fn view(&self) -> ParseView {
        ParseView {
            entries: self.manifest@.entries,
            install_targets: self.manifest@.install_targets,
            warnings: texts(self.warnings@),
        }
    }
}

/// One line of a manifest.
pub enum LineResult {
    Nothing,
    Warning(String),
    Target(InstallTarget),
    Entry(Entry),
}

impl View for LineResult {
    type V = LineView;

    open spec fn view(&self) -> LineView {
        match self {
            LineResult::Nothing => LineView::Nothing,
            LineResult::Warning(w) => LineView::Warning(w@),
            LineResult::Target(t) => LineView::Target(t@),
            LineResult::Entry(e) => LineView::Entry(e@),
        }
    }
}

pub fn parse_line(raw: &str) -> (r: LineResult)
    ensures
        r@ == line_meaning(raw@),
{
    let line = trimmed(raw);
    if line.as_str().is_empty() || starts_comment(&line) {
        return LineResult::Nothing;
    }
    let parts = strip_inline_comment(split_line(&line));
    assert(texts(parts@).len() == parts@.len());
    if parts.len() < 2 {
        return LineResult::Warning(String::from_str("too few fields, skipping"));
    }
    if same(&parts[0], "install") {
        if parts.len() < 3 {
            return LineResult::Warning(String::from_str("install line needs: adapter scope"));
        }
        return match Scope::parse(&parts[2]) {
            None => {
                let mut w: String = String::from_str("invalid scope '");
                w.append(&parts[2]);
                w.append("', must be one of: global, local");
                LineResult::Warning(w)
            },
            Some(scope) => LineResult::Target(
                InstallTarget { adapter: parts[1].clone(), scope },
            ),
        };
    }
    if is_known_source(&parts[0]) {
        return match parse_entry(&parts) {
            Ok(e) => if is_valid_name(&e.name) {
                LineResult::Entry(e)
            } else {
                let mut w: String = String::from_str("invalid name '");
                w.append(&e.name);
                w.append("' \u{2014} names must match [a-zA-Z0-9._-], skipping");
                LineResult::Warning(w)
            },
            Err(m) => LineResult::Warning(m),
        };
    }
    let mut w: String = String::from_str("unknown source type '");
    w.append(&parts[0]);
    w.append("', skipping");
    LineResult::Warning(w)
}

/// Whether one of the entries has a name.
pub fn name_taken(entries: &Vec<Entry>, name: &str) -> (r: bool)
    ensures
        r == has_name(entry_views(entries@), name@),
{
    let ghost es = entry_views(entries@);
    let mut i: usize = 0;
    while i < entries.len()
        invariant
            es == entry_views(entries@),
            i <= entries@.len(),
            forall|j: int| 0 <= j < i ==> (#[trigger] es[j]).name != name@,
        decreases entries@.len() - i,
    {
        assert(es[i as int] == entries@[i as int]@);
        if same(&entries[i].name, name) {
            return true;
        }
        i += 1;
    }
    false
}

fn warning_about(lineno: usize, text: &str) -> (r: String)
    ensures
        r@ == line_warning(lineno as nat, text@),
{
    let mut w: String = String::from_str("warning: line ");
    let n = size_number(lineno);
    w.append(&n);
    w.append(": ");
    w.append(text);
    w
}

/// Parses the text of a manifest.
pub fn parse_manifest_text(text: &str) -> (r: ParseResult)
    ensures
        r@ == manifest_of(text@),
{
    let lines = plain_lines(text);
    let ghost ls = texts(lines@);
    let mut entries: Vec<Entry> = Vec::new();
    let mut install_targets: Vec<InstallTarget> = Vec::new();
    let mut warnings: Vec<String> = Vec::new();
    let mut i: usize = 0;
    assert(entry_views(entries@) =~= Seq::empty());
    assert(target_views(install_targets@) =~= Seq::empty());
    assert(texts(warnings@) =~= Seq::empty());
    while i < lines.len()
        invariant
            ls == texts(lines@),
            i <= lines@.len(),
            manifest_of_lines(ls.take(i as int)) == (ParseView {
                entries: entry_views(entries@),
                install_targets: target_views(install_targets@),
                warnings: texts(warnings@),
            }),
        decreases lines@.len() - i,
    {
        let ghost es = entry_views(entries@);
        let ghost ts = target_views(install_targets@);
        let ghost ws = texts(warnings@);
        assert(ls.take(i + 1).drop_last() =~= ls.take(i as int));
        assert(ls.take(i + 1).last() == lines@[i as int]@);
        match parse_line(&lines[i]) {
            LineResult::Nothing => {},
            LineResult::Warning(w) => {
                let x = warning_about(i + 1, &w);
                warnings.push(x);
                assert(texts(warnings@) =~= ws.push(x@));
            },
            LineResult::Target(t) => {
                let ghost tv = t@;
                install_targets.push(t);
                assert(target_views(install_targets@) =~= ts.push(tv));
            },
            LineResult::Entry(e) => {
                let ghost ev = e@;
                if name_taken(&entries, &e.name) {
                    let mut d: String = String::from_str("duplicate entry name '");
                    d.append(&e.name);
                    d.append("'");
                    let x = warning_about(i + 1, &d);
                    warnings.push(x);
                    assert(texts(warnings@) =~= ws.push(x@));
                }
                entries.push(e);
                assert(entry_views(entries@) =~= es.push(ev));
            },
        }
        i += 1;
    }
    assert(ls.take(i as int) =~= ls);
    ParseResult { manifest: Manifest { entries, install_targets }, warnings }
}

/// The text of bytes that may not be valid UTF-8.
pub uninterp spec fn lossy_text(bytes: Seq<u8>) -> Seq<char>;

/// `String::from_utf8_lossy` of std: valid UTF-8 is decoded; what becomes of invalid bytes is only
/// named.
#[verifier::external_body]
pub(crate) fn utf8_text(bytes: &[u8]) -> (r: String)
    ensures
        r@ == lossy_text(bytes@),
        valid_utf8(bytes@) ==> r@ == decode_utf8(bytes@),
{
    String::from_utf8_lossy(bytes).into_owned()
}

/// Bytes without a UTF-8 byte order mark at their start.
pub open spec fn without_bom(bytes: Seq<u8>) -> Seq<u8> {
    if bytes.len() >= 3 && bytes[0] == 0xEF && bytes[1] == 0xBB && bytes[2] == 0xBF {
        bytes.skip(3)
    } else {
        bytes
    }
}

/// Parses the contents of a manifest file.
pub fn parse_manifest(raw_bytes: &[u8]) -> (r: ParseResult)
    ensures
        r@ == manifest_of(lossy_text(without_bom(raw_bytes@))),
        valid_utf8(without_bom(raw_bytes@)) ==> r@ == manifest_of(
            decode_utf8(without_bom(raw_bytes@)),
        ),
{
    let text = if raw_bytes.len() >= 3 && raw_bytes[0] == 0xEF && raw_bytes[1] == 0xBB
        && raw_bytes[2] == 0xBF {
        let rest = vstd::slice::slice_subrange(raw_bytes, 3, raw_bytes.len());
        assert(rest@ =~= raw_bytes@.skip(3));
        utf8_text(rest)
    } else {
        utf8_text(raw_bytes)
    };
    parse_manifest_text(&text)
}

// ---------------------------------------------------------------------------
// Looking entries up
// ---------------------------------------------------------------------------

/// Finds the first entry of a name in a manifest.
pub fn find_entry_in<'a>(name: &str, manifest: &'a Manifest) -> (r: Result<
    &'a Entry,
    SkillfileError,
>)
    ensures
        match r {
            Ok(e) => exists|i: int|
                0 <= i < manifest.entries@.len() && *e == #[trigger] manifest.entries@[i]
                    && e.name@ == name@ && forall|j: int|
                    0 <= j < i ==> (#[trigger] manifest.entries@[j]).name@ != name@,
            Err(SkillfileError::Manifest(m)) => !has_name(manifest@.entries, name@) && m@
                == "no entry named '"@ + name@ + "' in "@ + MANIFEST_NAME@,
            Err(_) => false,
        },
        r is Ok <==> has_name(manifest@.entries, name@),
{
    let ghost es = manifest@.entries;
    let mut i: usize = 0;
    while i < manifest.entries.len()
        invariant
            es == entry_views(manifest.entries@),
            i <= manifest.entries@.len(),
            forall|j: int| 0 <= j < i ==> (#[trigger] manifest.entries@[j]).name@ != name@,
            forall|j: int| 0 <= j < i ==> (#[trigger] es[j]).name != name@,
        decreases manifest.entries@.len() - i,
    {
        assert(es[i as int] == manifest.entries@[i as int]@);
        if same(&manifest.entries[i].name, name) {
            return Ok(&manifest.entries[i]);
        }
        i += 1;
    }
    let mut m: String = String::from_str("no entry named '");
    m.append(name);
    m.append("' in ");
    m.append(MANIFEST_NAME);
    Err(SkillfileError::Manifest(m))
}

// ---------------------------------------------------------------------------
// Laws
// ---------------------------------------------------------------------------

/// Every entry of a parsed manifest has a name that is safe as a file name.
pub proof fn law_parsed_names_are_valid(text: Seq<char>, i: int)
    requires
        0 <= i < manifest_of(text).entries.len(),
    ensures
        valid_name(manifest_of(text).entries[i].name),
{
    lemma_names_valid(lines(text), i);
}

proof fn lemma_names_valid(ls: Seq<Seq<char>>, i: int)
    requires
        0 <= i < manifest_of_lines(ls).entries.len(),
    ensures
        valid_name(manifest_of_lines(ls).entries[i].name),
    decreases ls.len(),
{
    if ls.len() > 0 {
        let init = manifest_of_lines(ls.drop_last());
        if i < init.entries.len() {
            lemma_names_valid(ls.drop_last(), i);
        }
    }
}

/// No line of a manifest is lost in silence: each declares an entry or a target, or gives a
/// warning, unless it is blank or a comment.
pub proof fn law_every_line_counts(ls: Seq<Seq<char>>, raw: Seq<char>)
    ensures
        ({
            let before = manifest_of_lines(ls);
            let after = manifest_of_lines(ls.push(raw));
            let line = trim_both(raw);
            let more = (after.entries.len() - before.entries.len()) + (after.install_targets.len()
                - before.install_targets.len()) + (after.warnings.len() - before.warnings.len());
            &&& (more == 0 <==> line.len() == 0 || line[0] == '#')
            &&& before.entries.is_prefix_of(after.entries)
            &&& before.install_targets.is_prefix_of(after.install_targets)
            &&& before.warnings.is_prefix_of(after.warnings)
        }),
{
    assert(ls.push(raw).drop_last() =~= ls);
}

// ---------------------------------------------------------------------------
// Manifests that are text already
// ---------------------------------------------------------------------------

/// A text without a byte order mark at its start.
pub open spec fn text_without_bom(text: Seq<char>) -> Seq<char> {
    if text.len() > 0 && text[0] == '\u{feff}' {
        text.skip(1)
    } else {
        text
    }
}

/// Takes a byte order mark off the start of a text.
pub fn strip_bom(text: &str) -> (r: String)
    ensures
        r@ == text_without_bom(text@),
{
    let v = to_chars(text);
    if v.len() > 0 && v[0] == '\u{feff}' {
        let r = slice_string(&v, 1, v.len());
        assert(r@ =~= text@.skip(1));
        r
    } else {
        text.to_owned()
    }
}

/// The byte order mark is the same in a text and in its bytes.
proof fn lemma_bom(text: Seq<char>)
    ensures
        without_bom(encode_utf8(text)) == encode_utf8(text_without_bom(text)),
{
    let bytes = encode_utf8(text);
    if text.len() > 0 {
        vstd::utf8::encode_utf8_first_scalar(text);
        let c: u32 = text[0] as u32;
        vstd::utf8::char_is_scalar(text[0]);
        vstd::utf8::char_u32_cast(text[0], c);
        assert(c == 0xFEFF <==> text[0] == '\u{feff}');
        assert(text.drop_first() =~= text.skip(1));
        if bytes.len() >= 3 && bytes[0] == 0xEF && bytes[1] == 0xBB && bytes[2] == 0xBF {
            assert(vstd::utf8::codepoint_width_3(0xEFu8, 0xBBu8, 0xBFu8) == 0xFEFFu32)
                by (bit_vector);
            assert(c == 0xFEFF);
        }
        if c == 0xFEFF {
            assert(vstd::utf8::leading_byte_width_3(0xFEFFu32) == 0xEFu8) by (bit_vector);
            assert(vstd::utf8::second_last_continuation_byte(0xFEFFu32) == 0xBBu8) by (bit_vector);
            assert(vstd::utf8::last_continuation_byte(0xFEFFu32) == 0xBFu8) by (bit_vector);
            let first = vstd::utf8::encode_scalar(c);
            assert(bytes == first + encode_utf8(text.drop_first()));
            assert(bytes.skip(3) =~= encode_utf8(text.skip(1)));
        }
    }
}

/// Parses a manifest that has been read as text.
pub fn parse_manifest_str(text: &str) -> (r: ParseResult)
    ensures
        r@ == manifest_of(text_without_bom(text@)),
{
    proof {
        lemma_bom(text@);
        vstd::utf8::encode_utf8_valid_utf8(text_without_bom(text@));
        vstd::utf8::encode_utf8_decode_utf8(text_without_bom(text@));
    }
    parse_manifest(text.as_bytes())
}

impl ParseView {
    /// The manifest without the warnings.
    pub open spec fn manifest(self) -> ManifestView {
        ManifestView { entries: self.entries, install_targets: self.install_targets }
    }
}

} // verus!
