//! Adding entries to a manifest.

use vstd::prelude::*;
use vstd::string::StringExecFns;
use crate::commands::common::{
    copy_texts, missing_manifest, missing_manifest_text, push_text, sentence,
};
use crate::commands::sort::{canonical_text, entry_line, format_line, sorted_manifest_text};
use crate::error::SkillfileError;
use crate::lines::{ends_in_newline, split_at_char, split_char};
use crate::models::{EntityType, Entry, EntryView, SourceFields, SourceView, DEFAULT_REF};
use crate::numbers::{decimal, size_number};
use crate::parser::{
    has_name, infer_name, inferred_name, manifest_of, name_taken, parse_manifest_str,
    text_without_bom, MANIFEST_NAME,
};
use crate::sorted::{sort_set, sorted_set};
use crate::text::{contains_char, contains_text, has_text, join, join_all, texts};

verus! {

// ---------------------------------------------------------------------------
// Entries from arguments
// ---------------------------------------------------------------------------

/// The arguments that make a GitHub entry.
pub struct GithubEntryArgs<'a> {
    pub entity_type: &'a str,
    pub owner_repo: &'a str,
    pub path: &'a str,
    pub ref_: Option<&'a str>,
    pub name: Option<&'a str>,
}

/// The entity type that a word names; a skill where it names none.
pub open spec fn type_or_skill(word: Seq<char>) -> EntityType {
    match EntityType::of_word(word) {
        Some(t) => t,
        None => EntityType::Skill,
    }
}

/// A text that was given, or a default.
pub open spec fn given_or(s: Option<&str>, default_text: Seq<char>) -> Seq<char> {
    match s {
        Some(x) => x@,
        None => default_text,
    }
}

fn parse_type_or_skill(word: &str) -> (r: EntityType)
    ensures
        r == type_or_skill(word@),
{
    match EntityType::parse(word) {
        Some(t) => t,
        None => EntityType::Skill,
    }
}

fn text_or(s: Option<&str>, default_text: &str) -> (r: String)
    ensures
        r@ == given_or(s, default_text@),
{
    match s {
        Some(x) => x.to_owned(),
        None => default_text.to_owned(),
    }
}

/// Makes a GitHub entry. Without a name it gets the one its path gives, without a reference the
/// default one.
pub fn entry_from_github(args: &GithubEntryArgs<'_>) -> (r: Entry)
    ensures
        r@ == (EntryView {
            entity_type: type_or_skill(args.entity_type@),
            name: given_or(args.name, inferred_name(args.path@)),
            source: SourceView::Github {
                owner_repo: args.owner_repo@,
                path_in_repo: args.path@,
                ref_: given_or(args.ref_, DEFAULT_REF@),
            },
        }),
{
    let inferred = infer_name(args.path);
    Entry {
        entity_type: parse_type_or_skill(args.entity_type),
        name: text_or(args.name, &inferred),
        source: SourceFields::Github {
            owner_repo: args.owner_repo.to_owned(),
            path_in_repo: args.path.to_owned(),
            ref_: text_or(args.ref_, DEFAULT_REF),
        },
    }
}

/// Makes a local entry. Without a name it gets the one its path gives.
pub fn entry_from_local(entity_type: &str, path: &str, name: Option<&str>) -> (r: Entry)
    ensures
        r@ == (EntryView {
            entity_type: type_or_skill(entity_type@),
            name: given_or(name, inferred_name(path@)),
            source: SourceView::Local { path: path@ },
        }),
{
    let inferred = infer_name(path);
    Entry {
        entity_type: parse_type_or_skill(entity_type),
        name: text_or(name, &inferred),
        source: SourceFields::Local { path: path.to_owned() },
    }
}

/// Makes a URL entry. Without a name it gets the one its address gives.
pub fn entry_from_url(entity_type: &str, url: &str, name: Option<&str>) -> (r: Entry)
    ensures
        r@ == (EntryView {
            entity_type: type_or_skill(entity_type@),
            name: given_or(name, inferred_name(url@)),
            source: SourceView::Url { url: url@ },
        }),
{
    let inferred = infer_name(url);
    Entry {
        entity_type: parse_type_or_skill(entity_type),
        name: text_or(name, &inferred),
        source: SourceFields::Url { url: url.to_owned() },
    }
}

// ---------------------------------------------------------------------------
// Adding one entry
// ---------------------------------------------------------------------------

/// What adding an entry does: the new text of the manifest, what to tell the user, and whether the
/// entry is to be fetched and installed at once.
pub struct AddPlan {
    pub manifest_text: String,
    pub messages: Vec<String>,
    pub deploy: bool,
}

/// A text whose last line has an end.
pub open spec fn closed_text(text: Seq<char>) -> Seq<char> {
    if text.len() > 0 && text.last() != '\n' {
        text.push('\n')
    } else {
        text
    }
}

/// A manifest text with the line of an entry at its end, on a line of its own.
pub open spec fn appended(original: Seq<char>, e: EntryView) -> Seq<char> {
    (closed_text(original) + entry_line(e)).push('\n')
}

/// A manifest text with an entry, in canonical order.
pub open spec fn with_entry(original: Seq<char>, e: EntryView) -> Seq<char> {
    let content = appended(original, e);
    canonical_text(manifest_of(text_without_bom(content)).manifest(), content)
}

/// Whether a manifest text names install targets.
pub open spec fn has_targets(text: Seq<char>) -> bool {
    manifest_of(text_without_bom(text)).install_targets.len() > 0
}

/// What is said where there is nowhere to install to.
pub open spec fn no_targets_text() -> Seq<char> {
    "No install targets configured \u{2014} run `skillfile init` then `skillfile install` to deploy."@
}

/// Works out what adding an entry does to a manifest, whose text is given where it exists. A name
/// that is taken is refused.
pub fn cmd_add(entry: &Entry, repo_root: &str, manifest: Option<&str>) -> (r: Result<
    AddPlan,
    SkillfileError,
>)
    ensures
        match manifest {
            None => r matches Err(SkillfileError::Manifest(m)) && m@ == missing_manifest_text(
                repo_root@,
            ),
            Some(original) => if has_name(
                manifest_of(text_without_bom(original@)).entries,
                entry@.name,
            ) {
                r matches Err(SkillfileError::Manifest(m)) && m@ == "entry '"@ + entry@.name
                    + "' already exists in "@ + MANIFEST_NAME@
            } else {
                r matches Ok(p) && p.manifest_text@ == with_entry(original@, entry@) && p.deploy
                    == has_targets(p.manifest_text@) && texts(p.messages@) == (if p.deploy {
                    seq!["Added: "@ + entry_line(entry@)]
                } else {
                    seq!["Added: "@ + entry_line(entry@), no_targets_text()]
                })
            },
        },
{
    let original = match manifest {
        None => {
            return Err(missing_manifest(repo_root));
        },
        Some(t) => t,
    };
    let result = parse_manifest_str(original);
    if name_taken(&result.manifest.entries, &entry.name) {
        let mut m: String = String::from_str("entry '");
        m.append(&entry.name);
        m.append("' already exists in ");
        m.append(MANIFEST_NAME);
        return Err(SkillfileError::Manifest(m));
    }
    let line = format_line(entry);
    let mut content: String = original.to_owned();
    if !original.is_empty() && !ends_in_newline(original) {
        content.push('\n');
    }
    content.append(&line);
    content.push('\n');
    let parsed = parse_manifest_str(&content);
    assert(parsed.manifest@ == parsed@.manifest());
    let formatted = sorted_manifest_text(&parsed.manifest, &content);
    let mut messages: Vec<String> = Vec::new();
    let mut said: String = String::from_str("Added: ");
    said.append(&line);
    messages.push(said);
    let again = parse_manifest_str(&formatted);
    assert(again@.install_targets.len() == again.manifest.install_targets@.len());
    let deploy = again.manifest.install_targets.len() > 0;
    if !deploy {
        messages.push(
            String::from_str(
                "No install targets configured \u{2014} run `skillfile init` then `skillfile install` to deploy.",
            ),
        );
        assert(texts(messages@) =~= seq!["Added: "@ + line@, no_targets_text()]);
    } else {
        assert(texts(messages@) =~= seq!["Added: "@ + line@]);
    }
    Ok(AddPlan { manifest_text: formatted, messages, deploy })
}

/// What to put back where fetching or installing a new entry failed.
pub struct Rollback {
    pub manifest_text: String,
    pub lock_text: Option<String>,
    pub message: String,
}

/// Works out what to put back: the manifest as it was, and the lock file as it was; without one
/// before (`None`) it is removed.
pub fn roll_back(name: &str, original_manifest: &str, original_lock: Option<String>) -> (r: Rollback)
    ensures
        r.manifest_text@ == original_manifest@,
        r.lock_text == original_lock,
        r.message@ == "Rolled back: removed '"@ + name@ + "' from "@ + MANIFEST_NAME@,
{
    let mut message = sentence("Rolled back: removed '", name, "' from ");
    message.append(MANIFEST_NAME);
    Rollback { manifest_text: original_manifest.to_owned(), lock_text: original_lock, message }
}

// ---------------------------------------------------------------------------
// Adding many entries
// ---------------------------------------------------------------------------

/// The arguments of a bulk addition.
pub struct BulkAddArgs<'a> {
    pub entity_type: &'a str,
    pub owner_repo: &'a str,
    pub base_path: &'a str,
    pub ref_: Option<&'a str>,
    pub no_interactive: bool,
}

/// What a bulk addition does with the paths that were found.
pub enum BulkStep {
    /// Add these paths.
    Add(Vec<String>),
    /// Let the user choose among them.
    Choose,
}

/// Works out what a bulk addition does with the paths found in a repository. One path is added
/// without asking, and so are all of them where the user does not want to be asked.
pub fn cmd_add_bulk(args: &BulkAddArgs<'_>, entries: &Vec<String>, is_terminal: bool) -> (r: Result<
    BulkStep,
    SkillfileError,
>)
    ensures
        match r {
            Err(SkillfileError::Manifest(m)) => (entries@.len() == 0 && m@ == "no "@
                + args.entity_type@ + "s found under '"@ + args.base_path@ + "' in "@
                + args.owner_repo@) || (entries@.len() > 1 && !args.no_interactive && !is_terminal
                && m@ == "interactive selection requires a terminal; use --no-interactive"@),
            Err(_) => false,
            Ok(BulkStep::Add(v)) => (entries@.len() == 1 || (entries@.len() > 1
                && args.no_interactive)) && texts(v@) == texts(entries@),
            Ok(BulkStep::Choose) => entries@.len() > 1 && !args.no_interactive && is_terminal,
        },
{
    if entries.len() == 0 {
        let mut m: String = String::from_str("no ");
        m.append(args.entity_type);
        m.append("s found under '");
        m.append(args.base_path);
        m.append("' in ");
        m.append(args.owner_repo);
        return Err(SkillfileError::Manifest(m));
    }
    if entries.len() == 1 {
        return Ok(BulkStep::Add(copy_texts(entries)));
    }
    select_entries(entries, args.no_interactive, is_terminal)
}

/// Works out how paths are selected.
fn select_entries(entries: &Vec<String>, no_interactive: bool, is_terminal: bool) -> (r: Result<
    BulkStep,
    SkillfileError,
>)
    ensures
        match r {
            Ok(BulkStep::Add(v)) => no_interactive && texts(v@) == texts(entries@),
            Ok(BulkStep::Choose) => !no_interactive && is_terminal,
            Err(SkillfileError::Manifest(m)) => !no_interactive && !is_terminal && m@
                == "interactive selection requires a terminal; use --no-interactive"@,
            Err(_) => false,
        },
{
    if no_interactive {
        return Ok(BulkStep::Add(copy_texts(entries)));
    }
    if !is_terminal {
        return Err(
            SkillfileError::Manifest(
                String::from_str(
                    "interactive selection requires a terminal; use --no-interactive",
                ),
            ),
        );
    }
    Ok(BulkStep::Choose)
}

/// How many entries of a bulk addition were added and how many were not.
pub struct AddTally {
    pub added: usize,
    pub skipped: usize,
}

impl AddTally {
    /// Nothing added and nothing skipped.
    pub fn new() -> (r: Self)
        ensures
            r.added == 0,
            r.skipped == 0,
    {
        AddTally { added: 0, skipped: 0 }
    }

    /// Counts what became of one entry; gives the warning about one that was not added.
    pub fn record(&mut self, name: &str, outcome: &Result<(), SkillfileError>) -> (r: Option<
        String,
    >)
        requires
            old(self).added < usize::MAX,
            old(self).skipped < usize::MAX,
        ensures
            final(self).added == old(self).added + (if outcome is Ok {
                1int
            } else {
                0int
            }),
            final(self).skipped == old(self).skipped + (if outcome is Ok {
                0int
            } else {
                1int
            }),
            match outcome {
                Ok(_) => r is None,
                Err(e) => r matches Some(w) && w@ == (if e is Manifest && has_text(
                    e.text(),
                    "already exists"@,
                ) {
                    "warning: skipped '"@ + name@ + "' (already in Skillfile)"@
                } else {
                    "warning: failed to add '"@ + name@ + "': "@ + e.text()
                }),
            },
    {
        match outcome {
            Ok(_) => {
                self.added += 1;
                None
            },
            Err(e) => {
                self.skipped += 1;
                let text = e.to_string();
                if matches!(e, SkillfileError::Manifest(_)) && contains_text(
                    &text,
                    "already exists",
                ) {
                    Some(sentence("warning: skipped '", name, "' (already in Skillfile)"))
                } else {
                    let mut w = sentence("warning: failed to add '", name, "': ");
                    w.append(&text);
                    Some(w)
                }
            },
        }
    }

    /// The closing line of a bulk addition.
    pub open spec fn summary_text(self, entity_type: Seq<char>) -> Seq<char> {
        "Added "@ + decimal(self.added as nat) + " "@ + entity_type + (if self.added == 1 {
            ""@
        } else {
            "s"@
        }) + " to Skillfile."@ + (if self.skipped > 0 {
            " ("@ + decimal(self.skipped as nat) + " skipped)"@
        } else {
            ""@
        })
    }

    /// The closing line of a bulk addition.
    pub fn summary(&self, entity_type: &str) -> (r: String)
        ensures
            r@ == self.summary_text(entity_type@),
    {
        let n = size_number(self.added);
        let mut s = sentence("Added ", &n, " ");
        s.append(entity_type);
        if self.added == 1 {
            s.append("");
        } else {
            s.append("s");
        }
        s.append(" to Skillfile.");
        if self.skipped > 0 {
            let k = size_number(self.skipped);
            let t = sentence(" (", &k, " skipped)");
            s.append(&t);
        } else {
            s.append("");
        }
        s
    }
}

// ---------------------------------------------------------------------------
// The add wizard
// ---------------------------------------------------------------------------

/// The address at which GitHub answers whether a repository exists.
pub fn repo_api_url(owner_repo: &str) -> (r: String)
    ensures
        r@ == "https://api.github.com/repos/"@ + owner_repo@,
{
    let mut s: String = String::from_str("https://api.github.com/repos/");
    s.append(owner_repo);
    s
}

/// What it means whether GitHub knows a repository.
pub fn validate_github_repo(owner_repo: &str, found: bool) -> (r: Result<(), SkillfileError>)
    ensures
        found ==> r is Ok,
        !found ==> (r matches Err(SkillfileError::Network(m)) && m@ == "repository '"@
            + owner_repo@ + "' not found on GitHub"@),
{
    if found {
        Ok(())
    } else {
        Err(SkillfileError::Network(sentence("repository '", owner_repo, "' not found on GitHub")))
    }
}

/// Whether an input looks like `owner/repo`.
pub fn looks_like_owner_repo(v: &str) -> (r: bool)
    ensures
        r == (v@.contains('/') && v.len() > 2),
{
    contains_char(v, '/') && v.len() > 2
}

/// The first part of a path.
pub open spec fn first_segment(path: Seq<char>) -> Seq<char> {
    split_at_char(path, '/')[0]
}

/// The first parts of paths.
pub open spec fn first_segments(paths: Seq<Seq<char>>) -> Seq<Seq<char>> {
    paths.map_values(|p: Seq<char>| first_segment(p))
}

/// The top-level directories among paths, in ascending order.
pub fn discover_top_level_dirs(entries: &Vec<String>) -> (r: Vec<String>)
    ensures
        texts(r@) == sorted_set(first_segments(texts(entries@))),
{
    let ghost want = first_segments(texts(entries@));
    let mut firsts: Vec<String> = Vec::new();
    let mut i: usize = 0;
    while i < entries.len()
        invariant
            want == first_segments(texts(entries@)),
            i <= entries@.len(),
            texts(firsts@) == want.take(i as int),
        decreases entries@.len() - i,
    {
        let parts = split_char(&entries[i], '/');
        assert(texts(parts@).len() == parts@.len());
        assert(parts@[0]@ == texts(parts@)[0]);
        assert(want[i as int] == first_segment(texts(entries@)[i as int]));
        assert(want.take(i + 1) =~= want.take(i as int).push(parts@[0]@));
        push_text(&mut firsts, &parts[0]);
        i += 1;
    }
    assert(want.take(i as int) =~= want);
    sort_set(&firsts)
}

/// The hint for the path in a repository.
pub fn path_hint(top_dirs: &Vec<String>) -> (r: String)
    ensures
        r@ == (if top_dirs@.len() == 0 {
            "press Enter to scan the entire repo"@
        } else {
            "found: "@ + join(texts(top_dirs@), ", "@) + "  (or . for all)"@
        }),
{
    if top_dirs.len() == 0 {
        String::from_str("press Enter to scan the entire repo")
    } else {
        let list = join_all(top_dirs, ", ");
        sentence("found: ", &list, "  (or . for all)")
    }
}

} // verus!
