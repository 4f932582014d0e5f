//! What the command line asks for.

use vstd::prelude::*;
use crate::commands::add::{
    entry_from_github, entry_from_local, entry_from_url, type_or_skill, GithubEntryArgs,
};
use crate::commands::common::sentence;
use crate::models::{Entry, EntryView, SourceView, DEFAULT_REF};
use crate::parser::inferred_name;
use crate::text::{ends, ends_with, same};

verus! {

/// Reads an entity type from the command line.
pub fn parse_entity_type(s: &str) -> (r: Result<String, String>)
    ensures
        if s@ == "skill"@ || s@ == "agent"@ {
            r matches Ok(t) && t@ == s@
        } else {
            r matches Err(m) && m@ == "invalid type '"@ + s@ + "': expected 'skill' or 'agent'"@
        },
{
    if same(s, "skill") || same(s, "agent") {
        Ok(s.to_owned())
    } else {
        Err(sentence("invalid type '", s, "': expected 'skill' or 'agent'"))
    }
}

/// Whether a path asks for all entries below it: it ends with a slash, or is a dot.
pub open spec fn discovery_path(path: Seq<char>) -> bool {
    ends_with(path, "/"@) || path == "."@
}

/// Whether a path asks for all entries below it.
pub fn is_discovery_path(path: &str) -> (r: bool)
    ensures
        r == discovery_path(path@),
{
    ends(path, "/") || same(path, ".")
}

/// What `add` was asked to add.
pub enum AddSource {
    Github {
        entity_type: String,
        owner_repo: String,
        path: String,
        ref_: Option<String>,
        name: Option<String>,
        no_interactive: bool,
    },
    Local { entity_type: String, path: String, name: Option<String> },
    Url { entity_type: String, url: String, name: Option<String> },
}

/// What `add` does.
pub enum AddRequest {
    /// Look for entries below a path of a repository.
    Discover {
        entity_type: String,
        owner_repo: String,
        base_path: String,
        ref_: Option<String>,
        no_interactive: bool,
    },
    /// Add one entry.
    One(Entry),
}

/// A text that was given, or a default.
pub open spec fn owned_or(s: Option<String>, default_text: Seq<char>) -> Seq<char> {
    match s {
        Some(x) => x@,
        None => default_text,
    }
}

fn borrowed(s: &Option<String>) -> (r: Option<&str>)
    ensures
        match s {
            Some(x) => r matches Some(y) && y@ == x@,
            None => r is None,
        },
{
    match s {
        Some(x) => Some(x.as_str()),
        None => None,
    }
}

/// Works out what `add` does: a path that asks for all entries below it is looked through, any
/// other source is one entry.
pub fn handle_add(source: AddSource) -> (r: AddRequest)
    ensures
        match source {
            AddSource::Github { entity_type, owner_repo, path, ref_, name, no_interactive } =>
                if discovery_path(path@) {
                r == (AddRequest::Discover {
                    entity_type,
                    owner_repo,
                    base_path: path,
                    ref_,
                    no_interactive,
                })
            } else {
                r matches AddRequest::One(e) && e@ == (EntryView {
                    entity_type: type_or_skill(entity_type@),
                    name: owned_or(name, inferred_name(path@)),
                    source: SourceView::Github {
                        owner_repo: owner_repo@,
                        path_in_repo: path@,
                        ref_: owned_or(ref_, DEFAULT_REF@),
                    },
                })
            },
            AddSource::Local { entity_type, path, name } => r matches AddRequest::One(e) && e@ == (
            EntryView {
                entity_type: type_or_skill(entity_type@),
                name: owned_or(name, inferred_name(path@)),
                source: SourceView::Local { path: path@ },
            }),
            AddSource::Url { entity_type, url, name } => r matches AddRequest::One(e) && e@ == (
            EntryView {
                entity_type: type_or_skill(entity_type@),
                name: owned_or(name, inferred_name(url@)),
                source: SourceView::Url { url: url@ },
            }),
        },
{
    match source {
        AddSource::Github { entity_type, owner_repo, path, ref_, name, no_interactive } => {
            if is_discovery_path(&path) {
                return AddRequest::Discover {
                    entity_type,
                    owner_repo,
                    base_path: path,
                    ref_,
                    no_interactive,
                };
            }
            AddRequest::One(
                entry_from_github(
                    &GithubEntryArgs {
                        entity_type: &entity_type,
                        owner_repo: &owner_repo,
                        path: &path,
                        ref_: borrowed(&ref_),
                        name: borrowed(&name),
                    },
                ),
            )
        },
        AddSource::Local { entity_type, path, name } => AddRequest::One(
            entry_from_local(&entity_type, &path, borrowed(&name)),
        ),
        AddSource::Url { entity_type, url, name } => AddRequest::One(
            entry_from_url(&entity_type, &url, borrowed(&name)),
        ),
    }
}

/// Whether progress is not shown: the flag or the environment variable `SKILLFILE_QUIET` asks so.
pub fn wants_quiet(flag: bool, variable: Option<&str>) -> (r: bool)
    ensures
        r == (flag || (variable matches Some(v) && v@.len() > 0)),
{
    if flag {
        return true;
    }
    match variable {
        Some(v) => !v.is_empty(),
        None => false,
    }
}

} // verus!
