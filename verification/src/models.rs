//! The things a Skillfile declares: entries, install targets and where entries come from.

use vstd::prelude::*;
use vstd::string::{StrSliceExecFns, StringExecFns};
use crate::text::same;

verus! {

/// The git reference an entry has when the manifest names none.
pub const DEFAULT_REF: &'static str = "main";

// ---------------------------------------------------------------------------
// Scope
// ---------------------------------------------------------------------------

/// Where a platform's files are installed: for the user, or in the repository.
#[derive(Debug, Clone, Copy, PartialEq, Eq, Hash, Structural)]
pub enum Scope {
    Global,
    Local,
}

impl Scope {
    pub const ALL: [Scope; 2] = [Scope::Global, Scope::Local];

    /// The word for the scope in a manifest.
    pub open spec fn word(self) -> Seq<char> {
        match self {
            Scope::Global => "global"@,
            Scope::Local => "local"@,
        }
    }

    /// The scope that a word names.
    pub open spec fn of_word(s: Seq<char>) -> Option<Scope> {
        if s == "global"@ {
            Some(Scope::Global)
        } else if s == "local"@ {
            Some(Scope::Local)
        } else {
            None
        }
    }

    /// Parses a scope. `None` for an unknown word.
    #[must_use]
    pub fn parse(s: &str) -> (r: Option<Self>)
        ensures
            r == Scope::of_word(s@),
    {
        if same(s, "global") {
            Some(Scope::Global)
        } else if same(s, "local") {
            Some(Scope::Local)
        } else {
            None
        }
    }

    /// The word for the scope in a manifest.
    #[must_use]
    pub fn as_str(&self) -> (r: &'static str)
        ensures
            r@ == self.word(),
    {
        match self {
            Scope::Global => "global",
            Scope::Local => "local",
        }
    }

    /// The scope as shown to the user.
    pub fn to_string(&self) -> (r: String)
        ensures
            r@ == self.word(),
    {
        String::from_str(self.as_str())
    }
}

// ---------------------------------------------------------------------------
// Entity types
// ---------------------------------------------------------------------------

/// What an entry is: a skill or an agent.
#[derive(Debug, Clone, Copy, PartialEq, Eq, Hash, Structural)]
pub enum EntityType {
    Skill,
    Agent,
}

impl EntityType {
    pub const ALL: [EntityType; 2] = [EntityType::Agent, EntityType::Skill];

    /// The word for the entity type in a manifest.
    pub open spec fn word(self) -> Seq<char> {
        match self {
            EntityType::Skill => "skill"@,
            EntityType::Agent => "agent"@,
        }
    }

    /// The name of the directory that holds entities of the type.
    pub open spec fn dir_word(self) -> Seq<char> {
        match self {
            EntityType::Skill => "skills"@,
            EntityType::Agent => "agents"@,
        }
    }

    /// The entity type that a word names.
    pub open spec fn of_word(s: Seq<char>) -> Option<EntityType> {
        if s == "skill"@ {
            Some(EntityType::Skill)
        } else if s == "agent"@ {
            Some(EntityType::Agent)
        } else {
            None
        }
    }

    /// Parses an entity type. `None` for an unknown word.
    #[must_use]
    pub fn parse(s: &str) -> (r: Option<Self>)
        ensures
            r == EntityType::of_word(s@),
    {
        if same(s, "skill") {
            Some(EntityType::Skill)
        } else if same(s, "agent") {
            Some(EntityType::Agent)
        } else {
            None
        }
    }

    /// The word for the entity type in a manifest.
    #[must_use]
    pub fn as_str(&self) -> (r: &'static str)
        ensures
            r@ == self.word(),
    {
        match self {
            EntityType::Skill => "skill",
            EntityType::Agent => "agent",
        }
    }

    /// The entity type as shown to the user.
    pub fn to_string(&self) -> (r: String)
        ensures
            r@ == self.word(),
    {
        String::from_str(self.as_str())
    }

    /// The name of the directory that holds entities of the type.
    #[must_use]
    pub fn dir_name(&self) -> (r: &'static str)
        ensures
            r@ == self.dir_word(),
    {
        match self {
            EntityType::Skill => "skills",
            EntityType::Agent => "agents",
        }
    }
}

/// A scope is parsed from its own word, and only from that.
pub proof fn law_scope_words(scope: Scope, s: Seq<char>)
    ensures
        Scope::of_word(scope.word()) == Some(scope),
        Scope::of_word(s) matches Some(x) ==> s == x.word(),
{
    reveal_strlit("global");
    reveal_strlit("local");
    assert("global"@.len() != "local"@.len());
}

/// An entity type is parsed from its own word, and only from that; types have different words
/// and different directories.
pub proof fn law_entity_type_words(t: EntityType, u: EntityType, s: Seq<char>)
    ensures
        EntityType::of_word(t.word()) == Some(t),
        EntityType::of_word(s) matches Some(x) ==> s == x.word(),
        t != u ==> t.word() != u.word() && t.dir_word() != u.dir_word(),
{
    reveal_strlit("skill");
    reveal_strlit("agent");
    reveal_strlit("skills");
    reveal_strlit("agents");
    assert("skill"@[0] != "agent"@[0]);
    assert("skills"@[0] != "agents"@[0]);
}

// ---------------------------------------------------------------------------
// Commit names
// ---------------------------------------------------------------------------

/// The first 12 characters of a commit name, or all of a shorter one.
#[must_use]
pub fn short_sha(sha: &str) -> (r: &str)
    ensures
        r@ == short_sha_text(sha@),
{
    let n: usize = sha.unicode_len();
    if n <= 12 {
        assert(sha@.take(sha@.len() as int) =~= sha@);
        sha
    } else {
        assert(sha@.subrange(0, 12) =~= sha@.take(12));
        sha.substring_char(0, 12)
    }
}

/// The first 12 characters of a commit name, or all of a shorter one.
pub open spec fn short_sha_text(sha: Seq<char>) -> Seq<char> {
    if sha.len() <= 12 {
        sha
    } else {
        sha.take(12)
    }
}

// ---------------------------------------------------------------------------
// Sources
// ---------------------------------------------------------------------------

/// Where an entry comes from, with the fields of that kind of source.
#[derive(Debug, PartialEq, Eq)]
pub enum SourceFields {
    Github { owner_repo: String, path_in_repo: String, ref_: String },
    Local { path: String },
    Url { url: String },
}

/// A source as a value of texts.
pub enum SourceView {
    Github { owner_repo: Seq<char>, path_in_repo: Seq<char>, ref_: Seq<char> },
    Local { path: Seq<char> },
    Url { url: Seq<char> },
}

impl View for SourceFields {
    type V = SourceView;

    open spec fn view(&self) -> SourceView {
        match self {
            SourceFields::Github { owner_repo, path_in_repo, ref_ } => SourceView::Github {
                owner_repo: owner_repo@,
                path_in_repo: path_in_repo@,
                ref_: ref_@,
            },
            SourceFields::Local { path } => SourceView::Local { path: path@ },
            SourceFields::Url { url } => SourceView::Url { url: url@ },
        }
    }
}

impl SourceView {
    /// The word for the kind of source in a manifest and in lock keys.
    pub open spec fn word(self) -> Seq<char> {
        match self {
            SourceView::Github { .. } => "github"@,
            SourceView::Local { .. } => "local"@,
            SourceView::Url { .. } => "url"@,
        }
    }
}

impl SourceFields {
    /// The word for the kind of source in a manifest and in lock keys.
    #[must_use]
    pub fn source_type(&self) -> (r: &'static str)
        ensures
            r@ == self@.word(),
    {
        match self {
            SourceFields::Github { .. } => "github",
            SourceFields::Local { .. } => "local",
            SourceFields::Url { .. } => "url",
        }
    }

    /// Repository, path and reference of a GitHub source.
    #[must_use]
    pub fn as_github(&self) -> (r: Option<(&str, &str, &str)>)
        ensures
            match self@ {
                SourceView::Github { owner_repo, path_in_repo, ref_ } => r matches Some(t)
                    && t.0@ == owner_repo && t.1@ == path_in_repo && t.2@ == ref_,
                _ => r is None,
            },
    {
        match self {
            SourceFields::Github { owner_repo, path_in_repo, ref_ } => Some(
                (owner_repo.as_str(), path_in_repo.as_str(), ref_.as_str()),
            ),
            _ => None,
        }
    }

    /// The path of a local source.
    #[must_use]
    pub fn as_local(&self) -> (r: Option<&str>)
        ensures
            match self@ {
                SourceView::Local { path } => r matches Some(p) && p@ == path,
                _ => r is None,
            },
    {
        match self {
            SourceFields::Local { path } => Some(path.as_str()),
            _ => None,
        }
    }

    /// The address of a URL source.
    #[must_use]
    pub fn as_url(&self) -> (r: Option<&str>)
        ensures
            match self@ {
                SourceView::Url { url } => r matches Some(u) && u@ == url,
                _ => r is None,
            },
    {
        match self {
            SourceFields::Url { url } => Some(url.as_str()),
            _ => None,
        }
    }
}

impl Clone for SourceFields {
    fn clone(&self) -> (r: Self)
        ensures
            r@ == self@,
    {
        match self {
            SourceFields::Github { owner_repo, path_in_repo, ref_ } => SourceFields::Github {
                owner_repo: owner_repo.clone(),
                path_in_repo: path_in_repo.clone(),
                ref_: ref_.clone(),
            },
            SourceFields::Local { path } => SourceFields::Local { path: path.clone() },
            SourceFields::Url { url } => SourceFields::Url { url: url.clone() },
        }
    }
}

// ---------------------------------------------------------------------------
// Entries
// ---------------------------------------------------------------------------

/// One entry of a manifest.
#[derive(Debug, PartialEq, Eq)]
pub struct Entry {
    pub entity_type: EntityType,
    pub name: String,
    pub source: SourceFields,
}

/// An entry as a value of texts.
pub struct EntryView {
    pub entity_type: EntityType,
    pub name: Seq<char>,
    pub source: SourceView,
}

impl View for Entry {
    type V = EntryView;

    open spec fn view(&self) -> EntryView {
        EntryView { entity_type: self.entity_type, name: self.name@, source: self.source@ }
    }
}

impl EntryView {
    /// `source/type/name`, which names the entry among all sources and types.
    pub open spec fn key(self) -> Seq<char> {
        self.source.word() + "/"@ + self.entity_type.word() + "/"@ + self.name
    }
}

/// The contents of a list of entries.
pub open spec fn entry_views(v: Seq<Entry>) -> Seq<EntryView> {
    v.map_values(|e: Entry| e@)
}

impl Entry {
    /// The word for the kind of source.
    #[must_use]
    pub fn source_type(&self) -> (r: &'static str)
        ensures
            r@ == self@.source.word(),
    {
        self.source.source_type()
    }

    /// The repository of a GitHub entry; empty for another.
    pub fn owner_repo(&self) -> (r: &str)
        ensures
            r@ == (match self@.source {
                SourceView::Github { owner_repo, .. } => owner_repo,
                _ => Seq::empty(),
            }),
    {
        match self.source.as_github() {
            Some((owner_repo, _, _)) => owner_repo,
            None => empty_text(),
        }
    }

    /// The path of a GitHub entry in its repository; empty for another.
    pub fn path_in_repo(&self) -> (r: &str)
        ensures
            r@ == (match self@.source {
                SourceView::Github { path_in_repo, .. } => path_in_repo,
                _ => Seq::empty(),
            }),
    {
        match self.source.as_github() {
            Some((_, path, _)) => path,
            None => empty_text(),
        }
    }

    /// The reference of a GitHub entry; empty for another.
    pub fn ref_(&self) -> (r: &str)
        ensures
            r@ == (match self@.source {
                SourceView::Github { ref_, .. } => ref_,
                _ => Seq::empty(),
            }),
    {
        match self.source.as_github() {
            Some((_, _, ref_)) => ref_,
            None => empty_text(),
        }
    }

    /// The path of a local entry; empty for another.
    pub fn local_path(&self) -> (r: &str)
        ensures
            r@ == (match self@.source {
                SourceView::Local { path } => path,
                _ => Seq::empty(),
            }),
    {
        match self.source.as_local() {
            Some(path) => path,
            None => empty_text(),
        }
    }

    /// The address of a URL entry; empty for another.
    pub fn url(&self) -> (r: &str)
        ensures
            r@ == (match self@.source {
                SourceView::Url { url } => url,
                _ => Seq::empty(),
            }),
    {
        match self.source.as_url() {
            Some(url) => url,
            None => empty_text(),
        }
    }

    /// The entry as shown to the user: `source/type/name`.
    pub fn to_string(&self) -> (r: String)
        ensures
            r@ == self@.key(),
    {
        let mut s: String = String::from_str(self.source_type());
        s.append("/");
        s.append(self.entity_type.as_str());
        s.append("/");
        s.append(self.name.as_str());
        s
    }
}

impl Clone for Entry {
    fn clone(&self) -> (r: Self)
        ensures
            r@ == self@,
    {
        Entry {
            entity_type: self.entity_type,
            name: self.name.clone(),
            source: self.source.clone(),
        }
    }
}

/// The empty text.
fn empty_text() -> (r: &'static str)
    ensures
        r@ == Seq::<char>::empty(),
{
    proof {
        reveal_strlit("");
    }
    assert(""@ =~= Seq::<char>::empty());
    ""
}

// ---------------------------------------------------------------------------
// Install targets
// ---------------------------------------------------------------------------

/// A platform and a scope to install to: `install <adapter> <scope>`.
#[derive(Debug, PartialEq, Eq)]
pub struct InstallTarget {
    pub adapter: String,
    pub scope: Scope,
}

/// An install target as a value of texts.
pub struct TargetView {
    pub adapter: Seq<char>,
    pub scope: Scope,
}

impl View for InstallTarget {
    type V = TargetView;

    open spec fn view(&self) -> TargetView {
        TargetView { adapter: self.adapter@, scope: self.scope }
    }
}

impl TargetView {
    /// The target as shown to the user: `adapter (scope)`.
    pub open spec fn label(self) -> Seq<char> {
        self.adapter + " ("@ + self.scope.word() + ")"@
    }
}

/// The contents of a list of install targets.
pub open spec fn target_views(v: Seq<InstallTarget>) -> Seq<TargetView> {
    v.map_values(|t: InstallTarget| t@)
}

impl InstallTarget {
    /// The target as shown to the user: `adapter (scope)`.
    pub fn to_string(&self) -> (r: String)
        ensures
            r@ == self@.label(),
    {
        let mut s: String = self.adapter.clone();
        s.append(" (");
        s.append(self.scope.as_str());
        s.append(")");
        s
    }
}

impl Clone for InstallTarget {
    fn clone(&self) -> (r: Self)
        ensures
            r@ == self@,
    {
        InstallTarget { adapter: self.adapter.clone(), scope: self.scope }
    }
}

// ---------------------------------------------------------------------------
// Lock entries, manifests, options and conflicts
// ---------------------------------------------------------------------------

/// What a locked entry was resolved to.
#[derive(Debug, Clone, PartialEq, Eq)]
pub struct LockEntry {
    pub sha: String,
    pub raw_url: String,
}

/// A parsed manifest.
#[derive(Debug)]
pub struct Manifest {
    pub entries: Vec<Entry>,
    pub install_targets: Vec<InstallTarget>,
}

/// A manifest as a value of texts.
pub struct ManifestView {
    pub entries: Seq<EntryView>,
    pub install_targets: Seq<TargetView>,
}

impl View for Manifest {
    type V = ManifestView;

    open spec fn view(&self) -> ManifestView {
        ManifestView {
            entries: entry_views(self.entries@),
            install_targets: target_views(self.install_targets@),
        }
    }
}

impl Default for Manifest {
    fn default() -> (r: Self)
        ensures
            r@.entries == Seq::<EntryView>::empty(),
            r@.install_targets == Seq::<TargetView>::empty(),
    {
        let r = Manifest { entries: Vec::new(), install_targets: Vec::new() };
        assert(r@.entries =~= Seq::<EntryView>::empty());
        assert(r@.install_targets =~= Seq::<TargetView>::empty());
        r
    }
}

/// How to install.
#[derive(Debug, Clone)]
pub struct InstallOptions {
    pub dry_run: bool,
    pub overwrite: bool,
}

impl Default for InstallOptions {
    fn default() -> (r: Self)
        ensures
            !r.dry_run,
            r.overwrite,
    {
        InstallOptions { dry_run: false, overwrite: true }
    }
}

/// An unresolved conflict between an upstream change and local changes.
#[derive(Debug, Clone, PartialEq, Eq)]
pub struct ConflictState {
    pub entry: String,
    pub entity_type: EntityType,
    pub old_sha: String,
    pub new_sha: String,
}

} // verus!
