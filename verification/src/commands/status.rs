//! The state of the entries of a manifest.

use vstd::prelude::*;
use vstd::string::StringExecFns;
use crate::commands::common::push_text;
use crate::commands::diff::opt_files;
use crate::commands::files::{file_views, FileText, FileView};
use crate::commands::installed_variants::DirVariant;
use crate::commands::multi_target::{changed_files, modified_dir_content};
use crate::models::{
    entry_views, short_sha, short_sha_text, target_views, EntityType, Entry, EntryView, InstallTarget,
    Manifest, ManifestView, SourceFields, SourceView, TargetView,
};
use crate::numbers::{decimal, size_number};
use crate::text::{byte_len, bytes_len, join, join_all, opt_text, pad_to, padded, same, texts};

verus! {

// ---------------------------------------------------------------------------
// Local modifications
// ---------------------------------------------------------------------------

/// What is found on disk of an entry.
pub enum LocalState {
    /// The installed file, the cached upstream one, and whether a patch is kept.
    Single { installed: Option<String>, cached: Option<String>, pinned: bool },
    /// The installed files, the cached upstream ones, and whether patches are kept.
    Dir { files: Vec<FileText>, cached_files: Option<Vec<FileText>>, has_patches: bool },
}

/// Whether an installed file differs from upstream where it is not meant to.
pub open spec fn single_modified(
    installed: Option<Seq<char>>,
    cached: Option<Seq<char>>,
    pinned: bool,
) -> bool {
    !pinned && match (installed, cached) {
        (Some(i), Some(c)) => i != c,
        _ => false,
    }
}

/// Whether a file of an installed directory differs from upstream where none is meant to.
pub open spec fn dir_modified(
    files: Seq<FileView>,
    cached: Option<Seq<FileView>>,
    pinned: bool,
) -> bool {
    !pinned && match cached {
        Some(c) => changed_files(c, files).len() > 0,
        None => false,
    }
}

/// Whether an entry is modified: a local entry never is.
pub open spec fn locally_modified(e: EntryView, s: LocalState) -> bool {
    !(e.source is Local) && match s {
        LocalState::Single { installed, cached, pinned } => single_modified(
            opt_text(installed),
            opt_text(cached),
            pinned,
        ),
        LocalState::Dir { files, cached_files, has_patches } => dir_modified(
            file_views(files@),
            opt_files(cached_files),
            has_patches,
        ),
    }
}

/// Whether the installed file differs from the cached one. A pinned file is meant to.
pub fn check_single_file_modified(
    installed: &Option<String>,
    cached: &Option<String>,
    pinned: bool,
) -> (r: bool)
    ensures
        r == single_modified(opt_text(*installed), opt_text(*cached), pinned),
{
    if pinned {
        return false;
    }
    match (installed, cached) {
        (Some(i), Some(c)) => !same(i, c),
        _ => false,
    }
}

/// Whether one of the installed files differs from the cached one of the same name. Those of a
/// pinned entry are meant to.
pub fn check_dir_files_modified(
    files: Vec<FileText>,
    cached: &Option<Vec<FileText>>,
    pinned: bool,
) -> (r: bool)
    ensures
        r == dir_modified(file_views(files@), opt_files(*cached), pinned),
{
    if pinned {
        return false;
    }
    match cached {
        Some(c) => {
            let variant = DirVariant { label: String::new(), files };
            let changed = modified_dir_content(c, &variant);
            assert(file_views(changed@).len() == changed@.len());
            changed.len() > 0
        },
        None => false,
    }
}

/// Whether an entry is modified, by what is found on disk.
pub fn is_modified_local(entry: &Entry, state: LocalState) -> (r: bool)
    ensures
        r == locally_modified(entry@, state),
{
    if let SourceFields::Local { .. } = &entry.source {
        return false;
    }
    match state {
        LocalState::Single { installed, cached, pinned } => check_single_file_modified(
            &installed,
            &cached,
            pinned,
        ),
        LocalState::Dir { files, cached_files, has_patches } => check_dir_files_modified(
            files,
            &cached_files,
            has_patches,
        ),
    }
}

// ---------------------------------------------------------------------------
// Upstream revisions
// ---------------------------------------------------------------------------

/// The revision that a branch or tag of a repository was resolved to.
pub struct ResolvedSha {
    pub owner_repo: String,
    pub ref_: String,
    pub sha: String,
}

/// The revisions that were resolved already.
pub struct ShaCache {
    pub known: Vec<ResolvedSha>,
}

/// The first revision in a list that is known of a branch or tag.
pub open spec fn known_sha(v: Seq<ResolvedSha>, owner_repo: Seq<char>, ref_: Seq<char>) -> Option<
    Seq<char>,
>
    decreases v.len(),
{
    if v.len() == 0 {
        None
    } else {
        match known_sha(v.drop_last(), owner_repo, ref_) {
            Some(s) => Some(s),
            None => if v.last().owner_repo@ == owner_repo && v.last().ref_@ == ref_ {
                Some(v.last().sha@)
            } else {
                None
            },
        }
    }
}

impl ShaCache {
    /// The revision that is known of a branch or tag.
    pub open spec fn get(&self, owner_repo: Seq<char>, ref_: Seq<char>) -> Option<Seq<char>> {
        known_sha(self.known@, owner_repo, ref_)
    }

    /// No revision is known.
    pub fn new() -> (r: Self)
        ensures
            forall|o: Seq<char>, f: Seq<char>| #[trigger] r.get(o, f) is None,
    {
        ShaCache { known: Vec::new() }
    }

    /// Looks a revision up.
    pub fn lookup(&self, owner_repo: &str, ref_: &str) -> (r: Option<String>)
        ensures
            match self.get(owner_repo@, ref_@) {
                Some(s) => r matches Some(t) && t@ == s,
                None => r is None,
            },
    {
        let ghost v = self.known@;
        let mut i: usize = 0;
        while i < self.known.len()
            invariant
                v == self.known@,
                i <= v.len(),
                known_sha(v.take(i as int), owner_repo@, ref_@) is None,
            decreases v.len() - i,
        {
            assert(v.take(i + 1).drop_last() =~= v.take(i as int));
            assert(v.take(i + 1).last() == v[i as int]);
            let k = &self.known[i];
            if same(&k.owner_repo, owner_repo) && same(&k.ref_, ref_) {
                proof {
                    lemma_known_stays(v, i + 1, owner_repo@, ref_@);
                }
                return Some(k.sha.clone());
            }
            i += 1;
        }
        assert(v.take(i as int) =~= v);
        None
    }

    /// Remembers a revision that was not known: it is found from now on, and what is known of
    /// others stays.
    pub fn remember(&mut self, owner_repo: &str, ref_: &str, sha: &str)
        requires
            old(self).get(owner_repo@, ref_@) is None,
        ensures
            final(self).get(owner_repo@, ref_@) == Some(sha@),
            forall|o: Seq<char>, f: Seq<char>|
                o != owner_repo@ || f != ref_@ ==> #[trigger] final(self).get(o, f) == old(
                    self,
                ).get(o, f),
    {
        let ghost before = self.known@;
        self.known.push(
            ResolvedSha {
                owner_repo: owner_repo.to_owned(),
                ref_: ref_.to_owned(),
                sha: sha.to_owned(),
            },
        );
        assert(self.known@.drop_last() =~= before);
    }
}

proof fn lemma_known_stays(v: Seq<ResolvedSha>, n: int, owner_repo: Seq<char>, ref_: Seq<char>)
    requires
        0 <= n <= v.len(),
        known_sha(v.take(n), owner_repo, ref_) is Some,
    ensures
        known_sha(v, owner_repo, ref_) == known_sha(v.take(n), owner_repo, ref_),
    decreases v.len() - n,
{
    if n < v.len() {
        assert(v.take(n + 1).drop_last() =~= v.take(n));
        lemma_known_stays(v, n + 1, owner_repo, ref_);
    } else {
        assert(v.take(n) =~= v);
    }
}

// ---------------------------------------------------------------------------
// One line per entry
// ---------------------------------------------------------------------------

/// What is known of an entry: whether the path of a local entry exists, the locked revision, the
/// revision of the cached files, whether the revision upstream is asked for and what it is, and
/// whether the entry is pinned or modified.
pub struct EntryFacts {
    pub local_exists: bool,
    pub locked_sha: Option<String>,
    pub cached_sha: Option<String>,
    pub upstream_sha: Option<String>,
    pub pinned: bool,
    pub modified: bool,
}

/// The status against upstream of an entry whose cached files are those of the locked revision.
pub open spec fn upstream_status(e: EntryView, sha: Seq<char>, upstream: Option<Seq<char>>) -> Seq<
    char,
> {
    match (e.source, upstream) {
        (SourceView::Github { .. }, Some(u)) => if u == sha {
            "up to date  sha="@ + short_sha_text(sha)
        } else {
            "outdated    locked="@ + short_sha_text(sha) + "  upstream="@ + short_sha_text(u)
        },
        _ => "locked    sha="@ + short_sha_text(sha),
    }
}

/// The marks of an entry.
pub open spec fn annotation(pinned: bool, modified: bool) -> Seq<char> {
    (if pinned {
        "  [pinned]"@
    } else {
        Seq::empty()
    }) + (if modified {
        "  [modified]"@
    } else {
        Seq::empty()
    })
}

/// The status of an entry.
pub open spec fn entry_status(e: EntryView, f: EntryFacts) -> Seq<char> {
    match e.source {
        SourceView::Local { path } => if f.local_exists {
            "local"@
        } else {
            "local  \u{2717} path missing: "@ + path
        },
        _ => match f.locked_sha {
            None => "unlocked"@,
            Some(sha) => (if opt_text(f.cached_sha) != Some(sha@) {
                "locked    sha="@ + short_sha_text(sha@) + "  (missing or stale)"@
            } else {
                upstream_status(e, sha@, opt_text(f.upstream_sha))
            }) + annotation(f.pinned, f.modified),
        },
    }
}

/// The line of an entry: its name in a column of the given width, and its status.
pub open spec fn status_line(e: EntryView, f: EntryFacts, width: nat) -> Seq<char> {
    pad_to(e.name, width) + " "@ + entry_status(e, f)
}

/// Says how an entry stands against upstream.
pub fn upstream_status_for_github(entry: &Entry, sha: &str, upstream: &Option<String>) -> (r:
    String)
    ensures
        r@ == upstream_status(entry@, sha@, opt_text(*upstream)),
{
    if let SourceFields::Github { .. } = &entry.source {
        if let Some(u) = upstream {
            if same(u, sha) {
                let mut s: String = String::from_str("up to date  sha=");
                s.append(short_sha(sha));
                return s;
            }
            let mut s: String = String::from_str("outdated    locked=");
            s.append(short_sha(sha));
            s.append("  upstream=");
            s.append(short_sha(u));
            return s;
        }
    }
    let mut s: String = String::from_str("locked    sha=");
    s.append(short_sha(sha));
    s
}

/// The marks of an entry.
pub fn build_annotation(pinned: bool, modified: bool) -> (r: String)
    ensures
        r@ == annotation(pinned, modified),
{
    let mut s: String = String::new();
    if pinned {
        s.append("  [pinned]");
    }
    if modified {
        s.append("  [modified]");
    }
    assert(s@ =~= annotation(pinned, modified));
    s
}

/// The repository and the branch or tag whose revision has to be asked for to know the status of
/// an entry: those of an entry of a repository whose cached files are those of the locked
/// revision.
pub fn resolve_upstream_sha<'a>(entry: &'a Entry, facts: &EntryFacts) -> (r: Option<
    (&'a str, &'a str),
>)
    ensures
        match entry@.source {
            SourceView::Github { owner_repo, ref_, .. } => if facts.locked_sha is Some && opt_text(
                facts.locked_sha,
            ) == opt_text(facts.cached_sha) {
                r matches Some(p) && p.0@ == owner_repo && p.1@ == ref_
            } else {
                r is None
            },
            _ => r is None,
        },
{
    if let SourceFields::Github { owner_repo, ref_, .. } = &entry.source {
        if let Some(sha) = &facts.locked_sha {
            if let Some(meta) = &facts.cached_sha {
                if same(sha, meta) {
                    return Some((owner_repo.as_str(), ref_.as_str()));
                }
            }
        }
    }
    None
}

/// The line of an entry.
pub fn format_entry_status(entry: &Entry, facts: &EntryFacts, col_w: usize) -> (r: String)
    ensures
        r@ == status_line(entry@, *facts, col_w as nat),
{
    let mut line = padded(&entry.name, col_w);
    line.append(" ");
    let ghost start = line@;
    if let SourceFields::Local { path } = &entry.source {
        if facts.local_exists {
            line.append("local");
        } else {
            line.append("local  \u{2717} path missing: ");
            line.append(path);
            assert(line@ =~= start + ("local  \u{2717} path missing: "@ + path@));
        }
        return line;
    }
    let sha = match &facts.locked_sha {
        None => {
            line.append("unlocked");
            return line;
        },
        Some(sha) => sha,
    };
    let fresh = match &facts.cached_sha {
        Some(m) => same(m, sha),
        None => false,
    };
    let base_status = if !fresh {
        let mut s: String = String::from_str("locked    sha=");
        s.append(short_sha(sha));
        s.append("  (missing or stale)");
        s
    } else {
        upstream_status_for_github(entry, sha, &facts.upstream_sha)
    };
    let marks = build_annotation(facts.pinned, facts.modified);
    line.append(&base_status);
    line.append(&marks);
    assert(line@ =~= start + (base_status@ + marks@));
    line
}

// ---------------------------------------------------------------------------
// The whole output
// ---------------------------------------------------------------------------

/// The length in bytes of the longest name; ten where there is no entry.
pub open spec fn longest_name(es: Seq<EntryView>) -> nat
    decreases es.len(),
{
    if es.len() == 0 {
        10
    } else {
        let n = byte_len(es.last().name);
        if es.len() == 1 {
            n
        } else {
            let m = longest_name(es.drop_last());
            if n >= m {
                n
            } else {
                m
            }
        }
    }
}

/// The width of the column of names.
pub open spec fn column(es: Seq<EntryView>) -> nat {
    if longest_name(es) + 2 <= usize::MAX {
        longest_name(es) + 2
    } else {
        usize::MAX as nat
    }
}

/// The width of the column of names.
pub fn column_width(entries: &Vec<Entry>) -> (r: usize)
    ensures
        r == column(entry_views(entries@)),
{
    let ghost es = entry_views(entries@);
    let mut longest: usize = 10;
    let mut i: usize = 0;
    while i < entries.len()
        invariant
            es == entry_views(entries@),
            i <= entries@.len(),
            longest == longest_name(es.take(i as int)),
        decreases entries@.len() - i,
    {
        assert(es.take(i + 1).drop_last() =~= es.take(i as int));
        assert(es.take(i + 1).last() == entries@[i as int]@);
        let n = bytes_len(&entries[i].name);
        if i == 0 || n >= longest {
            longest = n;
        }
        i += 1;
    }
    assert(es.take(i as int) =~= es);
    if longest <= usize::MAX - 2 {
        longest + 2
    } else {
        usize::MAX
    }
}

/// How many entries there are of each type, how many are pinned and how many are modified.
pub struct EntryCounts {
    pub skills: usize,
    pub agents: usize,
    pub pinned: usize,
    pub modified: usize,
}

/// How many entries are of a type.
pub open spec fn count_type(es: Seq<EntryView>, t: EntityType) -> nat
    decreases es.len(),
{
    if es.len() == 0 {
        0
    } else {
        count_type(es.drop_last(), t) + if es.last().entity_type == t {
            1nat
        } else {
            0nat
        }
    }
}

/// How many entries are pinned.
pub open spec fn count_pinned(fs: Seq<EntryFacts>) -> nat
    decreases fs.len(),
{
    if fs.len() == 0 {
        0
    } else {
        count_pinned(fs.drop_last()) + if fs.last().pinned {
            1nat
        } else {
            0nat
        }
    }
}

/// How many entries are modified.
pub open spec fn count_modified(fs: Seq<EntryFacts>) -> nat
    decreases fs.len(),
{
    if fs.len() == 0 {
        0
    } else {
        count_modified(fs.drop_last()) + if fs.last().modified {
            1nat
        } else {
            0nat
        }
    }
}

/// Counts the entries.
pub fn count_entries(entries: &Vec<Entry>, facts: &Vec<EntryFacts>) -> (r: EntryCounts)
    ensures
        r.skills == count_type(entry_views(entries@), EntityType::Skill),
        r.agents == count_type(entry_views(entries@), EntityType::Agent),
        r.pinned == count_pinned(facts@),
        r.modified == count_modified(facts@),
{
    let ghost es = entry_views(entries@);
    let ghost fs = facts@;
    let mut skills: usize = 0;
    let mut agents: usize = 0;
    let mut i: usize = 0;
    let count: usize = entries.len();
    while i < count
        invariant
            es == entry_views(entries@),
            count == entries@.len(),
            i <= count,
            skills == count_type(es.take(i as int), EntityType::Skill),
            agents == count_type(es.take(i as int), EntityType::Agent),
            skills <= i,
            agents <= i,
        decreases count - i,
    {
        assert(es.take(i + 1).drop_last() =~= es.take(i as int));
        assert(es.take(i + 1).last() == entries@[i as int]@);
        match entries[i].entity_type {
            EntityType::Skill => {
                skills = skills + 1;
            },
            EntityType::Agent => {
                agents = agents + 1;
            },
        }
        i += 1;
    }
    assert(es.take(i as int) =~= es);
    let mut pinned: usize = 0;
    let mut modified: usize = 0;
    let mut j: usize = 0;
    let known: usize = facts.len();
    while j < known
        invariant
            fs == facts@,
            known == facts@.len(),
            j <= known,
            pinned == count_pinned(fs.take(j as int)),
            modified == count_modified(fs.take(j as int)),
            pinned <= j,
            modified <= j,
        decreases known - j,
    {
        assert(fs.take(j + 1).drop_last() =~= fs.take(j as int));
        assert(fs.take(j + 1).last() == facts@[j as int]);
        if facts[j].pinned {
            pinned = pinned + 1;
        }
        if facts[j].modified {
            modified = modified + 1;
        }
        j += 1;
    }
    assert(fs.take(j as int) =~= fs);
    EntryCounts { skills, agents, pinned, modified }
}

/// A number of things, in words; nothing where there are none.
pub open spec fn counted(n: nat, word: Seq<char>) -> Seq<Seq<char>> {
    if n == 0 {
        Seq::empty()
    } else if n == 1 {
        seq![decimal(n) + " "@ + word]
    } else {
        seq![decimal(n) + " "@ + word + "s"@]
    }
}

/// A number of marked entries, in words; nothing where there are none.
pub open spec fn marked(n: nat, word: Seq<char>) -> Seq<char> {
    if n == 0 {
        Seq::empty()
    } else {
        " \u{b7} "@ + decimal(n) + word
    }
}

/// The install targets, in a line of their own; nothing where there are none.
pub open spec fn targets_line(ts: Seq<TargetView>) -> Seq<char> {
    if ts.len() == 0 {
        Seq::empty()
    } else {
        "\n  Install targets: "@ + join(ts.map_values(|t: TargetView| t.label()), ", "@)
    }
}

/// The summary below the entries.
pub open spec fn summary(m: ManifestView, fs: Seq<EntryFacts>) -> Seq<char> {
    "  "@ + join(
        counted(count_type(m.entries, EntityType::Skill), "skill"@) + counted(
            count_type(m.entries, EntityType::Agent),
            "agent"@,
        ),
        ", "@,
    ) + marked(count_pinned(fs), " pinned"@) + marked(count_modified(fs), " modified"@)
        + targets_line(m.install_targets)
}

fn push_counted(out: &mut Vec<String>, n: usize, word: &str)
    ensures
        texts(final(out)@) == texts(old(out)@) + counted(n as nat, word@),
{
    let ghost before = texts(out@);
    if n > 0 {
        let mut s = size_number(n);
        s.append(" ");
        s.append(word);
        if n != 1 {
            s.append("s");
        }
        push_text(out, &s);
    }
    assert(texts(out@) =~= before + counted(n as nat, word@));
}

fn append_marked(s: &mut String, n: usize, word: &str)
    ensures
        final(s)@ == old(s)@ + marked(n as nat, word@),
{
    let ghost before = s@;
    if n > 0 {
        s.append(" \u{b7} ");
        let d = size_number(n);
        s.append(&d);
        s.append(word);
    }
    assert(s@ =~= before + marked(n as nat, word@));
}

fn target_labels(targets: &Vec<InstallTarget>) -> (r: Vec<String>)
    ensures
        texts(r@) == target_views(targets@).map_values(|t: TargetView| t.label()),
{
    let ghost want = target_views(targets@).map_values(|t: TargetView| t.label());
    let mut out: Vec<String> = Vec::new();
    let mut i: usize = 0;
    while i < targets.len()
        invariant
            want == target_views(targets@).map_values(|t: TargetView| t.label()),
            i <= targets@.len(),
            texts(out@) == want.take(i as int),
        decreases targets@.len() - i,
    {
        let l = targets[i].to_string();
        push_text(&mut out, &l);
        assert(want[i as int] == targets@[i as int]@.label());
        assert(want.take(i + 1) =~= want.take(i as int).push(l@));
        i += 1;
    }
    assert(want.take(i as int) =~= want);
    out
}

/// The summary below the entries.
pub fn format_summary(manifest: &Manifest, facts: &Vec<EntryFacts>) -> (r: String)
    ensures
        r@ == summary(manifest@, facts@),
{
    let c = count_entries(&manifest.entries, facts);
    let mut counts: Vec<String> = Vec::new();
    push_counted(&mut counts, c.skills, "skill");
    push_counted(&mut counts, c.agents, "agent");
    let ghost cs = counted(c.skills as nat, "skill"@) + counted(c.agents as nat, "agent"@);
    assert(texts(counts@) =~= cs);
    let list = join_all(&counts, ", ");
    let mut s: String = String::from_str("  ");
    s.append(&list);
    append_marked(&mut s, c.pinned, " pinned");
    append_marked(&mut s, c.modified, " modified");
    let ghost before = s@;
    assert(target_views(manifest.install_targets@).len()
        == manifest.install_targets@.len());
    if manifest.install_targets.len() > 0 {
        s.append("\n  Install targets: ");
        let labels = join_all(&target_labels(&manifest.install_targets), ", ");
        s.append(&labels);
    }
    assert(s@ =~= before + targets_line(manifest@.install_targets));
    s
}

/// The lines of the first entries.
pub open spec fn status_lines(es: Seq<EntryView>, fs: Seq<EntryFacts>, width: nat) -> Seq<char>
    decreases fs.len(),
{
    if fs.len() == 0 {
        Seq::empty()
    } else {
        status_lines(es, fs.drop_last(), width) + status_line(
            es[fs.len() - 1],
            fs.last(),
            width,
        ) + "\n"@
    }
}

/// What is printed where all facts are known: a line for each entry, and below the summary, where
/// there is an entry. Where only the facts of the first entries are known, their lines.
pub open spec fn status_output(m: ManifestView, fs: Seq<EntryFacts>) -> Seq<char> {
    status_lines(m.entries, fs, column(m.entries)) + (if 0 < fs.len() == m.entries.len() {
        "\n"@ + summary(m, fs) + "\n"@
    } else {
        Seq::empty()
    })
}

/// What is printed of the entries whose facts are known.
pub fn cmd_status(manifest: &Manifest, facts: &Vec<EntryFacts>) -> (r: String)
    requires
        facts@.len() <= manifest.entries@.len(),
    ensures
        r@ == status_output(manifest@, facts@),
{
    let ghost es = manifest@.entries;
    let ghost fs = facts@;
    let col_w = column_width(&manifest.entries);
    let mut out: String = String::new();
    let mut i: usize = 0;
    assert(out@ =~= status_lines(es, fs.take(0), col_w as nat));
    while i < facts.len()
        invariant
            es == manifest@.entries,
            fs == facts@,
            facts@.len() <= manifest.entries@.len(),
            i <= facts@.len(),
            out@ == status_lines(es, fs.take(i as int), col_w as nat),
        decreases facts@.len() - i,
    {
        assert(fs.take(i + 1).drop_last() =~= fs.take(i as int));
        assert(fs.take(i + 1).last() == facts@[i as int]);
        assert(es[i as int] == manifest.entries@[i as int]@);
        let line = format_entry_status(&manifest.entries[i], &facts[i], col_w);
        out.append(&line);
        out.append("\n");
        i += 1;
    }
    assert(fs.take(i as int) =~= fs);
    let ghost before = out@;
    if facts.len() > 0 && facts.len() == manifest.entries.len() {
        out.append("\n");
        let s = format_summary(manifest, facts);
        out.append(&s);
        out.append("\n");
        assert(out@ =~= before + ("\n"@ + s@ + "\n"@));
    } else {
        assert(out@ =~= before + Seq::<char>::empty());
    }
    out
}

} // verus!
