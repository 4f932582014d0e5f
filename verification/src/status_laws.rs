//! What the status of entries says.

use vstd::prelude::*;
use crate::commands::status::{
    annotation, column, count_modified, count_pinned, count_type, counted, entry_status, known_sha,
    longest_name, marked, status_line, status_lines, status_output, summary, targets_line,
    EntryFacts, ResolvedSha,
};
use crate::models::{short_sha_text, EntityType, EntryView, ManifestView, TargetView};
use crate::numbers::decimal;
use crate::text::{byte_len, ends_with, join, starts_with};

verus! {

/// What is known of an entry, but for its marks.
pub open spec fn unmarked(f: EntryFacts) -> EntryFacts {
    EntryFacts { pinned: false, modified: false, ..f }
}

/// The short form of a revision is its start: twelve characters, or all where there are fewer.
pub proof fn law_short_revision(sha: Seq<char>)
    ensures
        short_sha_text(sha).is_prefix_of(sha),
        short_sha_text(sha).len() == if sha.len() < 12 {
            sha.len()
        } else {
            12
        },
{
    assert(sha.take(12 as int) =~= sha.subrange(0, 12));
}

/// The marks of an entry stand behind its status: one where it is pinned and one where it is
/// modified, and they change nothing else. Local entries and those that are not locked have none.
pub proof fn law_marks_stand_behind(e: EntryView, f: EntryFacts, width: nat)
    ensures
        status_line(e, f, width) == if e.source is Local || f.locked_sha is None {
            status_line(e, unmarked(f), width)
        } else {
            status_line(e, unmarked(f), width) + (if f.pinned {
                "  [pinned]"@
            } else {
                Seq::empty()
            }) + (if f.modified {
                "  [modified]"@
            } else {
                Seq::empty()
            })
        },
{
    assert(annotation(false, false) =~= Seq::<char>::empty());
    let p = if f.pinned {
        "  [pinned]"@
    } else {
        Seq::empty()
    };
    let m = if f.modified {
        "  [modified]"@
    } else {
        Seq::empty()
    };
    assert(status_line(e, unmarked(f), width) + p + m =~= status_line(e, unmarked(f), width) + (p
        + m));
    if !(e.source is Local) && f.locked_sha is Some {
        assert(annotation(f.pinned, f.modified) =~= p + m);
        assert(status_line(e, f, width) =~= status_line(e, unmarked(f), width) + (p + m));
    } else {
        assert(status_line(e, f, width) =~= status_line(e, unmarked(f), width));
    }
}

/// The status of a locked entry says that its files are missing or stale exactly where the revision
/// of the cached files is not known or is not the locked one.
pub proof fn law_stale_files_are_said(e: EntryView, f: EntryFacts, width: nat)
    requires
        !(e.source is Local),
        f.locked_sha is Some,
        !f.locked_sha->Some_0@.contains(')'),
        f.upstream_sha matches Some(u) ==> !u@.contains(')'),
    ensures
        ends_with(status_line(e, unmarked(f), width), "  (missing or stale)"@) <==> !(
        f.cached_sha matches Some(c) && c@ == f.locked_sha->Some_0@),
{
    let sha = f.locked_sha->Some_0@;
    let note = "  (missing or stale)"@;
    let g = unmarked(f);
    let line = status_line(e, g, width);
    reveal_strlit("  (missing or stale)");
    reveal_strlit("up to date  sha=");
    reveal_strlit("outdated    locked=");
    reveal_strlit("  upstream=");
    reveal_strlit("locked    sha=");
    assert(annotation(false, false) =~= Seq::<char>::empty());
    let status = entry_status(e, g);
    assert(line.last() == status.last());
    if !(f.cached_sha matches Some(c) && c@ == sha) {
        assert(status =~= "locked    sha="@ + short_sha_text(sha) + note);
        assert(line.subrange(line.len() - note.len(), line.len() as int) =~= note);
    } else {
        lemma_no_bracket(sha);
        if let Some(u) = f.upstream_sha {
            lemma_no_bracket(u@);
        }
        assert(status.last() != ')');
        if ends_with(line, note) {
            assert(line.subrange(line.len() - note.len(), line.len() as int)[note.len() - 1]
                == note[note.len() - 1]);
        }
    }
}

proof fn lemma_no_bracket(sha: Seq<char>)
    requires
        !sha.contains(')'),
    ensures
        short_sha_text(sha).len() > 0 ==> short_sha_text(sha).last() != ')',
{
    law_short_revision(sha);
    let s = short_sha_text(sha);
    if s.len() > 0 {
        assert(s[s.len() - 1] == sha[s.len() - 1]);
        assert(sha.contains(sha[s.len() - 1]));
    }
}

/// An entry of a repository whose files are those of the locked revision is up to date exactly where
/// the revision upstream is the locked one, and outdated where it is another. Where upstream is not
/// asked for it is only locked. An entry without a lock record is unlocked.
pub proof fn law_status_against_upstream(e: EntryView, f: EntryFacts)
    requires
        e.source is Github,
        f.locked_sha matches Some(s) ==> (f.cached_sha matches Some(c) && c@ == s@),
    ensures
        starts_with(entry_status(e, f), "up to date"@) <==> f.locked_sha is Some && (
        f.upstream_sha matches Some(u) && u@ == f.locked_sha->Some_0@),
        starts_with(entry_status(e, f), "outdated"@) <==> f.locked_sha is Some && (
        f.upstream_sha matches Some(u) && u@ != f.locked_sha->Some_0@),
        starts_with(entry_status(e, f), "locked"@) <==> f.locked_sha is Some && f.upstream_sha is None,
        starts_with(entry_status(e, f), "unlocked"@) <==> f.locked_sha is None,
{
    reveal_strlit("up to date");
    reveal_strlit("up to date  sha=");
    reveal_strlit("outdated");
    reveal_strlit("outdated    locked=");
    reveal_strlit("locked");
    reveal_strlit("locked    sha=");
    reveal_strlit("unlocked");
    let s = entry_status(e, f);
    assert forall|p: Seq<char>| #[trigger] starts_with(s, p) && p.len() > 1 implies s[0] == p[0]
        && s[1] == p[1] by {
        assert(s.subrange(0, p.len() as int)[0] == p[0]);
        assert(s.subrange(0, p.len() as int)[1] == p[1]);
    }
    if f.locked_sha is None {
        assert(s.subrange(0, 8) =~= "unlocked"@);
    } else {
        match f.upstream_sha {
            None => {
                assert(s.subrange(0, 6) =~= "locked"@);
            },
            Some(u) => {
                if u@ == f.locked_sha->Some_0@ {
                    assert(s.subrange(0, 10) =~= "up to date"@);
                } else {
                    assert(s.subrange(0, 8) =~= "outdated"@);
                }
            },
        }
    }
}

/// The status of a locked entry names the short form of the locked revision. It adds that the files
/// are missing or stale where the cached revision is not the locked one. Else an entry of a
/// repository is up to date where the revision upstream is the locked one, and outdated where it is
/// another, which is named, too; without one, and from anywhere else, an entry is just locked.
pub proof fn law_status_of_a_locked_entry(e: EntryView, f: EntryFacts)
    requires
        !(e.source is Local),
        f.locked_sha is Some,
    ensures
        ({
            let locked = f.locked_sha->Some_0@;
            let sha = short_sha_text(locked);
            entry_status(e, unmarked(f)) == (if f.cached_sha is None || f.cached_sha->Some_0@
                != locked {
                "locked    sha="@ + sha + "  (missing or stale)"@
            } else if !(e.source is Github) || f.upstream_sha is None {
                "locked    sha="@ + sha
            } else if f.upstream_sha->Some_0@ == locked {
                "up to date  sha="@ + sha
            } else {
                "outdated    locked="@ + sha + "  upstream="@ + short_sha_text(
                    f.upstream_sha->Some_0@,
                )
            })
        }),
{
    let s = entry_status(e, unmarked(f));
    assert(annotation(false, false) =~= Seq::<char>::empty());
    let locked = f.locked_sha->Some_0@;
    let sha = short_sha_text(locked);
    if f.cached_sha is None || f.cached_sha->Some_0@ != locked {
        assert(s =~= "locked    sha="@ + sha + "  (missing or stale)"@);
    } else if !(e.source is Github) || f.upstream_sha is None {
        assert(s =~= "locked    sha="@ + sha);
    } else if f.upstream_sha->Some_0@ == locked {
        assert(s =~= "up to date  sha="@ + sha);
    } else {
        assert(s =~= "outdated    locked="@ + sha + "  upstream="@ + short_sha_text(
            f.upstream_sha->Some_0@,
        ));
    }
}

/// A local entry is said to miss its path exactly where the path does not exist, and the path is
/// named. Nothing else counts for it.
pub proof fn law_local_status(e: EntryView, f: EntryFacts)
    requires
        e.source is Local,
    ensures
        f.local_exists ==> entry_status(e, f) == "local"@,
        !f.local_exists ==> ends_with(entry_status(e, f), e.source->path) && entry_status(e, f)
            != "local"@,
{
    reveal_strlit("local");
    reveal_strlit("local  \u{2717} path missing: ");
    if !f.local_exists {
        let s = entry_status(e, f);
        let p = e.source->path;
        assert(s.subrange(s.len() - p.len(), s.len() as int) =~= p);
        assert(s.len() > 5);
    }
}

/// Each line starts with the name of its entry, and the status of all entries starts in the same
/// column where no name is longer than the column.
pub proof fn law_names_stand_in_a_column(e: EntryView, f: EntryFacts, width: nat)
    ensures
        e.name.is_prefix_of(status_line(e, f, width)),
        e.name.len() <= width ==> status_line(e, f, width).len() > width && status_line(
            e,
            f,
            width,
        ).skip(width as int) == " "@ + entry_status(e, f),
{
    reveal_strlit(" ");
    let line = status_line(e, f, width);
    assert(line.subrange(0, e.name.len() as int) =~= e.name);
    if e.name.len() <= width {
        assert(line.skip(width as int) =~= " "@ + entry_status(e, f));
    }
}

/// The column of names is two wider than the longest name, in bytes; without entries it is twelve
/// wide.
pub proof fn law_column_fits(es: Seq<EntryView>)
    ensures
        es.len() == 0 ==> column(es) == 12,
        forall|i: int|
            0 <= i < es.len() && byte_len((#[trigger] es[i]).name) + 2 <= usize::MAX
                ==> byte_len(es[i].name) + 2 <= column(es),
        es.len() > 0 && column(es) < usize::MAX ==> exists|i: int|
            0 <= i < es.len() && byte_len((#[trigger] es[i]).name) + 2 == column(es),
{
    lemma_longest_name(es);
}

proof fn lemma_longest_name(es: Seq<EntryView>)
    ensures
        forall|i: int|
            0 <= i < es.len() ==> byte_len((#[trigger] es[i]).name) <= longest_name(es),
        es.len() > 0 ==> exists|i: int|
            0 <= i < es.len() && byte_len((#[trigger] es[i]).name) == longest_name(es),
    decreases es.len(),
{
    if es.len() > 0 {
        let init = es.drop_last();
        lemma_longest_name(init);
        let l = es.len() - 1;
        assert(es.last() == es[l]);
        assert forall|i: int| 0 <= i < es.len() implies byte_len((#[trigger] es[i]).name)
            <= longest_name(es) by {
            if i < l {
                assert(init[i] == es[i]);
            }
        }
        if byte_len(es[l].name) != longest_name(es) {
            let k = choose|k: int|
                0 <= k < init.len() && byte_len((#[trigger] init[k]).name) == longest_name(init);
            assert(es[k] == init[k]);
        }
    }
}

/// The counts of the summary count each entry once, by its type, and each mark once.
pub proof fn law_counts(es: Seq<EntryView>, fs: Seq<EntryFacts>)
    ensures
        count_type(es, EntityType::Skill) + count_type(es, EntityType::Agent) == es.len(),
        count_type(es, EntityType::Skill) == es.filter(
            |e: EntryView| e.entity_type == EntityType::Skill,
        ).len(),
        count_pinned(fs) == fs.filter(|f: EntryFacts| f.pinned).len(),
        count_modified(fs) == fs.filter(|f: EntryFacts| f.modified).len(),
    decreases es.len() + fs.len(),
{
    reveal(Seq::filter);
    if es.len() > 0 {
        law_counts(es.drop_last(), fs);
    } else if fs.len() > 0 {
        law_counts(es, fs.drop_last());
    }
}

/// The lines of entries stand one below the other, each ended.
pub proof fn law_one_line_per_entry(es: Seq<EntryView>, fs: Seq<EntryFacts>, width: nat, i: int)
    requires
        0 <= i < fs.len() <= es.len(),
    ensures
        status_lines(es, fs.take(i + 1), width) == status_lines(es, fs.take(i), width)
            + status_line(es[i], fs[i], width) + "\n"@,
{
    assert(fs.take(i + 1).drop_last() =~= fs.take(i));
}

/// Where the facts of all entries are known, the summary stands below their lines, behind an empty
/// line. Without entries nothing is printed.
pub proof fn law_summary_stands_below(m: ManifestView, fs: Seq<EntryFacts>)
    ensures
        fs.len() == 0 ==> status_output(m, fs).len() == 0,
        0 < fs.len() == m.entries.len() ==> status_output(m, fs) == status_lines(
            m.entries,
            fs,
            column(m.entries),
        ) + "\n"@ + summary(m, fs) + "\n"@,
        0 < fs.len() < m.entries.len() ==> status_output(m, fs) == status_lines(
            m.entries,
            fs,
            column(m.entries),
        ),
{
    let ls = status_lines(m.entries, fs, column(m.entries));
    assert(ls + ("\n"@ + summary(m, fs) + "\n"@) =~= ls + "\n"@ + summary(m, fs) + "\n"@);
    assert(ls + Seq::<char>::empty() =~= ls);
}

/// How often something is there, in words: one, or several.
pub open spec fn times(n: nat, word: Seq<char>) -> Seq<char> {
    if n == 1 {
        "1 "@ + word
    } else {
        decimal(n) + " "@ + word + "s"@
    }
}

/// The summary starts with the number of skills and of agents, each left out where there are none.
pub proof fn law_summary_counts(m: ManifestView, fs: Seq<EntryFacts>)
    requires
        m.entries.len() > 0,
    ensures
        ({
            let skills = m.entries.filter(
                |e: EntryView| e.entity_type == EntityType::Skill,
            ).len();
            let agents = (m.entries.len() - skills) as nat;
            let head = "  "@ + (if agents == 0 {
                times(skills, "skill"@)
            } else if skills == 0 {
                times(agents, "agent"@)
            } else {
                times(skills, "skill"@) + ", "@ + times(agents, "agent"@)
            });
            &&& head.is_prefix_of(summary(m, fs))
            &&& fs.filter(|f: EntryFacts| f.pinned).len() == 0 && fs.filter(
                |f: EntryFacts| f.modified,
            ).len() == 0 && m.install_targets.len() == 0 ==> summary(m, fs) == head
        }),
{
    law_counts(m.entries, fs);
    let skills = count_type(m.entries, EntityType::Skill);
    let agents = count_type(m.entries, EntityType::Agent);
    lemma_counted(skills, "skill"@);
    lemma_counted(agents, "agent"@);
    let parts = counted(skills, "skill"@) + counted(agents, "agent"@);
    let t = join(parts, ", "@);
    if agents == 0 {
        assert(parts =~= seq![times(skills, "skill"@)]);
        assert(t =~= times(skills, "skill"@));
    } else if skills == 0 {
        assert(parts =~= seq![times(agents, "agent"@)]);
        assert(t =~= times(agents, "agent"@));
    } else {
        assert(parts =~= seq![times(skills, "skill"@), times(agents, "agent"@)]);
        assert(parts.drop_last() =~= seq![times(skills, "skill"@)]);
        assert(join(parts.drop_last(), ", "@) =~= times(skills, "skill"@));
        assert(t =~= times(skills, "skill"@) + ", "@ + times(agents, "agent"@));
    }
    let s = summary(m, fs);
    let head = "  "@ + t;
    assert(s.subrange(0, head.len() as int) =~= head);
    if count_pinned(fs) == 0 && count_modified(fs) == 0 && m.install_targets.len() == 0 {
        assert(s =~= head);
    }
}

proof fn lemma_counted(n: nat, word: Seq<char>)
    ensures
        n == 0 ==> counted(n, word).len() == 0,
        n > 0 ==> counted(n, word) == seq![times(n, word)],
{
    if n == 1 {
        reveal_strlit("1 ");
        reveal_strlit(" ");
        assert(decimal(1) =~= seq!['1']);
        assert("1 "@ =~= decimal(1) + " "@);
        assert(decimal(n) + " "@ + word =~= "1 "@ + word);
    }
}

/// How many entries are marked, in words; nothing where there are none.
pub open spec fn marks(n: nat, word: Seq<char>) -> Seq<char> {
    if n == 0 {
        Seq::empty()
    } else {
        " \u{b7} "@ + decimal(n) + word
    }
}

/// Behind its first words the summary gives the number of pinned entries and of modified ones, where
/// there are some, and then the install targets, where there are any.
pub proof fn law_summary_marks(m: ManifestView, fs: Seq<EntryFacts>)
    ensures
        ({
            let tail = marks(fs.filter(|f: EntryFacts| f.pinned).len(), " pinned"@) + marks(
                fs.filter(|f: EntryFacts| f.modified).len(),
                " modified"@,
            ) + (if m.install_targets.len() == 0 {
                Seq::empty()
            } else {
                "\n  Install targets: "@ + join(
                    m.install_targets.map_values(|t: TargetView| t.label()),
                    ", "@,
                )
            });
            let bare = ManifestView { install_targets: Seq::empty(), ..m };
            summary(m, fs) == summary(bare, Seq::empty()) + tail
        }),
{
    law_counts(m.entries, fs);
    law_counts(m.entries, Seq::empty());
    reveal(Seq::filter);
    let bare = ManifestView { install_targets: Seq::empty(), ..m };
    let none = Seq::<EntryFacts>::empty();
    let head = summary(bare, none);
    let t = "  "@ + join(
        counted(count_type(m.entries, EntityType::Skill), "skill"@) + counted(
            count_type(m.entries, EntityType::Agent),
            "agent"@,
        ),
        ", "@,
    );
    assert(head =~= t);
    let tail = marked(count_pinned(fs), " pinned"@) + marked(count_modified(fs), " modified"@)
        + targets_line(m.install_targets);
    assert(summary(m, fs) =~= head + tail);
}

/// The revision that is known of a branch or tag is the first that was found for just that branch or
/// tag of just that repository.
pub proof fn law_first_known_revision(v: Seq<ResolvedSha>, owner_repo: Seq<char>, ref_: Seq<char>)
    ensures
        known_sha(v, owner_repo, ref_) is None <==> forall|i: int|
            0 <= i < v.len() ==> !is_known_as(#[trigger] v[i], owner_repo, ref_),
        known_sha(v, owner_repo, ref_) matches Some(s) ==> exists|i: int|
            0 <= i < v.len() && is_known_as(#[trigger] v[i], owner_repo, ref_) && v[i].sha@ == s
                && forall|j: int| 0 <= j < i ==> !is_known_as(#[trigger] v[j], owner_repo, ref_),
    decreases v.len(),
{
    if v.len() > 0 {
        let init = v.drop_last();
        let l = v.len() - 1;
        law_first_known_revision(init, owner_repo, ref_);
        assert(v.last() == v[l]);
        assert forall|i: int| 0 <= i < l implies init[i] == #[trigger] v[i] by {}
        if known_sha(init, owner_repo, ref_) is Some {
            let s = known_sha(init, owner_repo, ref_)->Some_0;
            let i = choose|i: int|
                0 <= i < init.len() && is_known_as(#[trigger] init[i], owner_repo, ref_)
                    && init[i].sha@ == s && forall|j: int|
                    0 <= j < i ==> !is_known_as(#[trigger] init[j], owner_repo, ref_);
            assert(is_known_as(v[i], owner_repo, ref_));
            assert forall|j: int| 0 <= j < i implies !is_known_as(
                #[trigger] v[j],
                owner_repo,
                ref_,
            ) by {
                assert(!is_known_as(init[j], owner_repo, ref_));
            }
        } else {
            assert forall|j: int| 0 <= j < l implies !is_known_as(
                #[trigger] v[j],
                owner_repo,
                ref_,
            ) by {
                assert(!is_known_as(init[j], owner_repo, ref_));
            }
            if is_known_as(v[l], owner_repo, ref_) {
                assert(known_sha(v, owner_repo, ref_) == Some(v[l].sha@));
            }
        }
    }
}

/// Whether a revision was found for a branch or tag of a repository.
pub open spec fn is_known_as(r: ResolvedSha, owner_repo: Seq<char>, ref_: Seq<char>) -> bool {
    r.owner_repo@ == owner_repo && r.ref_@ == ref_
}

} // verus!
