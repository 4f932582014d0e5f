//! What is wrong with a manifest, and what is found where it is installed.

use vstd::prelude::*;
use crate::commands::files::{cache_files, file_views, is_cache_file};
use crate::commands::installed_variants::{
    dir_variants, single_variants, DirView, FoundDir, FoundFile, SingleView,
};
use crate::commands::validate::{
    entry_keys, orphaned_records, problems, repeated_targets, unknown_platforms,
};
use crate::models::{EntityType, TargetView};
use crate::parser::ParseView;
use crate::platforms::{platform_supports, Platform};

verus! {

/// Whether a target is for a platform that is not known.
pub open spec fn is_unknown(names: Seq<Seq<char>>) -> spec_fn(TargetView) -> bool {
    |t: TargetView| !names.contains(t.adapter)
}

/// What is said of a target for a platform that is not known.
pub open spec fn unknown_text() -> spec_fn(TargetView) -> Seq<char> {
    |t: TargetView| "unknown platform '"@ + t.adapter + "'"@
}

/// Each target for a platform that is not known is reported, in the order of the targets, and no
/// other.
pub proof fn law_unknown_platforms(ts: Seq<TargetView>, names: Seq<Seq<char>>)
    ensures
        unknown_platforms(ts, names) == ts.filter(is_unknown(names)).map_values(unknown_text()),
    decreases ts.len(),
{
    reveal(Seq::filter);
    if ts.len() > 0 {
        law_unknown_platforms(ts.drop_last(), names);
        let f = ts.drop_last().filter(is_unknown(names));
        assert(f.push(ts.last()).map_values(unknown_text()) =~= f.map_values(unknown_text()).push(
            unknown_text()(ts.last()),
        ));
    } else {
        assert(ts.filter(is_unknown(names)).map_values(unknown_text()) =~= Seq::empty());
    }
}

/// Whether no lock record is that of an entry.
pub open spec fn is_orphan(own: Seq<Seq<char>>) -> spec_fn(Seq<char>) -> bool {
    |k: Seq<char>| !own.contains(k)
}

/// What is said of a lock record of no entry.
pub open spec fn orphan_text() -> spec_fn(Seq<char>) -> Seq<char> {
    |k: Seq<char>| "orphaned lock entry '"@ + k + "'"@
}

/// Each lock record of no entry is reported, in the order of the records, and no other.
pub proof fn law_orphaned_records(keys: Seq<Seq<char>>, own: Seq<Seq<char>>)
    ensures
        orphaned_records(keys, own) == keys.filter(is_orphan(own)).map_values(orphan_text()),
    decreases keys.len(),
{
    reveal(Seq::filter);
    if keys.len() > 0 {
        law_orphaned_records(keys.drop_last(), own);
        let f = keys.drop_last().filter(is_orphan(own));
        assert(f.push(keys.last()).map_values(orphan_text()) =~= f.map_values(orphan_text()).push(
            orphan_text()(keys.last()),
        ));
    } else {
        assert(keys.filter(is_orphan(own)).map_values(orphan_text()) =~= Seq::empty());
    }
}

/// No target is reported as repeated exactly where each stands once.
pub proof fn law_repeated_targets(ts: Seq<TargetView>)
    ensures
        repeated_targets(ts).len() == 0 <==> ts.no_duplicates(),
    decreases ts.len(),
{
    if ts.len() > 0 {
        let init = ts.drop_last();
        law_repeated_targets(init);
        let l = ts.len() - 1;
        if repeated_targets(ts).len() == 0 {
            assert forall|i: int, j: int| 0 <= i < ts.len() && 0 <= j < ts.len() && i != j implies ts[i]
                != ts[j] by {
                if i < l && j < l {
                    assert(init[i] != init[j]);
                } else if i < l {
                    assert(init.contains(init[i]));
                } else {
                    assert(init.contains(init[j]));
                }
            }
        }
        if ts.no_duplicates() {
            assert forall|i: int, j: int| 0 <= i < l && 0 <= j < l && i != j implies init[i]
                != init[j] by {
                assert(ts[i] != ts[j]);
            }
            if init.contains(ts.last()) {
                let i = choose|i: int| 0 <= i < init.len() && init[i] == ts.last();
                assert(ts[i] != ts[l]);
            }
        }
    }
}

/// A target adds a problem where it stands in the manifest before, with its platform and its scope.
pub proof fn law_repeated_target_is_named(ts: Seq<TargetView>, t: TargetView)
    ensures
        ts.contains(t) ==> repeated_targets(ts.push(t)) == repeated_targets(ts).push(
            "duplicate install target '"@ + t.adapter + "  "@ + t.scope.word() + "'"@,
        ),
        !ts.contains(t) ==> repeated_targets(ts.push(t)) == repeated_targets(ts),
{
    assert(ts.push(t).drop_last() =~= ts);
}

/// A manifest is found valid exactly where its parser warns about nothing, every target is for a
/// known platform and stands once, and every lock record is that of an entry.
pub proof fn law_valid_manifest(
    m: ParseView,
    platforms: Seq<Seq<char>>,
    lock_keys: Seq<Seq<char>>,
)
    ensures
        problems(m, platforms, lock_keys).len() == 0 <==> {
            &&& m.warnings.len() == 0
            &&& forall|i: int|
                0 <= i < m.install_targets.len() ==> platforms.contains(
                    (#[trigger] m.install_targets[i]).adapter,
                )
            &&& m.install_targets.no_duplicates()
            &&& forall|i: int|
                0 <= i < lock_keys.len() ==> exists|j: int|
                    0 <= j < m.entries.len() && (#[trigger] m.entries[j]).key()
                        == #[trigger] lock_keys[i]
        },
{
    law_repeated_targets(m.install_targets);
    lemma_none_unknown(m.install_targets, platforms);
    let own = entry_keys(m.entries);
    lemma_no_orphan(lock_keys, own);
    assert forall|i: int| 0 <= i < lock_keys.len() implies (own.contains(#[trigger] lock_keys[i])
        <==> exists|j: int|
        0 <= j < m.entries.len() && (#[trigger] m.entries[j]).key() == lock_keys[i]) by {
        if own.contains(lock_keys[i]) {
            let j = choose|j: int| 0 <= j < own.len() && own[j] == lock_keys[i];
            assert(m.entries[j].key() == own[j]);
        }
        if exists|j: int|
            0 <= j < m.entries.len() && (#[trigger] m.entries[j]).key() == lock_keys[i] {
            let j = choose|j: int|
                0 <= j < m.entries.len() && (#[trigger] m.entries[j]).key() == lock_keys[i];
            assert(own[j] == lock_keys[i]);
        }
    }
}

proof fn lemma_none_unknown(ts: Seq<TargetView>, names: Seq<Seq<char>>)
    ensures
        unknown_platforms(ts, names).len() == 0 <==> forall|i: int|
            0 <= i < ts.len() ==> names.contains((#[trigger] ts[i]).adapter),
    decreases ts.len(),
{
    if ts.len() > 0 {
        let init = ts.drop_last();
        lemma_none_unknown(init, names);
        assert(ts.last() == ts[ts.len() - 1]);
        assert forall|i: int| 0 <= i < init.len() implies init[i] == #[trigger] ts[i] by {}
        if unknown_platforms(ts, names).len() == 0 {
            assert forall|i: int| 0 <= i < ts.len() implies names.contains(
                (#[trigger] ts[i]).adapter,
            ) by {
                if i < init.len() {
                    assert(names.contains(init[i].adapter));
                }
            }
        }
    }
}

proof fn lemma_no_orphan(keys: Seq<Seq<char>>, own: Seq<Seq<char>>)
    ensures
        orphaned_records(keys, own).len() == 0 <==> forall|i: int|
            0 <= i < keys.len() ==> own.contains(#[trigger] keys[i]),
    decreases keys.len(),
{
    if keys.len() > 0 {
        let init = keys.drop_last();
        lemma_no_orphan(init, own);
        assert(keys.last() == keys[keys.len() - 1]);
        assert forall|i: int| 0 <= i < init.len() implies init[i] == #[trigger] keys[i] by {}
        if orphaned_records(keys, own).len() == 0 {
            assert forall|i: int| 0 <= i < keys.len() implies own.contains(#[trigger] keys[i]) by {
                if i < init.len() {
                    assert(own.contains(init[i]));
                }
            }
        }
    }
}

// ---------------------------------------------------------------------------
// Installed copies
// ---------------------------------------------------------------------------

/// A platform takes entities of a type exactly where the first known platform of its name does.
pub proof fn law_first_platform_decides(ps: Seq<Platform>, name: Seq<char>, t: EntityType)
    ensures
        platform_supports(ps, name, t) <==> exists|i: int|
            0 <= i < ps.len() && (#[trigger] ps[i]).name@ == name && (match t {
                EntityType::Skill => ps[i].takes_skills,
                EntityType::Agent => ps[i].takes_agents,
            }) && forall|j: int| 0 <= j < i ==> (#[trigger] ps[j]).name@ != name,
    decreases ps.len(),
{
    if ps.len() > 0 && ps[0].name@ != name {
        let rest = ps.skip(1);
        law_first_platform_decides(rest, name, t);
        if platform_supports(ps, name, t) {
            let i = choose|i: int|
                0 <= i < rest.len() && (#[trigger] rest[i]).name@ == name && (match t {
                    EntityType::Skill => rest[i].takes_skills,
                    EntityType::Agent => rest[i].takes_agents,
                }) && forall|j: int| 0 <= j < i ==> (#[trigger] rest[j]).name@ != name;
            assert forall|j: int| 0 <= j < i + 1 implies (#[trigger] ps[j]).name@ != name by {
                if j > 0 {
                    assert(rest[j - 1].name@ != name);
                }
            }
            assert(ps[i + 1] == rest[i]);
        }
        if exists|i: int|
            0 <= i < ps.len() && (#[trigger] ps[i]).name@ == name && (match t {
                EntityType::Skill => ps[i].takes_skills,
                EntityType::Agent => ps[i].takes_agents,
            }) && forall|j: int| 0 <= j < i ==> (#[trigger] ps[j]).name@ != name {
            let i = choose|i: int|
                0 <= i < ps.len() && (#[trigger] ps[i]).name@ == name && (match t {
                    EntityType::Skill => ps[i].takes_skills,
                    EntityType::Agent => ps[i].takes_agents,
                }) && forall|j: int| 0 <= j < i ==> (#[trigger] ps[j]).name@ != name;
            assert(i > 0);
            assert forall|j: int| 0 <= j < i - 1 implies (#[trigger] rest[j]).name@ != name by {
                assert(ps[j + 1].name@ != name);
            }
            assert(rest[i - 1] == ps[i]);
        }
    } else if ps.len() > 0 {
        assert(ps[0].name@ == name);
    }
}

/// Whether an installed file counts: it is there, and its platform takes such entities.
pub open spec fn file_counts(ps: Seq<Platform>, t: EntityType) -> spec_fn(FoundFile) -> bool {
    |f: FoundFile| f.content is Some && platform_supports(ps, f.target.adapter@, t)
}

/// An installed file as a copy of its entry.
pub open spec fn file_copy() -> spec_fn(FoundFile) -> SingleView {
    |f: FoundFile| SingleView { label: f.target@.label(), content: f.content->Some_0@ }
}

/// The copies of a one-file entry are the files at its targets, in their order, each with its own
/// text: those that are there and whose platform takes such entities.
pub proof fn law_file_copies(ps: Seq<Platform>, t: EntityType, fs: Seq<FoundFile>)
    ensures
        single_variants(ps, t, fs) == fs.filter(file_counts(ps, t)).map_values(file_copy()),
    decreases fs.len(),
{
    reveal(Seq::filter);
    if fs.len() > 0 {
        law_file_copies(ps, t, fs.drop_last());
        let g = fs.drop_last().filter(file_counts(ps, t));
        assert(g.push(fs.last()).map_values(file_copy()) =~= g.map_values(file_copy()).push(
            file_copy()(fs.last()),
        ));
    } else {
        assert(fs.filter(file_counts(ps, t)).map_values(file_copy()) =~= Seq::empty());
    }
}

/// Whether an installed directory counts.
pub open spec fn dir_counts(ps: Seq<Platform>, t: EntityType) -> spec_fn(FoundDir) -> bool {
    |f: FoundDir| f.files is Some && platform_supports(ps, f.target.adapter@, t)
}

/// An installed directory as a copy of its entry.
pub open spec fn dir_copy() -> spec_fn(FoundDir) -> DirView {
    |f: FoundDir| DirView { label: f.target@.label(), files: file_views(f.files->Some_0@) }
}

/// The copies of a directory entry are the directories at its targets, in their order, each with its
/// own files: those that are there and whose platform takes such entities.
pub proof fn law_dir_copies(ps: Seq<Platform>, t: EntityType, fs: Seq<FoundDir>)
    ensures
        dir_variants(ps, t, fs) == fs.filter(dir_counts(ps, t)).map_values(dir_copy()),
    decreases fs.len(),
{
    reveal(Seq::filter);
    if fs.len() > 0 {
        law_dir_copies(ps, t, fs.drop_last());
        let g = fs.drop_last().filter(dir_counts(ps, t));
        assert(g.push(fs.last()).map_values(dir_copy()) =~= g.map_values(dir_copy()).push(
            dir_copy()(fs.last()),
        ));
    } else {
        assert(fs.filter(dir_counts(ps, t)).map_values(dir_copy()) =~= Seq::empty());
    }
}

/// Two targets have the same label only where they are the same: the label tells copies apart.
pub proof fn law_label_names_the_target(a: TargetView, b: TargetView)
    requires
        !a.adapter.contains(' '),
        !b.adapter.contains(' '),
    ensures
        a.label() == b.label() <==> a == b,
{
    reveal_strlit(" (");
    reveal_strlit(")");
    reveal_strlit("global");
    reveal_strlit("local");
    if a.label() == b.label() {
        let x = a.adapter.len() as int;
        let y = b.adapter.len() as int;
        assert(a.label()[x] == ' ');
        assert(b.label()[y] == ' ');
        if x < y {
            assert(b.adapter.contains(b.adapter[x]));
            assert(b.label()[x] == b.adapter[x]);
        }
        if y < x {
            assert(a.adapter.contains(a.adapter[y]));
            assert(a.label()[y] == a.adapter[y]);
        }
        assert forall|i: int| 0 <= i < x implies a.adapter[i] == b.adapter[i] by {
            assert(a.label()[i] == a.adapter[i]);
            assert(b.label()[i] == b.adapter[i]);
        }
        assert(a.adapter =~= b.adapter);
        assert(a.label()[x + 2] == a.scope.word()[0]);
        assert(b.label()[x + 2] == b.scope.word()[0]);
    }
}

/// The upstream files of the cache are all its files but the tool's own notes, in their order.
pub proof fn law_cache_files(paths: Seq<Seq<char>>)
    ensures
        cache_files(paths) == paths.filter(|p: Seq<char>| is_cache_file(p)),
    decreases paths.len(),
{
    reveal(Seq::filter);
    if paths.len() > 0 {
        law_cache_files(paths.drop_last());
    }
}

} // verus!
