//! Checking a manifest.

use vstd::prelude::*;
use vstd::string::StringExecFns;
use crate::commands::common::{
    copy_texts, missing_manifest, missing_manifest_text, push_text, sentence,
};
use crate::commands::init::has_line;
use crate::error::SkillfileError;
use crate::lock::lock_key;
use crate::models::{entry_views, target_views, Entry, EntryView, InstallTarget, TargetView};
use crate::parser::{manifest_of, parse_manifest_str, text_without_bom, ParseView};
use crate::platforms::{known_adapters, platform_names, Platform};
use crate::text::{join, join_all, same, texts};

verus! {

/// The install targets for platforms that are not known.
pub open spec fn unknown_platforms(ts: Seq<TargetView>, names: Seq<Seq<char>>) -> Seq<Seq<char>>
    decreases ts.len(),
{
    if ts.len() == 0 {
        Seq::empty()
    } else {
        let init = unknown_platforms(ts.drop_last(), names);
        if names.contains(ts.last().adapter) {
            init
        } else {
            init.push("unknown platform '"@ + ts.last().adapter + "'"@)
        }
    }
}

/// The install targets that stand in the manifest before.
pub open spec fn repeated_targets(ts: Seq<TargetView>) -> Seq<Seq<char>>
    decreases ts.len(),
{
    if ts.len() == 0 {
        Seq::empty()
    } else {
        let init = repeated_targets(ts.drop_last());
        if ts.drop_last().contains(ts.last()) {
            init.push(
                "duplicate install target '"@ + ts.last().adapter + "  "@ + ts.last().scope.word()
                    + "'"@,
            )
        } else {
            init
        }
    }
}

/// The lock keys of entries.
pub open spec fn entry_keys(es: Seq<EntryView>) -> Seq<Seq<char>> {
    es.map_values(|e: EntryView| e.key())
}

/// The lock records of no entry.
pub open spec fn orphaned_records(keys: Seq<Seq<char>>, own: Seq<Seq<char>>) -> Seq<Seq<char>>
    decreases keys.len(),
{
    if keys.len() == 0 {
        Seq::empty()
    } else {
        let init = orphaned_records(keys.drop_last(), own);
        if own.contains(keys.last()) {
            init
        } else {
            init.push("orphaned lock entry '"@ + keys.last() + "'"@)
        }
    }
}

/// What is wrong with a manifest: what its parser warns about, platforms that are not known,
/// targets that are given twice, and lock records of no entry.
pub open spec fn problems(
    m: ParseView,
    platforms: Seq<Seq<char>>,
    lock_keys: Seq<Seq<char>>,
) -> Seq<Seq<char>> {
    m.warnings + unknown_platforms(m.install_targets, platforms) + repeated_targets(
        m.install_targets,
    ) + orphaned_records(lock_keys, entry_keys(m.entries))
}

fn push_unknown_platforms(ts: &Vec<InstallTarget>, names: &Vec<String>, out: &mut Vec<String>)
    ensures
        texts(final(out)@) == texts(old(out)@) + unknown_platforms(
            target_views(ts@),
            texts(names@),
        ),
{
    let ghost v = target_views(ts@);
    let ghost base = texts(out@);
    let mut i: usize = 0;
    assert(base + unknown_platforms(v.take(0), texts(names@)) =~= base);
    while i < ts.len()
        invariant
            v == target_views(ts@),
            i <= ts@.len(),
            texts(out@) == base + unknown_platforms(v.take(i as int), texts(names@)),
        decreases ts@.len() - i,
    {
        let ghost before = texts(out@);
        assert(v.take(i + 1).drop_last() =~= v.take(i as int));
        assert(v.take(i + 1).last() == ts@[i as int]@);
        if !has_line(names, &ts[i].adapter) {
            let m = sentence("unknown platform '", &ts[i].adapter, "'");
            push_text(out, &m);
            assert(texts(out@) =~= base + unknown_platforms(v.take(i + 1), texts(names@)));
        }
        i += 1;
    }
    assert(v.take(i as int) =~= v);
}

fn stands_before(ts: &Vec<InstallTarget>, i: usize) -> (r: bool)
    requires
        i < ts@.len(),
    ensures
        r == target_views(ts@).take(i as int).contains(target_views(ts@)[i as int]),
{
    let ghost v = target_views(ts@);
    let mut j: usize = 0;
    while j < i
        invariant
            v == target_views(ts@),
            j <= i < ts@.len(),
            forall|k: int| 0 <= k < j ==> v[k] != v[i as int],
        decreases i - j,
    {
        assert(v[j as int] == ts@[j as int]@);
        assert(v[i as int] == ts@[i as int]@);
        if same(&ts[j].adapter, &ts[i].adapter) && ts[j].scope == ts[i].scope {
            assert(v.take(i as int)[j as int] == v[i as int]);
            return true;
        }
        j += 1;
    }
    false
}

fn push_repeated_targets(ts: &Vec<InstallTarget>, out: &mut Vec<String>)
    ensures
        texts(final(out)@) == texts(old(out)@) + repeated_targets(target_views(ts@)),
{
    let ghost v = target_views(ts@);
    let ghost base = texts(out@);
    let mut i: usize = 0;
    assert(base + repeated_targets(v.take(0)) =~= base);
    while i < ts.len()
        invariant
            v == target_views(ts@),
            i <= ts@.len(),
            texts(out@) == base + repeated_targets(v.take(i as int)),
        decreases ts@.len() - i,
    {
        assert(v.take(i + 1).drop_last() =~= v.take(i as int));
        assert(v.take(i + 1).last() == ts@[i as int]@);
        if stands_before(ts, i) {
            let mut m = sentence("duplicate install target '", &ts[i].adapter, "  ");
            m.append(ts[i].scope.as_str());
            m.append("'");
            push_text(out, &m);
            assert(texts(out@) =~= base + repeated_targets(v.take(i + 1)));
        }
        i += 1;
    }
    assert(v.take(i as int) =~= v);
}

fn keys_of(entries: &Vec<Entry>) -> (r: Vec<String>)
    ensures
        texts(r@) == entry_keys(entry_views(entries@)),
{
    let ghost keys = entry_keys(entry_views(entries@));
    let mut out: Vec<String> = Vec::new();
    let mut i: usize = 0;
    assert(texts(out@) =~= keys.take(0));
    while i < entries.len()
        invariant
            keys == entry_keys(entry_views(entries@)),
            i <= entries@.len(),
            texts(out@) == keys.take(i as int),
        decreases entries@.len() - i,
    {
        let k = lock_key(&entries[i]);
        push_text(&mut out, &k);
        assert(entry_views(entries@)[i as int] == entries@[i as int]@);
        assert(keys.take(i + 1) =~= keys.take(i as int).push(keys[i as int]));
        i += 1;
    }
    assert(keys.take(i as int) =~= keys);
    out
}

fn push_orphaned_records(keys: &Vec<String>, own: &Vec<String>, out: &mut Vec<String>)
    ensures
        texts(final(out)@) == texts(old(out)@) + orphaned_records(texts(keys@), texts(own@)),
{
    let ghost v = texts(keys@);
    let ghost base = texts(out@);
    let mut i: usize = 0;
    assert(base + orphaned_records(v.take(0), texts(own@)) =~= base);
    while i < keys.len()
        invariant
            v == texts(keys@),
            i <= keys@.len(),
            texts(out@) == base + orphaned_records(v.take(i as int), texts(own@)),
        decreases keys@.len() - i,
    {
        assert(v.take(i + 1).drop_last() =~= v.take(i as int));
        assert(v.take(i + 1).last() == keys@[i as int]@);
        if !has_line(own, &keys[i]) {
            let m = sentence("orphaned lock entry '", &keys[i], "'");
            push_text(out, &m);
            assert(texts(out@) =~= base + orphaned_records(v.take(i + 1), texts(own@)));
        }
        i += 1;
    }
    assert(v.take(i as int) =~= v);
}

/// Checks a manifest, whose text is given where it exists, for the known platforms and the keys of
/// its lock file. A manifest with problems is refused with all of them.
pub fn cmd_validate(
    repo_root: &str,
    manifest: Option<&str>,
    platforms: &Vec<Platform>,
    lock_keys: &Vec<String>,
) -> (r: Result<String, SkillfileError>)
    ensures
        match manifest {
            None => r matches Err(SkillfileError::Manifest(m)) && m@ == missing_manifest_text(
                repo_root@,
            ),
            Some(text) => {
                let found = problems(
                    manifest_of(text_without_bom(text@)),
                    platform_names(platforms@),
                    texts(lock_keys@),
                );
                if found.len() == 0 {
                    r matches Ok(m) && m@ == "Skillfile OK"@
                } else {
                    r matches Err(SkillfileError::Manifest(m)) && m@ == join(found, "\n"@)
                }
            },
        },
{
    let text = match manifest {
        None => {
            return Err(missing_manifest(repo_root));
        },
        Some(t) => t,
    };
    let result = parse_manifest_str(text);
    let names = known_adapters(platforms);
    let own = keys_of(&result.manifest.entries);
    let mut found = copy_texts(&result.warnings);
    push_unknown_platforms(&result.manifest.install_targets, &names, &mut found);
    push_repeated_targets(&result.manifest.install_targets, &mut found);
    push_orphaned_records(lock_keys, &own, &mut found);
    assert(texts(found@).len() == found@.len());
    if found.len() == 0 {
        Ok(String::from_str("Skillfile OK"))
    } else {
        Err(SkillfileError::Manifest(join_all(&found, "\n")))
    }
}

} // verus!
