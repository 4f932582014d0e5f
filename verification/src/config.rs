//! The install targets that a user configures for all repositories.

use vstd::prelude::*;
use vstd::string::StringExecFns;
use crate::error::SkillfileError;
use crate::models::{target_views, InstallTarget, Manifest, ManifestView, Scope, TargetView};
use crate::parser::{lossy_text, manifest_of, parse_manifest, without_bom};
use crate::paths::{join_path, join_paths};

verus! {

/// One install target in the configuration file.
#[derive(Debug)]
pub struct InstallEntry {
    pub platform: String,
    pub scope: String,
}

/// An install target of the configuration file as a value of texts.
pub struct InstallEntryView {
    pub platform: Seq<char>,
    pub scope: Seq<char>,
}

impl View for InstallEntry {
    type V = InstallEntryView;

    open spec fn view(&self) -> InstallEntryView {
        InstallEntryView { platform: self.platform@, scope: self.scope@ }
    }
}

/// The contents of the install targets of the configuration file.
pub open spec fn install_entry_views(v: Seq<InstallEntry>) -> Seq<InstallEntryView> {
    v.map_values(|e: InstallEntry| e@)
}

/// An install target as it stands in the configuration file.
pub open spec fn entry_of_target(t: TargetView) -> InstallEntryView {
    InstallEntryView { platform: t.adapter, scope: t.scope.word() }
}

/// The install target that the configuration file names, where it names a scope.
pub open spec fn target_of_entry(e: InstallEntryView) -> Option<TargetView> {
    match Scope::of_word(e.scope) {
        Some(scope) => Some(TargetView { adapter: e.platform, scope }),
        None => None,
    }
}

/// The install targets that the configuration file names, without those of an unknown scope.
pub open spec fn targets_of_entries(s: Seq<InstallEntryView>) -> Seq<TargetView>
    decreases s.len(),
{
    if s.len() == 0 {
        Seq::empty()
    } else {
        match target_of_entry(s.last()) {
            Some(t) => targets_of_entries(s.drop_last()).push(t),
            None => targets_of_entries(s.drop_last()),
        }
    }
}

impl InstallEntry {
    /// An install target as it stands in the configuration file.
    pub fn from_target(target: &InstallTarget) -> (r: InstallEntry)
        ensures
            r@ == entry_of_target(target@),
    {
        InstallEntry {
            platform: target.adapter.clone(),
            scope: String::from_str(target.scope.as_str()),
        }
    }

    /// The install target that the entry names. `None` for an unknown scope.
    pub fn to_install_target(&self) -> (r: Option<InstallTarget>)
        ensures
            match target_of_entry(self@) {
                Some(t) => r matches Some(x) && x@ == t,
                None => r is None,
            },
    {
        match Scope::parse(&self.scope) {
            Some(scope) => Some(InstallTarget { adapter: self.platform.clone(), scope }),
            None => None,
        }
    }
}

/// Where the configuration is kept, below the user's configuration directory.
pub fn config_path(config_dir: Option<&str>) -> (r: Option<String>)
    ensures
        match config_dir {
            Some(d) => r matches Some(p) && p@ == join_paths(
                join_paths(d@, "skillfile"@),
                "config.toml"@,
            ),
            None => r is None,
        },
{
    match config_dir {
        Some(d) => Some(join_path(&join_path(d, "skillfile"), "config.toml")),
        None => None,
    }
}

/// The install targets of a configuration file: none where it is missing or unreadable.
pub fn read_user_targets(config: Option<&Vec<InstallEntry>>) -> (r: Vec<InstallTarget>)
    ensures
        target_views(r@) == (match config {
            Some(v) => targets_of_entries(install_entry_views(v@)),
            None => Seq::empty(),
        }),
{
    let mut out: Vec<InstallTarget> = Vec::new();
    assert(target_views(out@) =~= Seq::empty());
    if let Some(v) = config {
        let ghost s = install_entry_views(v@);
        let mut i: usize = 0;
        while i < v.len()
            invariant
                s == install_entry_views(v@),
                i <= v@.len(),
                target_views(out@) == targets_of_entries(s.take(i as int)),
            decreases v@.len() - i,
        {
            assert(s.take(i + 1).drop_last() =~= s.take(i as int));
            assert(s.take(i + 1).last() == v@[i as int]@);
            let ghost before = target_views(out@);
            if let Some(t) = v[i].to_install_target() {
                let ghost tv = t@;
                out.push(t);
                assert(target_views(out@) =~= before.push(tv));
            }
            i += 1;
        }
        assert(s.take(i as int) =~= s);
    }
    out
}

/// The configuration file for install targets, where there is a place to keep it.
pub fn write_user_targets(targets: &Vec<InstallTarget>, config_dir: Option<&str>) -> (r: Result<
    Vec<InstallEntry>,
    SkillfileError,
>)
    ensures
        match config_dir {
            Some(_) => r matches Ok(v) && install_entry_views(v@) == target_views(
                targets@,
            ).map_values(|t: TargetView| entry_of_target(t)),
            None => r matches Err(SkillfileError::Io(m)) && m@
                == "could not determine config directory"@,
        },
{
    if config_dir.is_none() {
        return Err(
            SkillfileError::Io(String::from_str("could not determine config directory")),
        );
    }
    let ghost want = target_views(targets@).map_values(|t: TargetView| entry_of_target(t));
    let mut out: Vec<InstallEntry> = Vec::new();
    let mut i: usize = 0;
    while i < targets.len()
        invariant
            want == target_views(targets@).map_values(|t: TargetView| entry_of_target(t)),
            i <= targets@.len(),
            install_entry_views(out@) == want.take(i as int),
        decreases targets@.len() - i,
    {
        let ghost before = install_entry_views(out@);
        let e = InstallEntry::from_target(&targets[i]);
        let ghost ev = e@;
        assert(want[i as int] == entry_of_target(target_views(targets@)[i as int]));
        out.push(e);
        assert(install_entry_views(out@) =~= before.push(ev));
        assert(want.take(i + 1) =~= before.push(ev));
        i += 1;
    }
    assert(want.take(i as int) =~= want);
    Ok(out)
}

/// A manifest whose install targets, where it names none, are those of the user.
pub open spec fn resolved(m: ManifestView, user: Seq<TargetView>) -> ManifestView {
    if m.install_targets.len() == 0 {
        ManifestView { install_targets: user, ..m }
    } else {
        m
    }
}

/// Fills in the user's install targets where a manifest names none.
pub fn resolve_targets_into(manifest: &mut Manifest, user_targets: Vec<InstallTarget>)
    ensures
        final(manifest)@ == resolved(old(manifest)@, target_views(user_targets@)),
{
    assert(manifest@.install_targets.len() == manifest.install_targets@.len());
    if manifest.install_targets.len() == 0 {
        manifest.install_targets = user_targets;
    }
}

/// Parses a manifest and fills in the user's install targets where it names none.
pub fn parse_and_resolve(raw_bytes: &[u8], user_targets: Vec<InstallTarget>) -> (r: Manifest)
    ensures
        r@ == resolved(
            manifest_of(lossy_text(without_bom(raw_bytes@))).manifest(),
            target_views(user_targets@),
        ),
{
    let result = parse_manifest(raw_bytes);
    let mut manifest = result.manifest;
    assert(manifest@ == result@.manifest());
    resolve_targets_into(&mut manifest, user_targets);
    manifest
}

/// The install targets that are written to the configuration are read back as they were.
pub proof fn law_config_round_trip(ts: Seq<TargetView>)
    ensures
        targets_of_entries(ts.map_values(|t: TargetView| entry_of_target(t))) == ts,
    decreases ts.len(),
{
    let es = ts.map_values(|t: TargetView| entry_of_target(t));
    if ts.len() > 0 {
        let init = ts.drop_last();
        law_config_round_trip(init);
        assert(es.drop_last() =~= init.map_values(|t: TargetView| entry_of_target(t)));
        assert(es.last() == entry_of_target(ts.last()));
        crate::models::law_scope_words(ts.last().scope, ts.last().scope.word());
        assert(targets_of_entries(es) =~= ts);
    } else {
        assert(targets_of_entries(es) =~= ts);
    }
}

/// The install targets of a manifest come before those of the user, and a manifest that is resolved
/// stays as it is when it is resolved again.
pub proof fn law_manifest_targets_win(m: ManifestView, user: Seq<TargetView>, other: Seq<TargetView>)
    ensures
        m.install_targets.len() > 0 ==> resolved(m, user) == m,
        resolved(m, user).entries == m.entries,
        user.len() > 0 ==> resolved(resolved(m, user), other) == resolved(m, user),
{
}

} // verus!
