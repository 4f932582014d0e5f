//! What the commands do, by what goes into them and what comes out.

use vstd::prelude::*;
use crate::add_laws::{law_a_skill_unless_said, law_discovery};
use crate::cli::{handle_add, parse_entity_type, wants_quiet, AddRequest, AddSource};
use crate::commands::add::{cmd_add, cmd_add_bulk, AddPlan, BulkAddArgs, BulkStep};
use crate::commands::diff::{cmd_diff, diff_local_single, DiffStep};
use crate::commands::files::{
    cache_files, file_views, is_cache_file, load_cache_files, names_of, FileText,
};
use crate::commands::init::has_env_token;
use crate::commands::init_flow::{cmd_init, InitAction, InitEvent, InitState};
use crate::commands::installed_variants::{single_views, SingleFileVariant};
use crate::commands::multi_target::modified_single_file_variants;
use crate::commands::pin::{cmd_unpin, pin_entry, PinPlan, PinSource, UnpinPlan};
use crate::commands::remove::{cmd_remove, first_index, RemovePlan};
use crate::commands::resolve::{
    cmd_resolve, merge_input, pending_conflict, reconstruct_yours_single,
    resolve_conflicts_or_clean, resolve_single_file, DirMerge, MergeInput, MergeResult, MergeStep,
    ResolveStart, SingleResolution,
};
use crate::commands::search::{
    cmd_search, coords_from_answers, interactive_select, GithubMeta, SearchConfig, SearchOutput,
    Selection, SourceCoords,
};
use crate::commands::sort::{cmd_sort, SortPlan};
use crate::commands::status::{
    format_entry_status, is_modified_local, resolve_upstream_sha, EntryFacts, LocalState,
};
use crate::commands::validate::cmd_validate;
use crate::config::{
    install_entry_views, law_config_round_trip, targets_of_entries, write_user_targets,
    InstallEntry,
};
use crate::edit_laws::{first_named, law_edited_copies, law_file_by_name, law_pin_keeps_the_edit};
use crate::error::SkillfileError;
use crate::lines::{lines, split_inclusive};
use crate::manifest_laws::{law_remove_drops_one_entry, uncovers};
use crate::models::{
    target_views, ConflictState, EntityType, Entry, EntryView, InstallTarget, SourceView,
};
use crate::numbers::decimal;
use crate::parser::{
    has_name, inferred_name, line_meaning, manifest_of, manifest_of_lines, parse_manifest_str,
    text_without_bom, ParseResult,
};
use crate::parser_laws::{
    fit_name, holds_words, law_lines_declare_in_order, law_named_github_line, type_word,
};
use crate::patch::apply_patch_pure;
use crate::patch_laws::{law_patch_round_trip, no_lone_cr, same_up_to_final_newline};
use crate::platforms::{platform_names, Platform};
use crate::registry::{RegistryId, SearchResponse, SearchResult};
use crate::sorted::{ascending, law_sorted_set};
use crate::status_laws::{law_stale_files_are_said, unmarked};
use crate::text::{ends_with, has_text, occurs_at, opt_text, texts};
use crate::unified::{diff_lines, diff_text, is_edit_script, normalized, DiffHunk};
use crate::update_check::{
    check_for_update, is_newer, plain_version, release_of, started_check, without_v, CacheEntry,
    CheckStep, Release,
};
use crate::validity_laws::{law_cache_files, law_valid_manifest};
use crate::version_laws::law_good_for_a_day;

verus! {

// ---------------------------------------------------------------------------
// Reading
// ---------------------------------------------------------------------------

/// A manifest with a GitHub line of a name, a repository and a path declares that entry, wherever the
/// line stands; a sixth field is its ref, and without one the ref is `main`.
pub proof fn law_parsing_a_github_line(
    text: &str,
    i: int,
    ws: Seq<Seq<char>>,
    t: EntityType,
    r: ParseResult,
)
    requires
        call_ensures(parse_manifest_str, (text,), r),
        0 <= i < lines(text_without_bom(text@)).len(),
        holds_words(lines(text_without_bom(text@))[i], ws),
        ws.len() >= 5,
        ws[0] == "github"@,
        ws[1] == type_word(t),
        !ws[2].contains('/'),
        fit_name(ws[2]),
    ensures
        r@.entries.contains(
            EntryView {
                entity_type: t,
                name: ws[2],
                source: SourceView::Github {
                    owner_repo: ws[3],
                    path_in_repo: ws[4],
                    ref_: if ws.len() > 5 {
                        ws[5]
                    } else {
                        "main"@
                    },
                },
            },
        ),
{
    let ls = lines(text_without_bom(text@));
    let a = ls.take(i);
    let b = ls.skip(i + 1);
    law_named_github_line(ls[i], ws, t);
    law_lines_declare_in_order(a, ls[i], b);
    assert(ls =~= a + seq![ls[i]] + b);
    let e = line_meaning(ls[i])->Entry_0;
    let n = manifest_of_lines(a).entries.len() as int;
    assert(r@.entries[n] == e);
}

// ---------------------------------------------------------------------------
// Patches and merges
// ---------------------------------------------------------------------------

/// A patch that leads from one text to another, applied to the first, gives the other.
pub proof fn law_applying_a_patch(
    original: &str,
    patch: &str,
    edited: Seq<char>,
    hs: Seq<DiffHunk>,
    old_name: Seq<char>,
    new_name: Seq<char>,
    r: Result<String, SkillfileError>,
)
    requires
        call_ensures(apply_patch_pure, (original, patch), r),
        patch@ == normalized(split_inclusive(diff_text(hs, old_name, new_name))),
        is_edit_script(diff_lines(original@), diff_lines(edited), hs),
        no_lone_cr(original@),
        no_lone_cr(edited),
        !old_name.contains('\n'),
        !new_name.contains('\n'),
        original@.len() < usize::MAX,
    ensures
        r matches Ok(t) && same_up_to_final_newline(t@, edited),
{
    law_patch_round_trip(original@, edited, hs, old_name, new_name);
}

/// What goes into the merge of a file with a stored patch: the file of that name of the common
/// ancestor, that of the new upstream revision, and the text to which the patch leads, whatever is
/// installed.
pub proof fn law_merging_a_pinned_file(
    filename: &str,
    base_files: &Vec<FileText>,
    theirs_files: &Vec<FileText>,
    patch: &Option<String>,
    installed: &Option<String>,
    b: int,
    t: int,
    edited: Seq<char>,
    hs: Seq<DiffHunk>,
    old_name: Seq<char>,
    new_name: Seq<char>,
    r: Result<MergeInput, SkillfileError>,
)
    requires
        call_ensures(merge_input, (filename, base_files, theirs_files, patch, installed), r),
        first_named(file_views(base_files@), filename@, b),
        first_named(file_views(theirs_files@), filename@, t),
        opt_text(*patch) == Some(normalized(split_inclusive(diff_text(hs, old_name, new_name)))),
        is_edit_script(diff_lines(base_files@[b]@.text), diff_lines(edited), hs),
        no_lone_cr(base_files@[b]@.text),
        no_lone_cr(edited),
        !old_name.contains('\n'),
        !new_name.contains('\n'),
        base_files@[b]@.text.len() < usize::MAX,
    ensures
        r matches Ok(i) && i.base@ == base_files@[b]@.text && i.theirs@ == theirs_files@[t]@.text
            && same_up_to_final_newline(i.yours@, edited),
{
    law_file_by_name(file_views(base_files@), filename@);
    law_file_by_name(file_views(theirs_files@), filename@);
    law_patch_round_trip(base_files@[b]@.text, edited, hs, old_name, new_name);
}

/// Without a stored patch what is installed is merged, and else the common ancestor.
pub proof fn law_merging_an_unpinned_file(
    filename: &str,
    base_files: &Vec<FileText>,
    theirs_files: &Vec<FileText>,
    patch: &Option<String>,
    installed: &Option<String>,
    r: Result<MergeInput, SkillfileError>,
)
    requires
        call_ensures(merge_input, (filename, base_files, theirs_files, patch, installed), r),
        *patch is None,
    ensures
        r matches Ok(i) && i.yours@ == (match *installed {
            Some(t) => t@,
            None => i.base@,
        }),
{
}

/// A merged file is installed as it is. It needs no patch exactly where it is as upstream.
pub proof fn law_resolving_a_file(name: &str, theirs: &str, merged: &str, r: SingleResolution)
    requires
        call_ensures(resolve_single_file, (name, theirs, merged), r),
    ensures
        r.installed@ == merged@,
        r.patch is None <==> theirs@ == merged@,
{
}

/// A conflict is given up only where that is asked for, and only where there is one; else the entry
/// that was named is resolved.
pub proof fn law_resolving(
    name: Option<&str>,
    abort: bool,
    conflict: &Option<ConflictState>,
    r: Result<ResolveStart, SkillfileError>,
)
    requires
        call_ensures(cmd_resolve, (name, abort, conflict), r),
    ensures
        abort ==> (r matches Ok(ResolveStart::Abort { clear, .. }) && clear == (*conflict is Some)),
        !abort && name is Some ==> (r matches Ok(ResolveStart::Resolve(s)) && s@
            == name->Some_0@),
        r is Err <==> !abort && name is None,
{
}

// ---------------------------------------------------------------------------
// Pinning
// ---------------------------------------------------------------------------

/// The edited copies are those whose text differs from the cached upstream text, in their order.
pub proof fn law_finding_edited_copies(
    cache: &str,
    variants: &Vec<SingleFileVariant>,
    r: Vec<SingleFileVariant>,
    i: int,
)
    requires
        call_ensures(modified_single_file_variants, (cache, variants), r),
        0 <= i < variants@.len(),
    ensures
        variants@[i].content@ != cache@ <==> exists|j: int|
            0 <= j < r@.len() && (#[trigger] r@[j])@ == variants@[i]@,
        r@.len() == 0 ==> variants@[i].content@ == cache@,
{
    let vs = single_views(variants@);
    let ms = single_views(r@);
    law_edited_copies(cache@, vs);
    assert(vs[i] == variants@[i]@);
    if ms.contains(vs[i]) {
        let j = choose|j: int| 0 <= j < ms.len() && ms[j] == vs[i];
        assert(r@[j]@ == variants@[i]@);
    }
    if exists|j: int| 0 <= j < r@.len() && (#[trigger] r@[j])@ == variants@[i]@ {
        let j = choose|j: int| 0 <= j < r@.len() && (#[trigger] r@[j])@ == variants@[i]@;
        assert(ms[j] == vs[i]);
        assert(ms.contains(vs[i]));
    }
}

/// Pinning a locked one-file entry that is cached and installed says that there is nothing to pin
/// exactly where every installed copy equals upstream, and fails exactly where two copies were edited
/// in different ways.
pub proof fn law_pinning_a_file(
    entry: &Entry,
    source: &PinSource,
    cached: String,
    installed: Vec<SingleFileVariant>,
    dry_run: bool,
    r: Result<PinPlan, SkillfileError>,
)
    requires
        call_ensures(pin_entry, (entry, true, source, dry_run), r),
        !(entry@.source is Local),
        *source == (PinSource::Single { cached: Some(cached), installed }),
        installed@.len() > 0,
    ensures
        r is Err <==> exists|i: int, j: int|
            0 <= i < installed@.len() && 0 <= j < installed@.len() && (
            #[trigger] installed@[i]).content@ != cached@ && (#[trigger] installed@[j]).content@
                != cached@ && installed@[i].content@ != installed@[j].content@,
        !dry_run ==> (r matches Ok(p) ==> (p.patch is None <==> forall|i: int|
            0 <= i < installed@.len() ==> (#[trigger] installed@[i]).content@ == cached@)),
        dry_run ==> (r matches Ok(p) ==> p.patch is None),
{
    let vs = single_views(installed@);
    law_pin_keeps_the_edit(entry@.name, cached@, vs, dry_run);
    assert forall|i: int| 0 <= i < installed@.len() implies (#[trigger] installed@[i]).content@
        == vs[i].content by {}
    assert forall|i: int| 0 <= i < vs.len() implies (#[trigger] vs[i]).content
        == installed@[i].content@ by {}
}

/// Unpinning removes just the patches that are there, and installs the entry again where there were
/// some.
pub proof fn law_unpinning(name: &str, has_patch: bool, has_dir_patch: bool, r: UnpinPlan)
    requires
        call_ensures(cmd_unpin, (name, has_patch, has_dir_patch), r),
    ensures
        r.remove_patch <==> has_patch,
        r.remove_dir_patches <==> has_dir_patch,
        r.reinstall <==> has_patch || has_dir_patch,
{
}

// ---------------------------------------------------------------------------
// The state of entries
// ---------------------------------------------------------------------------

/// The status of a locked entry without marks ends by saying that its files are missing or stale
/// exactly where the cached revision is absent or differs from the locked one.
pub proof fn law_formatting_a_status(entry: &Entry, facts: &EntryFacts, width: usize, r: String)
    requires
        call_ensures(format_entry_status, (entry, facts, width), r),
        !(entry@.source is Local),
        facts.locked_sha is Some,
        !facts.pinned,
        !facts.modified,
        !facts.locked_sha->Some_0@.contains(')'),
        facts.upstream_sha matches Some(u) ==> !u@.contains(')'),
    ensures
        ends_with(r@, "  (missing or stale)"@) <==> !(facts.cached_sha is Some
            && facts.cached_sha->Some_0@ == facts.locked_sha->Some_0@),
{
    law_stale_files_are_said(entry@, *facts, width as nat);
    assert(unmarked(*facts) == *facts);
}

/// The revision upstream is asked for only of an entry of a repository whose cached files are those
/// of the locked revision, by the repository and the ref of the entry.
pub proof fn law_asking_upstream(
    entry: &Entry,
    facts: &EntryFacts,
    r: Option<(&'static str, &'static str)>,
)
    requires
        call_ensures(resolve_upstream_sha, (entry, facts), r),
    ensures
        r is Some <==> entry@.source is Github && facts.locked_sha is Some && facts.cached_sha is Some
            && facts.locked_sha->Some_0@ == facts.cached_sha->Some_0@,
        r is Some ==> r->Some_0.0@ == entry@.source->owner_repo && r->Some_0.1@
            == entry@.source->ref_,
{
}

// ---------------------------------------------------------------------------
// Differences
// ---------------------------------------------------------------------------

/// The diff of a conflict is shown exactly where the conflict is that of the entry. Else a local entry
/// has none, and another has to be locked.
pub proof fn law_which_diff_is_shown(
    entry: &Entry,
    conflict: &Option<ConflictState>,
    locked_sha: &Option<String>,
    r: Result<DiffStep, SkillfileError>,
)
    requires
        call_ensures(cmd_diff, (entry, conflict, locked_sha), r),
    ensures
        (r matches Ok(DiffStep::Conflict)) <==> *conflict is Some && conflict->Some_0.entry@
            == entry@.name,
        (r matches Ok(DiffStep::Local(_))) ==> *locked_sha is Some && !(entry@.source is Local),
        r is Err <==> !(*conflict is Some && conflict->Some_0.entry@ == entry@.name) && !(
        entry@.source is Local) && *locked_sha is None,
{
}

/// A file that is as upstream is called clean, and one that is not cached or not installed cannot be
/// compared.
pub proof fn law_clean_files(
    entry: &Entry,
    sha: &str,
    cached: &Option<String>,
    installed: &Option<String>,
    r: Result<String, SkillfileError>,
)
    requires
        call_ensures(diff_local_single, (entry, sha, cached, installed), r),
    ensures
        r is Err <==> *cached is None || *installed is None,
        *cached is Some && *installed is Some && cached->Some_0@ == installed->Some_0@ ==> (
        r matches Ok(s) && s@ == "'"@ + entry@.name
            + "' is clean \u{2014} no local modifications\n"@),
{
}

// ---------------------------------------------------------------------------
// Manifests
// ---------------------------------------------------------------------------

/// A manifest is valid exactly where its parser warns about nothing, each target is for a known
/// platform and stands once, and each lock record is that of an entry.
pub proof fn law_validating(
    root: &str,
    text: &str,
    platforms: &Vec<Platform>,
    lock_keys: &Vec<String>,
    r: Result<String, SkillfileError>,
)
    requires
        call_ensures(cmd_validate, (root, Some(text), platforms, lock_keys), r),
    ensures
        ({
            let m = manifest_of(text_without_bom(text@));
            r is Ok <==> {
                &&& m.warnings.len() == 0
                &&& forall|i: int|
                    0 <= i < m.install_targets.len() ==> platform_names(platforms@).contains(
                        (#[trigger] m.install_targets[i]).adapter,
                    )
                &&& m.install_targets.no_duplicates()
                &&& forall|i: int|
                    0 <= i < texts(lock_keys@).len() ==> exists|j: int|
                        0 <= j < m.entries.len() && (#[trigger] m.entries[j]).key()
                            == #[trigger] texts(lock_keys@)[i]
            }
        }),
{
    law_valid_manifest(
        manifest_of(text_without_bom(text@)),
        platform_names(platforms@),
        texts(lock_keys@),
    );
}

/// Removing succeeds exactly where an entry has the name. The first such entry goes, and its lock
/// record with it; all other entries and the targets stay, in their order.
pub proof fn law_removing(
    name: &str,
    root: &str,
    raw: &str,
    r: Result<RemovePlan, SkillfileError>,
    k: int,
)
    requires
        call_ensures(cmd_remove, (name, root, Some(raw)), r),
        r matches Ok(p) ==> (text_without_bom(raw@) == raw@ ==> !uncovers(p.manifest_text@)),
    ensures
        ({
            let before = manifest_of(text_without_bom(raw@));
            &&& r is Ok <==> exists|i: int|
                0 <= i < before.entries.len() && (#[trigger] before.entries[i]).name == name@
            &&& (0 <= k < before.entries.len() && before.entries[k].name == name@ && forall|j: int|
                0 <= j < k ==> (#[trigger] before.entries[j]).name != name@) ==> (r matches Ok(p)
                && manifest_of(text_without_bom(p.manifest_text@)).entries
                == before.entries.remove(k) && manifest_of(
                text_without_bom(p.manifest_text@),
            ).install_targets == before.install_targets && p.entry@ == before.entries[k]
                && p.lock_key@ == before.entries[k].key())
        }),
{
    let es = manifest_of(text_without_bom(raw@)).entries;
    if has_name(es, name@) {
        law_remove_drops_one_entry(raw@, name@);
        let f = first_index(es, name@);
        if 0 <= k < es.len() && es[k].name == name@ && forall|j: int|
            0 <= j < k ==> (#[trigger] es[j]).name != name@ {
            assert(es[f].name == name@);
            assert(f == k);
        }
    } else if 0 <= k < es.len() && es[k].name == name@ {
        assert(has_name(es, name@));
    }
}

/// Sorting writes exactly where it is no dry run.
pub proof fn law_sorting(root: &str, raw: &str, dry_run: bool, r: Result<SortPlan, SkillfileError>)
    requires
        call_ensures(cmd_sort, (root, Some(raw), dry_run), r),
    ensures
        r matches Ok(p) && (p.manifest_text is None <==> dry_run),
{
}

/// Adding succeeds exactly where no entry has the name yet.
pub proof fn law_adding(entry: &Entry, root: &str, raw: &str, r: Result<AddPlan, SkillfileError>)
    requires
        call_ensures(cmd_add, (entry, root, Some(raw)), r),
    ensures
        r is Err <==> exists|i: int|
            0 <= i < manifest_of(text_without_bom(raw@)).entries.len() && (
            #[trigger] manifest_of(text_without_bom(raw@)).entries[i]).name == entry@.name,
        r matches Ok(p) ==> (p.deploy <==> manifest_of(
            text_without_bom(p.manifest_text@),
        ).install_targets.len() > 0),
{
}

/// Of the entries that were found, the only one is added at once, and so are all where no questions
/// may be asked; else the user chooses, which takes a terminal.
pub proof fn law_adding_many(
    args: &BulkAddArgs<'_>,
    entries: &Vec<String>,
    is_terminal: bool,
    r: Result<BulkStep, SkillfileError>,
)
    requires
        call_ensures(cmd_add_bulk, (args, entries, is_terminal), r),
    ensures
        (r matches Ok(BulkStep::Add(_))) <==> entries@.len() == 1 || (entries@.len() > 1
            && args.no_interactive),
        (r matches Ok(BulkStep::Choose)) <==> entries@.len() > 1 && !args.no_interactive
            && is_terminal,
        r is Err <==> entries@.len() == 0 || (entries@.len() > 1 && !args.no_interactive
            && !is_terminal),
{
}

/// What is asked to be added has the name and the ref that were given, and else the name that its path
/// gives and the ref `main`. A path that ends in a slash asks for all entries below it.
pub proof fn law_what_is_added(
    source: AddSource,
    entity_type: String,
    owner_repo: String,
    path: String,
    ref_: Option<String>,
    name: Option<String>,
    no_interactive: bool,
    r: AddRequest,
)
    requires
        source == (AddSource::Github { entity_type, owner_repo, path, ref_, name, no_interactive }),
        call_ensures(handle_add, (source,), r),
        path@.len() > 0,
    ensures
        r is Discover <==> path@.last() == '/' || path@ == "."@,
        r matches AddRequest::One(e) ==> {
            &&& e@.source == (SourceView::Github {
                owner_repo: owner_repo@,
                path_in_repo: path@,
                ref_: match ref_ {
                    Some(x) => x@,
                    None => "main"@,
                },
            })
            &&& name matches Some(n) ==> e@.name == n@
            &&& name is None ==> e@.name == inferred_name(path@)
            &&& e@.entity_type is Agent <==> entity_type@ == "agent"@
        },
{
    law_discovery(path@);
    law_a_skill_unless_said(entity_type@);
    if path@.last() == '/' {
        law_discovery(path@.drop_last());
        assert(path@.drop_last().push('/') =~= path@);
    }
}

// ---------------------------------------------------------------------------
// Configuration and updates
// ---------------------------------------------------------------------------

/// The targets that are written to the configuration of the user are read back as they were.
pub proof fn law_configured_targets_are_read_back(
    targets: &Vec<InstallTarget>,
    dir: &str,
    r: Result<Vec<InstallEntry>, SkillfileError>,
)
    requires
        call_ensures(write_user_targets, (targets, Some(dir)), r),
    ensures
        r matches Ok(v) && targets_of_entries(install_entry_views(v@)) == target_views(targets@),
{
    law_config_round_trip(target_views(targets@));
}

/// The latest release is asked for exactly where no check was made within a day.
pub proof fn law_checking_for_an_update(
    current: &str,
    cached: Option<CacheEntry>,
    made: u64,
    now: u64,
    r: CheckStep,
)
    requires
        call_ensures(check_for_update, (current, cached, now), r),
        cached matches Some(c) ==> c.last_check@ == decimal(made as nat),
    ensures
        r is Fetch <==> !(cached is Some && made <= now && now < made + 86400),
{
    law_good_for_a_day(made, now, Seq::empty());
}

/// Of versions of three numbers the latest is newer than the current one exactly where it has the
/// larger number at the first place in which they differ.
pub proof fn law_comparing_versions(
    current: &str,
    latest: &str,
    a: (u64, u64, u64),
    b: (u64, u64, u64),
    r: bool,
)
    requires
        call_ensures(is_newer, (current, latest), r),
        without_v(current@) == decimal(a.0 as nat) + "."@ + decimal(a.1 as nat) + "."@ + decimal(
            a.2 as nat,
        ),
        without_v(latest@) == decimal(b.0 as nat) + "."@ + decimal(b.1 as nat) + "."@ + decimal(
            b.2 as nat,
        ),
    ensures
        r <==> (if a.0 != b.0 {
            b.0 > a.0
        } else if a.1 != b.1 {
            b.1 > a.1
        } else {
            b.2 > a.2
        }),
{
    assert(plain_version(a.0, a.1, a.2) == without_v(current@));
    assert(plain_version(b.0, b.1, b.2) == without_v(latest@));
}

// ---------------------------------------------------------------------------
// More of merges
// ---------------------------------------------------------------------------

/// The version of the user of a one-file entry with a stored patch is the text to which the patch
/// leads from the common ancestor, whatever is installed.
pub proof fn law_reconstructing_a_pinned_file(
    name: &str,
    base: &str,
    patch: &Option<String>,
    installed: &Option<String>,
    path: &str,
    edited: Seq<char>,
    hs: Seq<DiffHunk>,
    old_name: Seq<char>,
    new_name: Seq<char>,
    r: Result<String, SkillfileError>,
)
    requires
        call_ensures(reconstruct_yours_single, (name, base, patch, installed, path), r),
        opt_text(*patch) == Some(normalized(split_inclusive(diff_text(hs, old_name, new_name)))),
        is_edit_script(diff_lines(base@), diff_lines(edited), hs),
        no_lone_cr(base@),
        no_lone_cr(edited),
        !old_name.contains('\n'),
        !new_name.contains('\n'),
        base@.len() < usize::MAX,
    ensures
        r matches Ok(t) && same_up_to_final_newline(t@, edited),
{
    law_patch_round_trip(base@, edited, hs, old_name, new_name);
}

/// A clean merge stands. After conflicts the editor is opened, and what comes back from it stands only
/// where no conflict mark is left.
pub proof fn law_after_a_merge(result: &MergeResult, edited: &Option<String>, r: MergeStep)
    requires
        call_ensures(resolve_conflicts_or_clean, (result, edited), r),
    ensures
        !result.has_conflicts ==> (r matches MergeStep::Merged(t) && t@ == result.merged@),
        result.has_conflicts ==> (r is OpenEditor <==> *edited is None),
        result.has_conflicts ==> (r is StillConflicted <==> *edited is Some && has_text(
            edited->Some_0@,
            "<<<<<<<"@,
        )),
        result.has_conflicts ==> (r matches MergeStep::Merged(t) ==> opt_text(*edited) == Some(t@)),
{
}

/// An entry can be resolved exactly where the pending conflict is its own.
pub proof fn law_whose_conflict(
    name: &str,
    conflict: &Option<ConflictState>,
    r: Result<&'static ConflictState, SkillfileError>,
)
    requires
        call_ensures(pending_conflict, (name, conflict), r),
    ensures
        r is Ok <==> *conflict is Some && conflict->Some_0.entry@ == name@,
        r matches Ok(c) ==> *conflict == Some(*c),
{
}

/// The merge of a directory goes through every file of either revision, each once, in the order of
/// their names, and starts with nothing merged. It needs the entry to be installed.
pub proof fn law_merging_a_directory(
    name: &str,
    base_files: &Vec<FileText>,
    theirs_files: &Vec<FileText>,
    installed: bool,
    r: Result<DirMerge, SkillfileError>,
    f: Seq<char>,
)
    requires
        call_ensures(DirMerge::start, (name, base_files, theirs_files, installed), r),
    ensures
        r is Ok <==> installed,
        r matches Ok(m) ==> {
            &&& m.done == 0 && m.merged@.len() == 0 && !m.any_conflict
            &&& ascending(texts(m.filenames@))
            &&& texts(m.filenames@).contains(f) <==> has_file(base_files@, f) || has_file(
                theirs_files@,
                f,
            )
        },
{
    if let Ok(m) = r {
        let b = names_of(file_views(base_files@));
        let t = names_of(file_views(theirs_files@));
        let all = b + t;
        law_sorted_set(all);
        assert(names_of(file_views(m.merged@)).len() == m.merged@.len());
        if all.contains(f) {
            let i = choose|i: int| 0 <= i < all.len() && all[i] == f;
            if i < b.len() {
                assert(base_files@[i]@.name == f);
            } else {
                assert(theirs_files@[i - b.len()]@.name == f);
            }
        }
        if has_file(base_files@, f) {
            let i = choose|i: int|
                0 <= i < base_files@.len() && (#[trigger] base_files@[i])@.name == f;
            assert(all[i] == f);
        }
        if has_file(theirs_files@, f) {
            let i = choose|i: int|
                0 <= i < theirs_files@.len() && (#[trigger] theirs_files@[i])@.name == f;
            assert(all[b.len() + i] == f);
        }
    }
}

/// A file of a directory is merged under its own name, behind those that were merged before. Where it
/// has to be edited first, or still holds a conflict, nothing changes.
pub proof fn law_accepting_a_merged_file(
    m: &mut DirMerge,
    result: &MergeResult,
    edited: &Option<String>,
    step: MergeStep,
)
    requires
        old(m).valid(),
        old(m).done < old(m).filenames@.len(),
        call_ensures(DirMerge::accept, (m, result, edited), step),
    ensures
        step matches MergeStep::Merged(t) ==> {
            &&& final(m).done == old(m).done + 1
            &&& final(m).merged@.len() == old(m).merged@.len() + 1
            &&& final(m).merged@.last()@.name == old(m).filenames@[old(m).done as int]@
            &&& final(m).merged@.last()@.text == t@
            &&& forall|i: int|
                0 <= i < old(m).merged@.len() ==> (#[trigger] final(m).merged@[i])@ == old(
                    m,
                ).merged@[i]@
        },
        !(step is Merged) ==> *final(m) == *old(m),
        !result.has_conflicts ==> (step matches MergeStep::Merged(t) && t@ == result.merged@),
        final(m).any_conflict <==> old(m).any_conflict || (result.has_conflicts && step is Merged),
{
    if let MergeStep::Merged(t) = step {
        let before = file_views(old(m).merged@);
        let after = file_views(final(m).merged@);
        assert(after.len() == final(m).merged@.len());
        assert(before.len() == old(m).merged@.len());
        assert(after[before.len() as int] == final(m).merged@.last()@);
        assert forall|i: int| 0 <= i < old(m).merged@.len() implies (
        #[trigger] final(m).merged@[i])@ == old(m).merged@[i]@ by {
            assert(after[i] == before[i]);
        }
    }
}

/// Whether one of the files has a name.
pub open spec fn has_file(files: Seq<FileText>, name: Seq<char>) -> bool {
    exists|i: int| 0 <= i < files.len() && (#[trigger] files[i])@.name == name
}

// ---------------------------------------------------------------------------
// Modifications, files and questions
// ---------------------------------------------------------------------------

/// A one-file entry of a repository is modified exactly where it is installed, cached and not pinned,
/// and the two texts differ.
pub proof fn law_finding_modifications(
    entry: &Entry,
    installed: Option<String>,
    cached: Option<String>,
    pinned: bool,
    r: bool,
)
    requires
        call_ensures(
            is_modified_local,
            (entry, (LocalState::Single { installed, cached, pinned })),
            r,
        ),
    ensures
        r <==> !(entry@.source is Local) && !pinned && installed is Some && cached is Some
            && installed->Some_0@ != cached->Some_0@,
{
}

/// The cached upstream files are all files of the cache but the tool's own notes, each once and in
/// ascending order.
pub proof fn law_listing_cache_files(paths: &Vec<String>, r: Vec<String>, p: Seq<char>)
    requires
        call_ensures(load_cache_files, (paths,), r),
    ensures
        texts(r@).contains(p) <==> texts(paths@).contains(p) && is_cache_file(p),
        ascending(texts(r@)),
{
    let ps = texts(paths@);
    law_sorted_set(cache_files(ps));
    law_cache_files(ps);
    let f = |q: Seq<char>| is_cache_file(q);
    lemma_kept_by(ps, f, p);
}

proof fn lemma_kept_by(s: Seq<Seq<char>>, f: spec_fn(Seq<char>) -> bool, x: Seq<char>)
    ensures
        s.filter(f).contains(x) <==> s.contains(x) && f(x),
    decreases s.len(),
{
    reveal(Seq::filter);
    if s.len() > 0 {
        let init = s.drop_last();
        lemma_kept_by(init, f, x);
        let g = init.filter(f);
        if s.contains(x) {
            let i = choose|i: int| 0 <= i < s.len() && s[i] == x;
            if i < init.len() {
                assert(init[i] == x);
            }
        }
        if init.contains(x) {
            let i = choose|i: int| 0 <= i < init.len() && init[i] == x;
            assert(s[i] == x);
        }
        if f(s.last()) {
            assert(s.filter(f) == g.push(s.last()));
            assert(g.push(s.last())[g.len() as int] == s.last());
            if g.contains(x) {
                let k = choose|k: int| 0 <= k < g.len() && g[k] == x;
                assert(g.push(s.last())[k] == x);
            }
            if g.push(s.last()).contains(x) && x != s.last() {
                let k = choose|k: int|
                    0 <= k < g.push(s.last()).len() && g.push(s.last())[k] == x;
                assert(g[k] == x);
            }
            assert(s[s.len() - 1] == s.last());
        }
    }
}

/// Setting up is refused exactly where it begins without a terminal on both sides, or in a CI run.
pub proof fn law_setup_asks_questions(
    state: InitState,
    has_manifest: bool,
    is_ci: bool,
    stdin_is_terminal: bool,
    stdout_is_terminal: bool,
    known: &Vec<Platform>,
    event: InitEvent,
    r: Result<(InitState, InitAction), SkillfileError>,
)
    requires
        call_ensures(cmd_init, (state, event, known), r),
        event == (InitEvent::Started {
            has_manifest,
            is_ci,
            stdin_is_terminal,
            stdout_is_terminal,
        }),
    ensures
        r is Err <==> state is Begin && (is_ci || !stdin_is_terminal || !stdout_is_terminal),
        state is Begin && r is Ok ==> r->Ok_0.1 == (InitAction::Read { create: !has_manifest }),
{
}

/// A token counts where it is not empty; the first of the two variables decides where it is set.
pub proof fn law_tokens(github_token: Option<&str>, gh_token: Option<&str>, r: bool)
    requires
        call_ensures(has_env_token, (github_token, gh_token), r),
    ensures
        github_token is Some ==> (r <==> github_token->Some_0@.len() > 0),
        github_token is None ==> (r <==> gh_token is Some && gh_token->Some_0@.len() > 0),
{
}

/// Results are listed to pick from only on a terminal, where that is not switched off and there are
/// some; JSON comes before all.
pub proof fn law_how_results_are_shown(
    cfg: &SearchConfig<'_>,
    is_tty: bool,
    resp: &SearchResponse,
    r: SearchOutput,
)
    requires
        call_ensures(cmd_search, (cfg, is_tty, resp), r),
    ensures
        r is Json <==> cfg.json,
        r is Interactive <==> !cfg.json && !cfg.no_interactive && is_tty && resp.items@.len() > 0,
{
}

/// Where the registry answered it is believed, and else the page of the result; a page that names no
/// path leaves it open.
pub proof fn law_repository_of_a_result(
    detail: Option<GithubMeta>,
    page: Option<GithubMeta>,
    r: SourceCoords,
)
    requires
        call_ensures(coords_from_answers, (detail, page), r),
    ensures
        r.repo is None <==> detail is None && page is None,
        detail is Some ==> opt_text(r.repo) == Some(detail->Some_0.source_repo@) && opt_text(r.path)
            == Some(detail->Some_0.source_path@),
        detail is None && page is Some ==> opt_text(r.repo) == Some(page->Some_0.source_repo@) && (
        r.path is None <==> page->Some_0.source_path@.len() == 0),
{
}

/// A result cannot be added exactly where it comes from agentskill.sh and neither its repository nor
/// its path was found.
pub proof fn law_results_that_cannot_be_added(
    item: &SearchResult,
    coords: &SourceCoords,
    r: Selection,
)
    requires
        call_ensures(interactive_select, (item, coords), r),
    ensures
        r.unresolved <==> item.registry == RegistryId::AgentskillSh && coords.repo is None
            && coords.path is None,
        has_text(r.shown@, item.url@),
        coords.repo is Some ==> has_text(r.shown@, coords.repo->Some_0@),
{
    let t = r.shown@;
    let url = item.url@;
    reveal_strlit("\n  ");
    reveal_strlit("\n");
    reveal_strlit("  source: ");
    assert(t.subrange(3, url.len() as int + 3) =~= url);
    assert(occurs_at(t, url, 3));
    if let Some(repo) = coords.repo {
        let k = url.len() as int + 14;
        assert(t.subrange(k, k + repo@.len()) =~= repo@);
        assert(occurs_at(t, repo@, k));
    }
}

/// Nothing is said where that is asked for, by the flag or by a variable that is not empty.
pub proof fn law_when_to_be_quiet(flag: bool, variable: Option<&str>, r: bool)
    requires
        call_ensures(wants_quiet, (flag, variable), r),
    ensures
        r <==> flag || (variable is Some && variable->Some_0@.len() > 0),
{
}

/// Only the two words for types are taken for one, and each is kept as it is.
pub proof fn law_words_for_types(s: &str, r: Result<String, String>)
    requires
        call_ensures(parse_entity_type, (s,), r),
    ensures
        r is Ok <==> s@ == "skill"@ || s@ == "agent"@,
        r matches Ok(t) ==> t@ == s@,
{
}

/// A check that has begun counts as made, so that a failed one is not repeated within a day. What was
/// known of the latest version stays, and else it is the current one.
pub proof fn law_a_check_has_begun(
    current: &str,
    cached: Option<CacheEntry>,
    now: u64,
    later: u64,
    r: CacheEntry,
    step: CheckStep,
)
    requires
        call_ensures(started_check, (current, cached, now), r),
        call_ensures(check_for_update, (current, Some(r), later), step),
        now <= later,
    ensures
        step is Fetch <==> later >= now + 86400,
        cached is Some ==> r.latest_version@ == cached->Some_0.latest_version@,
        cached is None ==> r.latest_version@ == current@,
{
    law_good_for_a_day(now, later, Seq::empty());
}

/// A release has the tag that was given and the page that was given, or that of its tag; without a tag
/// there is none.
pub proof fn law_releases(tag: Option<String>, page: Option<String>, r: Option<Release>)
    requires
        call_ensures(release_of, (tag, page), r),
    ensures
        r is None <==> tag is None,
        r matches Some(x) ==> x.tag@ == tag->Some_0@ && (page is Some ==> x.url@
            == page->Some_0@) && (page is None ==> ends_with(x.url@, x.tag@)),
{
    if let Some(x) = r {
        if page is None {
            let u = x.url@;
            let t = x.tag@;
            assert(u.subrange(u.len() - t.len(), u.len() as int) =~= t);
        }
    }
}

} // verus!
