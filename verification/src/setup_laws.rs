//! What setting up writes, and where.

use vstd::prelude::*;
use crate::commands::init::{
    closing_text, configured, ended, existing_line, existing_lines, gitignore_entries,
    gitignore_text, install_line, install_lines, is_install_line, keeps_targets, missing_entries,
    other_lines, skip_blank, target_or_local, types_hint, with_install_lines, with_scope,
    PersistPlan,
};
use crate::commands::init_flow::{init_step, note_text, InitAction, InitEvent, InitState};
use crate::config::{resolved, target_of_entry, targets_of_entries, InstallEntryView};
use crate::lines::lines;
use crate::models::{target_views, EntityType, ManifestView, Scope, TargetView};
use crate::numbers::decimal;
use crate::parser::{lossy_text, manifest_of, text_without_bom, without_bom};
use crate::platforms::{platform_names, platform_supports, Platform};
use crate::text::{concat, join, opt_text, starts_with, texts, trim_both};

verus! {

// ---------------------------------------------------------------------------
// Choices
// ---------------------------------------------------------------------------

/// Whether a platform is one of the targets of a manifest or of a user.
pub open spec fn is_chosen(existing: Seq<TargetView>, user: Seq<TargetView>) -> spec_fn(
    Seq<char>,
) -> bool {
    |n: Seq<char>|
        (exists|i: int| 0 <= i < existing.len() && (#[trigger] existing[i]).adapter == n) || (
        exists|i: int| 0 <= i < user.len() && (#[trigger] user[i]).adapter == n)
}

/// The platforms that are proposed are those that have a target already, in the manifest or in the
/// configuration of the user, in the order of the known platforms.
pub proof fn law_configured_platforms_are_proposed(
    names: Seq<Seq<char>>,
    existing: Seq<TargetView>,
    user: Seq<TargetView>,
)
    ensures
        configured(names, existing, user) == names.filter(is_chosen(existing, user)),
    decreases names.len(),
{
    reveal(Seq::filter);
    if names.len() > 0 {
        law_configured_platforms_are_proposed(names.drop_last(), existing, user);
    }
}

/// Each chosen platform gets one target in the chosen scope, or one in each scope where both were
/// chosen, in the order of the platforms.
pub proof fn law_targets_of_choices(names: Seq<Seq<char>>, scope: Seq<char>)
    ensures
        scope != "both"@ ==> with_scope(names, scope).len() == names.len() && forall|i: int|
            0 <= i < names.len() ==> #[trigger] with_scope(names, scope)[i] == (names[i], scope),
        scope == "both"@ ==> with_scope(names, scope).len() == 2 * names.len() && forall|i: int|
            0 <= i < names.len() ==> with_scope(names, scope)[2 * i] == (
                #[trigger] names[i],
                "global"@,
            ) && with_scope(names, scope)[2 * i + 1] == (names[i], "local"@),
    decreases names.len(),
{
    if names.len() > 0 {
        let init = names.drop_last();
        let w = with_scope(names, scope);
        law_targets_of_choices(init, scope);
        if scope == "both"@ {
            assert forall|i: int| 0 <= i < names.len() implies w[2 * i] == (
                #[trigger] names[i],
                "global"@,
            ) && w[2 * i + 1] == (names[i], "local"@) by {
                if i < init.len() {
                    assert(init[i] == names[i]);
                    assert(w[2 * i] == with_scope(init, scope)[2 * i]);
                    assert(w[2 * i + 1] == with_scope(init, scope)[2 * i + 1]);
                }
            }
        } else {
            assert forall|i: int| 0 <= i < names.len() implies #[trigger] w[i] == (
                names[i],
                scope,
            ) by {
                if i < init.len() {
                    assert(with_scope(init, scope)[i] == (init[i], scope));
                }
            }
        }
    }
}

/// A choice of the user's own configuration leaves the manifest alone; any other goes into the text
/// of the manifest and leaves the configuration alone. In the configuration each target has its own
/// platform, and is global exactly where that was chosen.
pub proof fn law_one_place_is_written(
    plan: PersistPlan,
    existing: Seq<char>,
    destination: Seq<char>,
    new_targets: Seq<(Seq<char>, Seq<char>)>,
)
    requires
        keeps_targets(plan, existing, destination, new_targets),
    ensures
        plan.summary@ == join(
            new_targets.map_values(|p: (Seq<char>, Seq<char>)| "install  "@ + p.0 + "  "@ + p.1),
            "\n"@,
        ),
        plan.personal is Some <==> destination == "personal"@,
        plan.manifest_text is Some <==> destination != "personal"@,
        plan.manifest_text matches Some(t) ==> t@ == with_install_lines(existing, new_targets),
        plan.personal matches Some(v) ==> v@.len() == new_targets.len() && forall|i: int|
            0 <= i < v@.len() ==> (#[trigger] v@[i])@.adapter == new_targets[i].0 && (
            v@[i]@.scope is Global <==> new_targets[i].1 == "global"@),
{
    assert(install_lines(new_targets) =~= new_targets.map_values(
        |p: (Seq<char>, Seq<char>)| "install  "@ + p.0 + "  "@ + p.1,
    ));
    if let Some(v) = plan.personal {
        let tv = target_views(v@);
        let f = |p: (Seq<char>, Seq<char>)| target_or_local(p);
        assert(tv.len() == v@.len());
        assert(new_targets.map_values(f).len() == new_targets.len());
        assert forall|i: int| 0 <= i < v@.len() implies (#[trigger] v@[i])@.adapter
            == new_targets[i].0 && (v@[i]@.scope is Global <==> new_targets[i].1 == "global"@) by {
            assert(tv[i] == v@[i]@);
            assert(new_targets.map_values(f)[i] == target_or_local(new_targets[i]));
            crate::models::law_scope_words(Scope::Global, new_targets[i].1);
        }
    }
}

/// From its start to its end the setup proposes what is configured, writes just the targets that
/// were chosen where they were wanted, and closes with the number of entries of the manifest that it
/// read at the start.
pub proof fn law_setup_from_start_to_end(
    known: Seq<Platform>,
    start: InitEvent,
    read: InitEvent,
    chosen: InitEvent,
    placed: InitEvent,
    ready: InitEvent,
    s: Seq<InitState>,
    a: Seq<InitAction>,
)
    requires
        s.len() == 7,
        a.len() == 6,
        start is Started,
        read is Read,
        chosen is Chosen,
        chosen->platforms@.len() > 0,
        placed is Placed,
        ready is TokenReady,
        s[0] is Begin,
        init_step(s[0], start, known, s[1], a[0]),
        init_step(s[1], read, known, s[2], a[1]),
        init_step(s[2], chosen, known, s[3], a[2]),
        init_step(s[3], placed, known, s[4], a[3]),
        init_step(s[4], InitEvent::Kept, known, s[5], a[4]),
        init_step(s[5], ready, known, s[6], a[5]),
    ensures
        ({
            let m = manifest_of(lossy_text(without_bom(read->bytes@)));
            &&& a[0] matches InitAction::Read { create } && create == !start->has_manifest
            &&& a[1] matches InitAction::Choose { initial, note } && texts(initial@)
                == platform_names(known).filter(
                is_chosen(m.install_targets, target_views(read->user@)),
            ) && (note is None <==> m.install_targets.len() + read->user@.len() == 0)
            &&& a[3] matches InitAction::Keep(plan) && keeps_targets(
                plan,
                placed->text@,
                placed->destination@,
                with_scope(texts(chosen->platforms@), chosen->scope@),
            )
            &&& a[5] matches InitAction::Finish { additions, words } && opt_text(additions)
                == gitignore_text(ready->gitignore@) && words@ == closing_text(m.entries.len())
            &&& s[6] is Done
        }),
{
    let m = manifest_of(lossy_text(without_bom(read->bytes@)));
    law_configured_platforms_are_proposed(
        platform_names(known),
        m.install_targets,
        target_views(read->user@),
    );
}

/// An event that is not the answer to the last action changes nothing.
pub proof fn law_unexpected_events(
    s: InitState,
    e: InitEvent,
    known: Seq<Platform>,
    s2: InitState,
    a: InitAction,
)
    requires
        init_step(s, e, known, s2, a),
        !(s is Begin && e is Started),
        !(s is Reading && e is Read),
        !(s is Choosing && e is Chosen),
        !(s is Placing && e is Placed),
        !(s is Keeping && e is Kept),
        !(s is Closing && e is TokenReady),
    ensures
        s2 == s,
        a is Nothing,
{
}

/// What is configured already is noted exactly where there is something: each target of the manifest
/// and then each of the user, with the place it comes from.
pub proof fn law_note_of_targets(existing: Seq<TargetView>, user: Seq<TargetView>)
    ensures
        note_text(existing, user) is None <==> existing.len() + user.len() == 0,
        existing_lines(existing, user).len() == existing.len() + user.len(),
        forall|i: int|
            0 <= i < existing.len() ==> existing_lines(existing, user)[i] == existing_line(
                #[trigger] existing[i],
                "Skillfile"@,
            ),
        forall|i: int|
            0 <= i < user.len() ==> existing_lines(existing, user)[existing.len() + i]
                == existing_line(#[trigger] user[i], "personal config"@),
{
}

/// The hint of a platform says what it takes.
pub proof fn law_types_hint(ps: Seq<Platform>, name: Seq<char>)
    ensures
        ({
            let skills = platform_supports(ps, name, EntityType::Skill);
            let agents = platform_supports(ps, name, EntityType::Agent);
            let h = types_hint(ps, name);
            &&& h == "skill, agent"@ <==> skills && agents
            &&& h == "skill only"@ <==> skills && !agents
            &&& h == "agent only"@ <==> agents && !skills
            &&& h.len() == 0 <==> !skills && !agents
        }),
{
    reveal_strlit("skill, agent");
    reveal_strlit("skill only");
    reveal_strlit("agent only");
    reveal_strlit("");
    assert("skill, agent"@.len() == 12);
    assert("skill only"@.len() == 10);
    assert("agent only"@.len() == 10);
    assert("skill only"@[0] == 's');
    assert("agent only"@[0] == 'a');
    assert(""@.len() == 0);
}

/// The closing words of setting up are the short ones exactly where there are no entries; else they
/// give the number of entries.
pub proof fn law_closing_words(n: nat)
    ensures
        starts_with(closing_text(n), "You're all set!"@) <==> n == 0,
        n > 0 ==> starts_with(
            closing_text(n),
            "Platforms configured! This Skillfile already has "@ + decimal(n) + (if n == 1 {
                " entry."@
            } else {
                " entries."@
            }),
        ),
{
    let t = closing_text(n);
    reveal_strlit("You're all set!");
    reveal_strlit("You're all set! Next up:");
    reveal_strlit("Platforms configured! This Skillfile already has ");
    reveal_strlit(" entry.");
    reveal_strlit(" entries.");
    reveal_strlit("entry");
    reveal_strlit("entries");
    reveal_strlit(" ");
    reveal_strlit(".\n  \u{1f680} Run `skillfile install` to fetch and deploy them.");
    if n == 0 {
        assert(t.subrange(0, 15) =~= "You're all set!"@);
    } else {
        assert(t[0] == 'P');
        if starts_with(t, "You're all set!"@) {
            assert(t.subrange(0, 15)[0] == 'Y');
        }
        let p = "Platforms configured! This Skillfile already has "@ + decimal(n) + (if n == 1 {
            " entry."@
        } else {
            " entries."@
        });
        assert(t.subrange(0, p.len() as int) =~= p);
    }
}

// ---------------------------------------------------------------------------
// Lines
// ---------------------------------------------------------------------------

/// Setting install targets takes every install line out of a manifest and no other, in their order.
pub proof fn law_only_install_lines_go(ls: Seq<Seq<char>>)
    ensures
        other_lines(ls) == ls.filter(
            |l: Seq<char>|
                !(trim_both(l) == "install"@ || starts_with(trim_both(l), "install "@)),
        ),
    decreases ls.len(),
{
    reveal(Seq::filter);
    if ls.len() > 0 {
        law_only_install_lines_go(ls.drop_last());
        assert(is_install_line(ls.last()) <==> (trim_both(ls.last()) == "install"@ || starts_with(
            trim_both(ls.last()),
            "install "@,
        )));
    }
}

/// Of lines only blank ones at the start are dropped, and all of them.
pub proof fn law_only_blank_lines_go(ls: Seq<Seq<char>>)
    ensures
        exists|k: int|
            0 <= k <= ls.len() && skip_blank(ls) == #[trigger] ls.skip(k) && (forall|i: int|
                0 <= i < k ==> trim_both(#[trigger] ls[i]).len() == 0) && (k < ls.len()
                ==> trim_both(ls[k]).len() > 0),
    decreases ls.len(),
{
    if ls.len() > 0 && trim_both(ls[0]).len() == 0 {
        let rest = ls.skip(1);
        law_only_blank_lines_go(rest);
        let k = choose|k: int|
            0 <= k <= rest.len() && skip_blank(rest) == #[trigger] rest.skip(k) && (forall|i: int|
                0 <= i < k ==> trim_both(#[trigger] rest[i]).len() == 0) && (k < rest.len()
                ==> trim_both(rest[k]).len() > 0);
        assert(rest.skip(k) =~= ls.skip(k + 1));
        assert forall|i: int| 0 <= i < k + 1 implies trim_both(#[trigger] ls[i]).len() == 0 by {
            if i > 0 {
                assert(rest[i - 1] == ls[i]);
            }
        }
    } else {
        assert(ls.skip(0) =~= ls);
    }
}

/// A manifest with other install lines is the new ones, an empty line, and the lines that stay, each
/// with its end.
pub proof fn law_text_with_targets(existing: Seq<char>, ps: Seq<(Seq<char>, Seq<char>)>)
    ensures
        ({
            let own = ps.map_values(|p: (Seq<char>, Seq<char>)| install_line(p));
            let kept = skip_blank(other_lines(lines(text_without_bom(existing))));
            with_install_lines(existing, ps) == concat(with_ends(own)) + "\n"@ + concat(
                with_ends(kept),
            )
        }),
{
    let own = ps.map_values(|p: (Seq<char>, Seq<char>)| install_line(p));
    let kept = skip_blank(other_lines(lines(text_without_bom(existing))));
    lemma_ended(own);
    lemma_ended(kept);
    reveal_strlit("\n");
    assert(ended(own).push('\n') =~= ended(own) + "\n"@);
}

/// Lines, each with a line feed behind it.
pub open spec fn with_ends(ls: Seq<Seq<char>>) -> Seq<Seq<char>> {
    ls.map_values(|l: Seq<char>| l.push('\n'))
}

proof fn lemma_ended(ls: Seq<Seq<char>>)
    ensures
        ended(ls) == concat(with_ends(ls)),
    decreases ls.len(),
{
    if ls.len() > 0 {
        lemma_ended(ls.drop_last());
        assert(with_ends(ls).drop_last() =~= with_ends(ls.drop_last()));
        assert(ended(ls) =~= concat(with_ends(ls)));
    } else {
        assert(with_ends(ls) =~= Seq::empty());
    }
}

/// What is added to a `.gitignore` are the entries that are not lines of it, in their order; nothing
/// is added exactly where both are.
pub proof fn law_missing_entries_are_added(existing: Seq<char>)
    ensures
        gitignore_text(existing) is None <==> lines(existing).contains(".skillfile/cache/"@) && lines(
            existing,
        ).contains(".skillfile/conflict"@),
        missing_entries(lines(existing), gitignore_entries()) == gitignore_entries().filter(
            |e: Seq<char>| !lines(existing).contains(e),
        ),
{
    let ls = lines(existing);
    let es = gitignore_entries();
    lemma_missing(ls, es);
    let one = seq![".skillfile/cache/"@];
    assert(es.drop_last() =~= one);
    assert(one.drop_last() =~= Seq::empty());
    assert(missing_entries(ls, one.drop_last()) =~= Seq::empty());
    assert(missing_entries(ls, one).len() == if ls.contains(one.last()) {
        0int
    } else {
        1
    });
}

proof fn lemma_missing(ls: Seq<Seq<char>>, es: Seq<Seq<char>>)
    ensures
        missing_entries(ls, es) == es.filter(|e: Seq<char>| !ls.contains(e)),
    decreases es.len(),
{
    reveal(Seq::filter);
    if es.len() > 0 {
        lemma_missing(ls, es.drop_last());
    }
}

// ---------------------------------------------------------------------------
// The configuration of the user
// ---------------------------------------------------------------------------

/// Whether an entry of the configuration names a scope.
pub open spec fn names_scope() -> spec_fn(InstallEntryView) -> bool {
    |e: InstallEntryView| e.scope == "global"@ || e.scope == "local"@
}

/// The target of an entry of the configuration.
pub open spec fn as_target() -> spec_fn(InstallEntryView) -> TargetView {
    |e: InstallEntryView|
        TargetView {
            adapter: e.platform,
            scope: if e.scope == "global"@ {
                Scope::Global
            } else {
                Scope::Local
            },
        }
}

/// The targets of the user are the entries of the configuration that name a scope, in their order,
/// each with its platform and its scope.
pub proof fn law_configured_targets(es: Seq<InstallEntryView>)
    ensures
        targets_of_entries(es) == es.filter(names_scope()).map_values(as_target()),
    decreases es.len(),
{
    reveal(Seq::filter);
    if es.len() > 0 {
        law_configured_targets(es.drop_last());
        let f = es.drop_last().filter(names_scope());
        crate::models::law_scope_words(Scope::Global, es.last().scope);
        crate::models::law_scope_words(Scope::Local, es.last().scope);
        if names_scope()(es.last()) {
            assert(target_of_entry(es.last()) == Some(as_target()(es.last())));
        }
        assert(f.push(es.last()).map_values(as_target()) =~= f.map_values(as_target()).push(
            as_target()(es.last()),
        ));
    } else {
        assert(es.filter(names_scope()).map_values(as_target()) =~= Seq::empty());
    }
}

/// A manifest without targets gets those of the user, and its entries stay.
pub proof fn law_user_targets_stand_in(m: ManifestView, user: Seq<TargetView>)
    requires
        m.install_targets.len() == 0,
    ensures
        resolved(m, user).install_targets == user,
        resolved(m, user).entries == m.entries,
{
}

/// An install line is read back as the platform and the scope that it was written for.
pub proof fn law_install_line_words(p: (Seq<char>, Seq<char>))
    ensures
        starts_with(install_line(p), "install  "@ + p.0 + "  "@),
        install_line(p).skip(p.0.len() as int + 11) == p.1,
{
    reveal_strlit("install  ");
    reveal_strlit("  ");
    let l = install_line(p);
    let h = "install  "@ + p.0 + "  "@;
    assert(l.subrange(0, h.len() as int) =~= h);
    assert(l.skip(p.0.len() as int + 11) =~= p.1);
}

} // verus!
