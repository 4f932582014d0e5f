//! Setting up a repository: its install targets and its ignored files.

use vstd::prelude::*;
use vstd::string::StringExecFns;
use crate::commands::common::{push_text, sentence};
use crate::error::SkillfileError;
use crate::lines::{lines, plain_lines};
use crate::models::{target_views, EntityType, InstallTarget, Scope, TargetView};
use crate::numbers::{decimal, size_number};
use crate::parser::{strip_bom, text_without_bom};
use crate::platforms::{known_adapters, platform_names, platform_supports, supports, Platform};
use crate::text::{join, join_all, same, starts, starts_with, texts, trim_both, trimmed};

verus! {

// ---------------------------------------------------------------------------
// Install lines
// ---------------------------------------------------------------------------

/// A platform and a scope as texts.
pub open spec fn pair_views(v: Seq<(String, String)>) -> Seq<(Seq<char>, Seq<char>)> {
    v.map_values(|p: (String, String)| (p.0@, p.1@))
}

/// Whether a line of a manifest is an install line.
pub open spec fn is_install_line(line: Seq<char>) -> bool {
    let s = trim_both(line);
    starts_with(s, "install "@) || s == "install"@
}

/// The lines that are no install lines.
pub open spec fn other_lines(ls: Seq<Seq<char>>) -> Seq<Seq<char>>
    decreases ls.len(),
{
    if ls.len() == 0 {
        ls
    } else {
        let init = other_lines(ls.drop_last());
        if is_install_line(ls.last()) {
            init
        } else {
            init.push(ls.last())
        }
    }
}

/// Lines without the blank ones at the start.
pub open spec fn skip_blank(ls: Seq<Seq<char>>) -> Seq<Seq<char>>
    decreases ls.len(),
{
    if ls.len() > 0 && trim_both(ls[0]).len() == 0 {
        skip_blank(ls.skip(1))
    } else {
        ls
    }
}

/// The install line for a platform and a scope.
pub open spec fn install_line(p: (Seq<char>, Seq<char>)) -> Seq<char> {
    "install  "@ + p.0 + "  "@ + p.1
}

/// The install lines for platforms and scopes.
pub open spec fn install_lines(ps: Seq<(Seq<char>, Seq<char>)>) -> Seq<Seq<char>> {
    ps.map_values(|p: (Seq<char>, Seq<char>)| install_line(p))
}

/// Lines, each with its end.
pub open spec fn ended(ls: Seq<Seq<char>>) -> Seq<char>
    decreases ls.len(),
{
    if ls.len() == 0 {
        Seq::empty()
    } else {
        (ended(ls.drop_last()) + ls.last()).push('\n')
    }
}

/// A manifest text with other install lines: the new ones, a blank line, and the rest. A byte order
/// mark is no part of the rest.
pub open spec fn with_install_lines(
    existing: Seq<char>,
    ps: Seq<(Seq<char>, Seq<char>)>,
) -> Seq<char> {
    ended(install_lines(ps)).push('\n') + ended(
        skip_blank(other_lines(lines(text_without_bom(existing)))),
    )
}

fn is_install(line: &str) -> (r: bool)
    ensures
        r == is_install_line(line@),
{
    let s = trimmed(line);
    starts(&s, "install ") || same(&s, "install")
}

fn push_ended(out: &mut String, line: &str)
    ensures
        final(out)@ == (old(out)@ + line@).push('\n'),
{
    out.append(line);
    out.push('\n');
}

fn format_install(adapter: &str, scope: &str) -> (r: String)
    ensures
        r@ == install_line((adapter@, scope@)),
{
    let mut s = sentence("install  ", adapter, "  ");
    s.append(scope);
    s
}

/// Replaces the install lines of a manifest text.
pub fn build_manifest_with_targets(existing: &str, new_targets: &Vec<(String, String)>) -> (r: String)
    ensures
        r@ == with_install_lines(existing@, pair_views(new_targets@)),
{
    let text = strip_bom(existing);
    let all = plain_lines(&text);
    let ghost ls = texts(all@);
    let mut rest: Vec<String> = Vec::new();
    let mut i: usize = 0;
    assert(texts(rest@) =~= other_lines(ls.take(0)));
    while i < all.len()
        invariant
            ls == texts(all@),
            i <= all@.len(),
            texts(rest@) == other_lines(ls.take(i as int)),
        decreases all@.len() - i,
    {
        assert(ls.take(i + 1).drop_last() =~= ls.take(i as int));
        assert(ls.take(i + 1).last() == all@[i as int]@);
        if !is_install(&all[i]) {
            push_text(&mut rest, &all[i]);
        }
        i += 1;
    }
    assert(ls.take(i as int) =~= ls);
    let ghost others = texts(rest@);
    let mut start: usize = 0;
    assert(others.skip(0) =~= others);
    while start < rest.len() && is_blank(&rest[start])
        invariant
            others == texts(rest@),
            start <= rest@.len(),
            skip_blank(others) == skip_blank(others.skip(start as int)),
        decreases rest@.len() - start,
    {
        assert(others.skip(start as int)[0] == rest@[start as int]@);
        assert(others.skip(start as int).skip(1) =~= others.skip(start + 1));
        start += 1;
    }
    proof {
        if start < rest@.len() {
            assert(others.skip(start as int)[0] == rest@[start as int]@);
        }
    }
    let ghost ps = pair_views(new_targets@);
    let ghost il = install_lines(ps);
    let mut output: String = String::new();
    let mut k: usize = 0;
    while k < new_targets.len()
        invariant
            ps == pair_views(new_targets@),
            il == install_lines(ps),
            k <= new_targets@.len(),
            output@ == ended(il.take(k as int)),
        decreases new_targets@.len() - k,
    {
        let l = format_install(&new_targets[k].0, &new_targets[k].1);
        assert(il[k as int] == install_line(ps[k as int]));
        assert(il.take(k + 1).drop_last() =~= il.take(k as int));
        assert(il.take(k + 1).last() == l@);
        push_ended(&mut output, &l);
        k += 1;
    }
    assert(il.take(k as int) =~= il);
    output.push('\n');
    let ghost base = output@;
    let ghost tail = others.skip(start as int);
    let mut j: usize = start;
    assert(base + ended(tail.take(0)) =~= base);
    while j < rest.len()
        invariant
            others == texts(rest@),
            tail == others.skip(start as int),
            start <= j <= rest@.len(),
            output@ == base + ended(tail.take(j - start)),
        decreases rest@.len() - j,
    {
        assert(tail.take(j - start + 1).drop_last() =~= tail.take(j - start));
        assert(tail.take(j - start + 1).last() == rest@[j as int]@);
        push_ended(&mut output, &rest[j]);
        assert(output@ =~= base + ended(tail.take(j - start + 1)));
        j += 1;
    }
    assert(tail.take(j - start) =~= tail);
    output
}

fn is_blank(line: &str) -> (r: bool)
    ensures
        r == (trim_both(line@).len() == 0),
{
    let s = trimmed(line);
    s.as_str().is_empty()
}

// ---------------------------------------------------------------------------
// Ignored files
// ---------------------------------------------------------------------------

/// The lines that keep the tool's working files out of git.
pub open spec fn gitignore_entries() -> Seq<Seq<char>> {
    seq![".skillfile/cache/"@, ".skillfile/conflict"@]
}

/// The entries that are not among the lines.
pub open spec fn missing_entries(ls: Seq<Seq<char>>, entries: Seq<Seq<char>>) -> Seq<Seq<char>>
    decreases entries.len(),
{
    if entries.len() == 0 {
        Seq::empty()
    } else {
        let init = missing_entries(ls, entries.drop_last());
        if ls.contains(entries.last()) {
            init
        } else {
            init.push(entries.last())
        }
    }
}

/// What is added to a `.gitignore`: nothing where all entries are there.
pub open spec fn gitignore_text(existing: Seq<char>) -> Option<Seq<char>> {
    let ls = lines(existing);
    let missing = missing_entries(ls, gitignore_entries());
    if missing.len() == 0 {
        None
    } else {
        Some(
            (if ls.len() > 0 && ls.last().len() > 0 {
                "\n"@
            } else {
                Seq::empty()
            }) + "# skillfile\n"@ + ended(missing),
        )
    }
}

/// Whether a line is among others.
pub(crate) fn has_line(ls: &Vec<String>, line: &str) -> (r: bool)
    ensures
        r == texts(ls@).contains(line@),
{
    let ghost t = texts(ls@);
    let mut i: usize = 0;
    while i < ls.len()
        invariant
            t == texts(ls@),
            i <= ls@.len(),
            forall|j: int| 0 <= j < i ==> t[j] != line@,
        decreases ls@.len() - i,
    {
        assert(t[i as int] == ls@[i as int]@);
        if same(&ls[i], line) {
            return true;
        }
        i += 1;
    }
    false
}

/// Works out what to add to a `.gitignore`.
pub fn gitignore_additions(existing: &str) -> (r: Option<String>)
    ensures
        match gitignore_text(existing@) {
            Some(t) => r matches Some(s) && s@ == t,
            None => r is None,
        },
{
    let ls = plain_lines(existing);
    let ghost t = texts(ls@);
    let ghost es = gitignore_entries();
    let mut missing: Vec<String> = Vec::new();
    assert(es.drop_last() =~= seq![".skillfile/cache/"@]);
    assert(es.drop_last().drop_last() =~= Seq::empty());
    assert(texts(missing@) =~= missing_entries(t, es.drop_last().drop_last()));
    if !has_line(&ls, ".skillfile/cache/") {
        push_text(&mut missing, ".skillfile/cache/");
    }
    assert(texts(missing@) =~= missing_entries(t, es.drop_last()));
    if !has_line(&ls, ".skillfile/conflict") {
        push_text(&mut missing, ".skillfile/conflict");
    }
    assert(texts(missing@) =~= missing_entries(t, es));
    if missing.len() == 0 {
        assert(texts(missing@).len() == 0);
        return None;
    }
    let mut out: String = String::new();
    if ls.len() > 0 && !ls[ls.len() - 1].as_str().is_empty() {
        assert(t.last() == ls@[ls@.len() - 1]@);
        out.append("\n");
    }
    assert(t.len() == ls@.len());
    out.append("# skillfile\n");
    let ghost base = out@;
    assert(base =~= (if t.len() > 0 && t.last().len() > 0 {
        "\n"@
    } else {
        Seq::empty()
    }) + "# skillfile\n"@);
    let ghost m = texts(missing@);
    let mut i: usize = 0;
    assert(base + ended(m.take(0)) =~= base);
    while i < missing.len()
        invariant
            m == texts(missing@),
            i <= missing@.len(),
            out@ == base + ended(m.take(i as int)),
        decreases missing@.len() - i,
    {
        assert(m.take(i + 1).drop_last() =~= m.take(i as int));
        assert(m.take(i + 1).last() == missing@[i as int]@);
        push_ended(&mut out, &missing[i]);
        assert(out@ =~= base + ended(m.take(i + 1)));
        i += 1;
    }
    assert(m.take(i as int) =~= m);
    Some(out)
}

// ---------------------------------------------------------------------------
// Choices
// ---------------------------------------------------------------------------

/// What a platform takes, as a hint.
pub open spec fn types_hint(ps: Seq<Platform>, name: Seq<char>) -> Seq<char> {
    match (
        platform_supports(ps, name, EntityType::Skill),
        platform_supports(ps, name, EntityType::Agent),
    ) {
        (true, true) => "skill, agent"@,
        (true, false) => "skill only"@,
        (false, true) => "agent only"@,
        (false, false) => ""@,
    }
}

/// What a platform takes, as a hint; nothing for an unknown platform.
pub fn supported_types_hint(platforms: &Vec<Platform>, adapter_name: &str) -> (r: &'static str)
    ensures
        r@ == types_hint(platforms@, adapter_name@),
{
    let s = supports(platforms, adapter_name, EntityType::Skill);
    let a = supports(platforms, adapter_name, EntityType::Agent);
    if s && a {
        "skill, agent"
    } else if s {
        "skill only"
    } else if a {
        "agent only"
    } else {
        ""
    }
}

/// Whether setting up may ask questions: not on a build server, and only at a terminal.
pub fn check_interactive(is_ci: bool, stdin_is_terminal: bool, stdout_is_terminal: bool) -> (r: Result<
    (),
    SkillfileError,
>)
    ensures
        r is Ok <==> !is_ci && stdin_is_terminal && stdout_is_terminal,
        r is Err ==> (r matches Err(SkillfileError::Manifest(m)) && m@
            == "skillfile init requires an interactive terminal.\nUse `skillfile add` for scripted/CI usage."@),
{
    if is_ci || !stdin_is_terminal || !stdout_is_terminal {
        return Err(
            SkillfileError::Manifest(
                String::from_str(
                    "skillfile init requires an interactive terminal.\nUse `skillfile add` for scripted/CI usage.",
                ),
            ),
        );
    }
    Ok(())
}

/// Whether a platform is among install targets.
pub open spec fn targets_platform(ts: Seq<TargetView>, name: Seq<char>) -> bool {
    exists|i: int| 0 <= i < ts.len() && (#[trigger] ts[i]).adapter == name
}

fn has_platform(ts: &Vec<InstallTarget>, name: &str) -> (r: bool)
    ensures
        r == targets_platform(target_views(ts@), name@),
{
    let ghost t = target_views(ts@);
    let mut i: usize = 0;
    while i < ts.len()
        invariant
            t == target_views(ts@),
            i <= ts@.len(),
            forall|j: int| 0 <= j < i ==> (#[trigger] t[j]).adapter != name@,
        decreases ts@.len() - i,
    {
        assert(t[i as int] == ts@[i as int]@);
        if same(&ts[i].adapter, name) {
            return true;
        }
        i += 1;
    }
    false
}

/// The platforms among names that are configured already, in the order of the names.
pub open spec fn configured(
    names: Seq<Seq<char>>,
    existing: Seq<TargetView>,
    user: Seq<TargetView>,
) -> Seq<Seq<char>>
    decreases names.len(),
{
    if names.len() == 0 {
        Seq::empty()
    } else {
        let init = configured(names.drop_last(), existing, user);
        if targets_platform(existing, names.last()) || targets_platform(user, names.last()) {
            init.push(names.last())
        } else {
            init
        }
    }
}

/// The known platforms that are configured already, in the manifest or by the user.
pub fn preselected(
    platforms: &Vec<Platform>,
    existing: &Vec<InstallTarget>,
    user: &Vec<InstallTarget>,
) -> (r: Vec<String>)
    ensures
        texts(r@) == configured(
            platform_names(platforms@),
            target_views(existing@),
            target_views(user@),
        ),
{
    let names = known_adapters(platforms);
    let ghost ns = platform_names(platforms@);
    let ghost e = target_views(existing@);
    let ghost u = target_views(user@);
    let mut out: Vec<String> = Vec::new();
    let mut i: usize = 0;
    assert(texts(out@) =~= configured(ns.take(0), e, u));
    while i < names.len()
        invariant
            texts(names@) == ns,
            e == target_views(existing@),
            u == target_views(user@),
            i <= names@.len(),
            texts(out@) == configured(ns.take(i as int), e, u),
        decreases names@.len() - i,
    {
        assert(ns[i as int] == names@[i as int]@);
        assert(ns.take(i + 1).drop_last() =~= ns.take(i as int));
        assert(ns.take(i + 1).last() == names@[i as int]@);
        if has_platform(existing, &names[i]) || has_platform(user, &names[i]) {
            push_text(&mut out, &names[i]);
        }
        i += 1;
    }
    assert(texts(names@).len() == names@.len());
    assert(ns.take(i as int) =~= ns);
    out
}

/// Platforms with the scope that was chosen for them; `both` stands for two targets each.
pub open spec fn with_scope(names: Seq<Seq<char>>, scope: Seq<char>) -> Seq<(Seq<char>, Seq<char>)>
    decreases names.len(),
{
    if names.len() == 0 {
        Seq::empty()
    } else {
        let init = with_scope(names.drop_last(), scope);
        if scope == "both"@ {
            init.push((names.last(), "global"@)).push((names.last(), "local"@))
        } else {
            init.push((names.last(), scope))
        }
    }
}

fn push_pair(out: &mut Vec<(String, String)>, a: &str, b: &str)
    ensures
        pair_views(final(out)@) == pair_views(old(out)@).push((a@, b@)),
{
    let ghost before = pair_views(out@);
    let x: String = a.to_owned();
    let y: String = b.to_owned();
    out.push((x, y));
    assert(pair_views(out@) =~= before.push((a@, b@)));
}

/// The install targets for the chosen platforms and scope. `None` where no platform was chosen.
pub fn select_platforms_and_scope(selected: &Vec<String>, scope: &str) -> (r: Option<
    Vec<(String, String)>,
>)
    ensures
        r is None <==> selected@.len() == 0,
        r matches Some(v) ==> pair_views(v@) == with_scope(texts(selected@), scope@),
{
    if selected.len() == 0 {
        return None;
    }
    let ghost names = texts(selected@);
    let mut out: Vec<(String, String)> = Vec::new();
    let mut i: usize = 0;
    assert(pair_views(out@) =~= with_scope(names.take(0), scope@));
    while i < selected.len()
        invariant
            names == texts(selected@),
            i <= selected@.len(),
            pair_views(out@) == with_scope(names.take(i as int), scope@),
        decreases selected@.len() - i,
    {
        assert(names.take(i + 1).drop_last() =~= names.take(i as int));
        assert(names.take(i + 1).last() == selected@[i as int]@);
        if same(scope, "both") {
            push_pair(&mut out, &selected[i], "global");
            push_pair(&mut out, &selected[i], "local");
        } else {
            push_pair(&mut out, &selected[i], scope);
        }
        i += 1;
    }
    assert(names.take(i as int) =~= names);
    Some(out)
}

/// The install target for a platform and a scope; an unknown scope counts as local.
pub open spec fn target_or_local(p: (Seq<char>, Seq<char>)) -> TargetView {
    TargetView {
        adapter: p.0,
        scope: match Scope::of_word(p.1) {
            Some(s) => s,
            None => Scope::Local,
        },
    }
}

/// The install targets to keep in the user's configuration.
pub fn write_personal_config(new_targets: &Vec<(String, String)>) -> (r: Vec<InstallTarget>)
    ensures
        target_views(r@) == pair_views(new_targets@).map_values(
            |p: (Seq<char>, Seq<char>)| target_or_local(p),
        ),
{
    let ghost want = pair_views(new_targets@).map_values(
        |p: (Seq<char>, Seq<char>)| target_or_local(p),
    );
    let mut out: Vec<InstallTarget> = Vec::new();
    let mut i: usize = 0;
    while i < new_targets.len()
        invariant
            want == pair_views(new_targets@).map_values(
                |p: (Seq<char>, Seq<char>)| target_or_local(p),
            ),
            i <= new_targets@.len(),
            target_views(out@) == want.take(i as int),
        decreases new_targets@.len() - i,
    {
        let ghost before = target_views(out@);
        let scope = match Scope::parse(&new_targets[i].1) {
            Some(s) => s,
            None => Scope::Local,
        };
        let t = InstallTarget { adapter: new_targets[i].0.clone(), scope };
        let ghost tv = t@;
        assert(want[i as int] == target_or_local(pair_views(new_targets@)[i as int]));
        out.push(t);
        assert(target_views(out@) =~= before.push(tv));
        assert(want.take(i + 1) =~= before.push(tv));
        i += 1;
    }
    assert(want.take(i as int) =~= want);
    out
}

/// Where install targets are kept, and what to tell the user.
pub struct PersistPlan {
    /// The targets for the user's configuration, or else the new text of the manifest.
    pub personal: Option<Vec<InstallTarget>>,
    pub manifest_text: Option<String>,
    pub title: String,
    pub summary: String,
}

/// Whether a plan keeps install targets where they are wanted: in the user's configuration, or in
/// the text of the manifest.
pub open spec fn keeps_targets(
    plan: PersistPlan,
    existing: Seq<char>,
    destination: Seq<char>,
    new_targets: Seq<(Seq<char>, Seq<char>)>,
) -> bool {
    &&& plan.summary@ == join(install_lines(new_targets), "\n"@)
    &&& if destination == "personal"@ {
        &&& plan.manifest_text is None
        &&& plan.personal matches Some(v) && target_views(v@) == new_targets.map_values(
            |p: (Seq<char>, Seq<char>)| target_or_local(p),
        )
        &&& plan.title@ == "Install config written to personal config"@
    } else {
        &&& plan.personal is None
        &&& plan.manifest_text matches Some(t) && t@ == with_install_lines(existing, new_targets)
        &&& plan.title@ == "Install config written to Skillfile"@
    }
}

/// Works out where install targets are kept: in the user's configuration, or in the manifest.
pub fn persist_targets(existing: &str, destination: &str, new_targets: &Vec<(String, String)>) -> (r:
    PersistPlan)
    ensures
        keeps_targets(r, existing@, destination@, pair_views(new_targets@)),
{
    let ghost il = install_lines(pair_views(new_targets@));
    let mut ls: Vec<String> = Vec::new();
    let mut i: usize = 0;
    while i < new_targets.len()
        invariant
            il == install_lines(pair_views(new_targets@)),
            i <= new_targets@.len(),
            texts(ls@) == il.take(i as int),
        decreases new_targets@.len() - i,
    {
        let l = format_install(&new_targets[i].0, &new_targets[i].1);
        assert(il[i as int] == install_line(pair_views(new_targets@)[i as int]));
        assert(il.take(i + 1) =~= il.take(i as int).push(l@));
        push_text(&mut ls, &l);
        i += 1;
    }
    assert(il.take(i as int) =~= il);
    let summary = join_all(&ls, "\n");
    if same(destination, "personal") {
        PersistPlan {
            personal: Some(write_personal_config(new_targets)),
            manifest_text: None,
            title: String::from_str("Install config written to personal config"),
            summary,
        }
    } else {
        PersistPlan {
            personal: None,
            manifest_text: Some(build_manifest_with_targets(existing, new_targets)),
            title: String::from_str("Install config written to Skillfile"),
            summary,
        }
    }
}

/// A target that is configured already, and where.
pub open spec fn existing_line(t: TargetView, place: Seq<char>) -> Seq<char> {
    install_line((t.adapter, t.scope.word())) + "  ("@ + place + ")"@
}

/// The targets that are configured already: those of the manifest, then those of the user.
pub open spec fn existing_lines(existing: Seq<TargetView>, user: Seq<TargetView>) -> Seq<Seq<char>> {
    existing.map_values(|t: TargetView| existing_line(t, "Skillfile"@)) + user.map_values(
        |t: TargetView| existing_line(t, "personal config"@),
    )
}

fn push_existing(out: &mut Vec<String>, ts: &Vec<InstallTarget>, place: &str)
    ensures
        texts(final(out)@) == texts(old(out)@) + target_views(ts@).map_values(
            |t: TargetView| existing_line(t, place@),
        ),
{
    let ghost before = texts(out@);
    let ghost want = target_views(ts@).map_values(|t: TargetView| existing_line(t, place@));
    let mut i: usize = 0;
    assert(before + want.take(0) =~= before);
    while i < ts.len()
        invariant
            want == target_views(ts@).map_values(|t: TargetView| existing_line(t, place@)),
            i <= ts@.len(),
            texts(out@) == before + want.take(i as int),
        decreases ts@.len() - i,
    {
        let mut l = format_install(&ts[i].adapter, ts[i].scope.as_str());
        l.append("  (");
        l.append(place);
        l.append(")");
        assert(want[i as int] == existing_line(target_views(ts@)[i as int], place@));
        push_text(out, &l);
        assert(before + want.take(i + 1) =~= (before + want.take(i as int)).push(l@));
        i += 1;
    }
    assert(want.take(i as int) =~= want);
}

/// The note about targets that are configured already. `None` where there are none.
pub fn existing_note(existing: &Vec<InstallTarget>, user: &Vec<InstallTarget>) -> (r: Option<String>)
    ensures
        r is None <==> existing@.len() == 0 && user@.len() == 0,
        r matches Some(s) ==> s@ == join(
            existing_lines(target_views(existing@), target_views(user@)),
            "\n"@,
        ),
{
    if existing.len() == 0 && user.len() == 0 {
        return None;
    }
    let mut ls: Vec<String> = Vec::new();
    push_existing(&mut ls, existing, "Skillfile");
    push_existing(&mut ls, user, "personal config");
    assert(texts(ls@) =~= existing_lines(target_views(existing@), target_views(user@)));
    Some(join_all(&ls, "\n"))
}

/// `entry` or `entries`.
pub open spec fn entry_word(n: nat) -> Seq<char> {
    if n == 1 {
        "entry"@
    } else {
        "entries"@
    }
}

/// The closing words of setting up.
pub open spec fn closing_text(entry_count: nat) -> Seq<char> {
    (if entry_count == 0 {
        "You're all set! Next up:"@
    } else {
        "Platforms configured! This Skillfile already has "@ + decimal(entry_count) + " "@
            + entry_word(entry_count)
            + ".\n  \u{1f680} Run `skillfile install` to fetch and deploy them."@
    })
        + "\n  \u{2795} `skillfile add` to add a skill or agent\n  \u{1f50d} `skillfile search` to discover community skills"@
}

/// The closing words of setting up.
pub fn closing(entry_count: usize) -> (r: String)
    ensures
        r@ == closing_text(entry_count as nat),
{
    let mut s: String = if entry_count == 0 {
        String::from_str("You're all set! Next up:")
    } else {
        let n = size_number(entry_count);
        let mut t = sentence("Platforms configured! This Skillfile already has ", &n, " ");
        if entry_count == 1 {
            t.append("entry");
        } else {
            t.append("entries");
        }
        t.append(".\n  \u{1f680} Run `skillfile install` to fetch and deploy them.");
        t
    };
    s.append(
        "\n  \u{2795} `skillfile add` to add a skill or agent\n  \u{1f50d} `skillfile search` to discover community skills",
    );
    s
}

/// Whether the environment holds a GitHub token: `GITHUB_TOKEN`, or `GH_TOKEN` where that is not
/// set.
pub fn has_env_token(github_token: Option<&str>, gh_token: Option<&str>) -> (r: bool)
    ensures
        r == (match github_token {
            Some(t) => t@.len() > 0,
            None => gh_token matches Some(t) && t@.len() > 0,
        }),
{
    match github_token {
        Some(t) => !t.is_empty(),
        None => match gh_token {
            Some(t) => !t.is_empty(),
            None => false,
        },
    }
}

} // verus!
