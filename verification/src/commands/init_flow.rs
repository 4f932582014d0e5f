//! The course of setting up a repository: questions, answers and what is written.

use vstd::prelude::*;
use crate::commands::init::{
    check_interactive, closing, closing_text, configured, existing_lines, existing_note,
    gitignore_additions, gitignore_text, keeps_targets, pair_views, persist_targets, preselected,
    select_platforms_and_scope, with_scope, PersistPlan,
};
use crate::error::SkillfileError;
use crate::models::{target_views, InstallTarget, TargetView};
use crate::parser::{lossy_text, manifest_of, parse_manifest, without_bom};
use crate::platforms::{platform_names, Platform};
use crate::text::{join, opt_text, texts};

verus! {

/// How far the setup is.
pub enum InitState {
    /// Nothing has happened.
    Begin,
    /// The manifest and the user's configuration are being read.
    Reading,
    /// The platforms are being chosen.
    Choosing { entry_count: usize },
    /// The place for the install targets is being chosen.
    Placing { entry_count: usize, targets: Vec<(String, String)> },
    /// The install targets are being written.
    Keeping { entry_count: usize },
    /// The GitHub token is being set up.
    Closing { entry_count: usize },
    /// The setup is over.
    Done,
}

/// What happened.
pub enum InitEvent {
    /// The command was called: what is known of the terminal, and whether there is a manifest.
    Started {
        is_ci: bool,
        stdin_is_terminal: bool,
        stdout_is_terminal: bool,
        has_manifest: bool,
    },
    /// The manifest and the user's install targets were read.
    Read { bytes: Vec<u8>, user: Vec<InstallTarget> },
    /// Platforms and a scope for them were chosen.
    Chosen { platforms: Vec<String>, scope: String },
    /// A place for the install targets was chosen; the text of the manifest.
    Placed { destination: String, text: String },
    /// The install targets were written.
    Kept,
    /// The GitHub token is set up, or it was left out; the text of `.gitignore`.
    TokenReady { gitignore: String },
}

/// What is to be done.
pub enum InitAction {
    /// Create an empty manifest, where there is none, and read it.
    Read { create: bool },
    /// Show what is configured already, and ask for platforms and a scope.
    Choose { note: Option<String>, initial: Vec<String> },
    /// Ask where the install targets are kept.
    AskPlace,
    /// Say that no platform was chosen.
    Cancel,
    /// Write the install targets.
    Keep(PersistPlan),
    /// Set up the GitHub token.
    SetUpToken,
    /// Add to `.gitignore`, where something is missing, and say how to go on.
    Finish { additions: Option<String>, words: String },
    /// Nothing: the event does not belong here.
    Nothing,
}

/// Why no questions can be asked.
pub open spec fn no_terminal_text() -> Seq<char> {
    "skillfile init requires an interactive terminal.\nUse `skillfile add` for scripted/CI usage."@
}

/// Whether questions can be asked.
pub open spec fn may_ask(e: InitEvent) -> bool {
    match e {
        InitEvent::Started { is_ci, stdin_is_terminal, stdout_is_terminal, .. } => !is_ci
            && stdin_is_terminal && stdout_is_terminal,
        _ => true,
    }
}

/// The note about targets that are configured already.
pub open spec fn note_text(existing: Seq<TargetView>, user: Seq<TargetView>) -> Option<Seq<char>> {
    if existing.len() == 0 && user.len() == 0 {
        None
    } else {
        Some(join(existing_lines(existing, user), "\n"@))
    }
}

/// Whether an event leads from one state to another, and to an action.
pub open spec fn init_step(
    s: InitState,
    e: InitEvent,
    known: Seq<Platform>,
    s2: InitState,
    a: InitAction,
) -> bool {
    match (s, e) {
        (InitState::Begin, InitEvent::Started { has_manifest, .. }) => {
            s2 is Reading && a == (InitAction::Read { create: !has_manifest })
        },
        (InitState::Reading, InitEvent::Read { bytes, user }) => {
            let m = manifest_of(lossy_text(without_bom(bytes@)));
            let u = target_views(user@);
            &&& s2 matches InitState::Choosing { entry_count } && entry_count == m.entries.len()
            &&& a matches InitAction::Choose { note, initial } && opt_text(note) == note_text(
                m.install_targets,
                u,
            ) && texts(initial@) == configured(platform_names(known), m.install_targets, u)
        },
        (InitState::Choosing { entry_count: n }, InitEvent::Chosen { platforms, scope }) => {
            if platforms@.len() == 0 {
                s2 is Done && a is Cancel
            } else {
                &&& s2 matches InitState::Placing { entry_count, targets } && entry_count == n
                    && pair_views(targets@) == with_scope(texts(platforms@), scope@)
                &&& a is AskPlace
            }
        },
        (
            InitState::Placing { entry_count: n, targets },
            InitEvent::Placed { destination, text },
        ) => {
            &&& s2 == (InitState::Keeping { entry_count: n })
            &&& a matches InitAction::Keep(plan) && keeps_targets(
                plan,
                text@,
                destination@,
                pair_views(targets@),
            )
        },
        (InitState::Keeping { entry_count: n }, InitEvent::Kept) => {
            s2 == (InitState::Closing { entry_count: n }) && a is SetUpToken
        },
        (InitState::Closing { entry_count: n }, InitEvent::TokenReady { gitignore }) => {
            &&& s2 is Done
            &&& a matches InitAction::Finish { additions, words } && opt_text(additions)
                == gitignore_text(gitignore@) && words@ == closing_text(n as nat)
        },
        _ => s2 == s && a is Nothing,
    }
}

/// Takes the setup one step further. It starts only where questions can be asked.
pub fn cmd_init(state: InitState, event: InitEvent, known: &Vec<Platform>) -> (r: Result<
    (InitState, InitAction),
    SkillfileError,
>)
    ensures
        match r {
            Ok((s2, a)) => init_step(state, event, known@, s2, a),
            Err(SkillfileError::Manifest(m)) => m@ == no_terminal_text(),
            Err(_) => false,
        },
        r is Err <==> state is Begin && !may_ask(event),
{
    match (state, event) {
        (
            InitState::Begin,
            InitEvent::Started { is_ci, stdin_is_terminal, stdout_is_terminal, has_manifest },
        ) => {
            match check_interactive(is_ci, stdin_is_terminal, stdout_is_terminal) {
                Err(e) => Err(e),
                Ok(_) => Ok((InitState::Reading, InitAction::Read { create: !has_manifest })),
            }
        },
        (InitState::Reading, InitEvent::Read { bytes, user }) => {
            let result = parse_manifest(bytes.as_slice());
            let existing = &result.manifest.install_targets;
            assert(target_views(existing@).len() == existing@.len());
            assert(target_views(user@).len() == user@.len());
            let note = existing_note(existing, &user);
            let initial = preselected(known, existing, &user);
            let entry_count: usize = result.manifest.entries.len();
            assert(result@.entries.len() == entry_count);
            Ok((InitState::Choosing { entry_count }, InitAction::Choose { note, initial }))
        },
        (InitState::Choosing { entry_count }, InitEvent::Chosen { platforms, scope }) => {
            match select_platforms_and_scope(&platforms, &scope) {
                None => Ok((InitState::Done, InitAction::Cancel)),
                Some(targets) => Ok(
                    (InitState::Placing { entry_count, targets }, InitAction::AskPlace),
                ),
            }
        },
        (
            InitState::Placing { entry_count, targets },
            InitEvent::Placed { destination, text },
        ) => {
            let plan = persist_targets(&text, &destination, &targets);
            Ok((InitState::Keeping { entry_count }, InitAction::Keep(plan)))
        },
        (InitState::Keeping { entry_count }, InitEvent::Kept) => {
            Ok((InitState::Closing { entry_count }, InitAction::SetUpToken))
        },
        (InitState::Closing { entry_count }, InitEvent::TokenReady { gitignore }) => {
            let additions = gitignore_additions(&gitignore);
            let words = closing(entry_count);
            Ok((InitState::Done, InitAction::Finish { additions, words }))
        },
        (state, _) => Ok((state, InitAction::Nothing)),
    }
}

/// Whether a state of the setup can come about: install targets are placed only where there are
/// some.
pub open spec fn init_valid(s: InitState) -> bool {
    s matches InitState::Placing { targets, .. } ==> targets@.len() > 0
}

/// A setup in which no platform is chosen writes no install targets and is over; one that is over
/// does nothing more; and where targets are written there are some.
pub proof fn law_init_writes_what_was_chosen(
    s: InitState,
    e: InitEvent,
    known: Seq<Platform>,
    s2: InitState,
    a: InitAction,
)
    requires
        init_valid(s),
        init_step(s, e, known, s2, a),
    ensures
        init_valid(s2),
        a is Cancel ==> s2 is Done,
        s is Done ==> s2 is Done && a is Nothing,
        a matches InitAction::Keep(plan) ==> (s matches InitState::Placing { targets, .. }
            && targets@.len() > 0),
{
    if let (InitState::Choosing { .. }, InitEvent::Chosen { platforms, scope }) = (s, e) {
        if platforms@.len() > 0 {
            let ns = texts(platforms@);
            assert(ns.len() == platforms@.len());
            assert(with_scope(ns, scope@).len() > 0);
            assert(s2 matches InitState::Placing { targets, .. } && pair_views(targets@).len()
                == targets@.len());
        }
    }
}

} // verus!
