//! What is added to a manifest, and what is said of it.

use vstd::prelude::*;
use crate::cli::discovery_path;
use crate::commands::add::{type_or_skill, AddTally};
use crate::error::SkillfileError;
use crate::numbers::decimal;
use crate::text::{ends_with, starts_with};

verus! {

/// Entries are looked for below a path that ends in a slash, and below the root; any other path is
/// that of one entry.
pub proof fn law_discovery(path: Seq<char>)
    ensures
        discovery_path(path.push('/')),
        discovery_path("."@),
        path.len() > 0 && path.last() != '/' && path != "."@ ==> !discovery_path(path),
{
    reveal_strlit("/");
    let p = path.push('/');
    assert(p.subrange(p.len() - 1, p.len() as int) =~= "/"@);
    if path.len() > 0 && ends_with(path, "/"@) {
        assert(path.subrange(path.len() - 1, path.len() as int)[0] == '/');
    }
}

/// What is added is a skill unless it is said to be an agent.
pub proof fn law_a_skill_unless_said(word: Seq<char>)
    ensures
        type_or_skill(word) is Agent <==> word == "agent"@,
{
    reveal_strlit("skill");
    reveal_strlit("agent");
    assert("skill"@[0] != "agent"@[0]);
}

/// The closing line of adding many entries counts those that were added, and those that were left out
/// where there are some.
pub proof fn law_tally_is_said(tally: AddTally, word: Seq<char>)
    ensures
        starts_with(
            tally.summary_text(word),
            "Added "@ + decimal(tally.added as nat) + " "@ + word + (if tally.added == 1 {
                " to"@
            } else {
                "s to"@
            }),
        ),
        tally.skipped > 0 ==> ends_with(
            tally.summary_text(word),
            " ("@ + decimal(tally.skipped as nat) + " skipped)"@,
        ),
        tally.skipped == 0 ==> ends_with(tally.summary_text(word), " to Skillfile."@),
{
    let t = tally.summary_text(word);
    reveal_strlit("");
    reveal_strlit("s");
    reveal_strlit(" to");
    reveal_strlit("s to");
    reveal_strlit(" to Skillfile.");
    let p = "Added "@ + decimal(tally.added as nat) + " "@ + word + (if tally.added == 1 {
        " to"@
    } else {
        "s to"@
    });
    assert(t.subrange(0, p.len() as int) =~= p);
    let e = " ("@ + decimal(tally.skipped as nat) + " skipped)"@;
    if tally.skipped > 0 {
        assert(t.subrange(t.len() - e.len(), t.len() as int) =~= e);
    } else {
        let f = " to Skillfile."@;
        assert(t.subrange(t.len() - f.len(), t.len() as int) =~= f);
    }
}

/// Each outcome of adding counts once: as added, or as left out, which is told.
pub proof fn law_every_outcome_counts(
    tally: &mut AddTally,
    name: &str,
    outcome: &Result<(), SkillfileError>,
    r: Option<String>,
)
    requires
        call_ensures(AddTally::record, (tally, name, outcome), r),
    ensures
        final(tally).added + final(tally).skipped == old(tally).added + old(tally).skipped + 1,
        final(tally).added == old(tally).added + 1 <==> *outcome is Ok,
        r is None <==> *outcome is Ok,
{
}

} // verus!
