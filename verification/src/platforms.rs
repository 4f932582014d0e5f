//! The platforms that skills and agents are installed for.

use vstd::prelude::*;
use crate::commands::common::push_text;
use crate::models::EntityType;
use crate::text::{same, texts};

verus! {

/// A platform: its name, and which entities can be installed for it.
pub struct Platform {
    pub name: String,
    pub takes_skills: bool,
    pub takes_agents: bool,
}

impl Platform {
    /// Whether the platform takes entities of a type.
    pub open spec fn takes(self, t: EntityType) -> bool {
        match t {
            EntityType::Skill => self.takes_skills,
            EntityType::Agent => self.takes_agents,
        }
    }
}

/// The names of platforms, in their order.
pub open spec fn platform_names(ps: Seq<Platform>) -> Seq<Seq<char>> {
    ps.map_values(|p: Platform| p.name@)
}

/// Whether a platform of a name takes entities of a type; an unknown platform takes none. Of
/// platforms that share a name the first counts.
pub open spec fn platform_supports(ps: Seq<Platform>, name: Seq<char>, t: EntityType) -> bool
    decreases ps.len(),
{
    if ps.len() == 0 {
        false
    } else if ps[0].name@ == name {
        ps[0].takes(t)
    } else {
        platform_supports(ps.skip(1), name, t)
    }
}

/// The names of platforms.
pub fn known_adapters(platforms: &Vec<Platform>) -> (r: Vec<String>)
    ensures
        texts(r@) == platform_names(platforms@),
{
    let ghost names = platform_names(platforms@);
    let mut v: Vec<String> = Vec::new();
    let mut i: usize = 0;
    assert(texts(v@) =~= names.take(0));
    while i < platforms.len()
        invariant
            names == platform_names(platforms@),
            i <= platforms@.len(),
            texts(v@) == names.take(i as int),
        decreases platforms@.len() - i,
    {
        push_text(&mut v, &platforms[i].name);
        assert(names.take(i + 1) =~= names.take(i as int).push(names[i as int]));
        i += 1;
    }
    assert(names.take(i as int) =~= names);
    v
}

/// Whether a platform of a name takes entities of a type.
pub fn supports(platforms: &Vec<Platform>, name: &str, t: EntityType) -> (r: bool)
    ensures
        r == platform_supports(platforms@, name@, t),
{
    let ghost ps = platforms@;
    let mut i: usize = 0;
    assert(ps.skip(0) =~= ps);
    while i < platforms.len()
        invariant
            ps == platforms@,
            i <= ps.len(),
            platform_supports(ps, name@, t) == platform_supports(ps.skip(i as int), name@, t),
        decreases ps.len() - i,
    {
        let p = &platforms[i];
        if same(&p.name, name) {
            return match t {
                EntityType::Skill => p.takes_skills,
                EntityType::Agent => p.takes_agents,
            };
        }
        assert(ps.skip(i as int).skip(1) =~= ps.skip(i + 1));
        i += 1;
    }
    false
}

} // verus!
