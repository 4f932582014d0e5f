//! What the community registries answer to a search.

use vstd::prelude::*;

verus! {

/// A registry of skills.
#[derive(Debug, Clone, Copy, PartialEq, Eq, Structural)]
pub enum RegistryId {
    AgentskillSh,
    SkillsSh,
    SkillhubClub,
}

impl RegistryId {
    /// How the registry is called.
    pub open spec fn word(self) -> Seq<char> {
        match self {
            RegistryId::AgentskillSh => "agentskill.sh"@,
            RegistryId::SkillsSh => "skills.sh"@,
            RegistryId::SkillhubClub => "skillhub.club"@,
        }
    }

    /// How the registry is called.
    pub fn as_str(&self) -> (r: &'static str)
        ensures
            r@ == self.word(),
    {
        match self {
            RegistryId::AgentskillSh => "agentskill.sh",
            RegistryId::SkillsSh => "skills.sh",
            RegistryId::SkillhubClub => "skillhub.club",
        }
    }

    /// Whether the registry shows security audits on the pages of its skills.
    pub open spec fn audits(self) -> bool {
        self == RegistryId::SkillsSh
    }

    /// Whether the registry shows security audits on the pages of its skills.
    pub fn has_security_audits(&self) -> (r: bool)
        ensures
            r == self.audits(),
    {
        match self {
            RegistryId::SkillsSh => true,
            _ => false,
        }
    }
}

/// A skill that a registry found.
#[derive(Debug, Clone)]
pub struct SearchResult {
    pub name: String,
    pub owner: String,
    pub description: Option<String>,
    pub security_score: Option<u8>,
    pub stars: Option<u64>,
    pub url: String,
    pub registry: RegistryId,
    pub source_repo: Option<String>,
    pub source_path: Option<String>,
}

/// What a search found, and how much there is in all.
#[derive(Debug)]
pub struct SearchResponse {
    pub items: Vec<SearchResult>,
    pub total: usize,
}

} // verus!
