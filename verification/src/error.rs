//! The errors of the library.

use vstd::prelude::*;

verus! {

/// What can go wrong, with the text shown to the user.
#[derive(Debug, Clone)]
pub enum SkillfileError {
    Manifest(String),
    Network(String),
    Install(String),
    PatchConflict { message: String, entry_name: String },
    Io(String),
}

impl SkillfileError {
    /// The text of the error.
    pub open spec fn text(&self) -> Seq<char> {
        match self {
            SkillfileError::Manifest(m) => m@,
            SkillfileError::Network(m) => m@,
            SkillfileError::Install(m) => m@,
            SkillfileError::PatchConflict { message, .. } => message@,
            SkillfileError::Io(m) => m@,
        }
    }

    /// The text of the error.
    pub fn to_string(&self) -> (r: String)
        ensures
            r@ == self.text(),
    {
        match self {
            SkillfileError::Manifest(m) => m.clone(),
            SkillfileError::Network(m) => m.clone(),
            SkillfileError::Install(m) => m.clone(),
            SkillfileError::PatchConflict { message, .. } => message.clone(),
            SkillfileError::Io(m) => m.clone(),
        }
    }
}

} // verus!
