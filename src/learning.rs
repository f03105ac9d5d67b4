use vstd::prelude::*;

verus! {

/// The role a member of the learning platform holds.
#[derive(Clone, Copy, Debug, PartialEq, Eq, Structural)]
pub enum Roles {
    /// Consumes content; every new member starts here.
    Subscriber,
    /// Creates and manages courses.
    Instructor,
    /// Acts for a partner of the platform.
    Manager,
    /// Administers members and settings.
    Admin,
}

impl Default for Roles {
    fn default() -> (r: Roles)
        ensures
            r == Roles::Subscriber,
    {
        Roles::Subscriber
    }
}

/// A skill a member can earn, and the credit it carries.
#[derive(Clone, Debug, PartialEq, Eq)]
pub struct SkillMetadata {
    pub skill_id: String,
    /// The credit this skill is worth.
    pub credit: u32,
    /// Where the credit was earned.
    pub credit_from: String,
    /// Whether the credit was already added to the member's total; it counts once.
    pub use_skill: bool,
    pub description: Option<String>,
}

} // verus!
