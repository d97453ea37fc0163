//! Platform rules: which operating system a library is meant for.

use vstd::prelude::*;

verus! {

/// An operating system by name.
#[derive(Debug, Clone, Copy, PartialEq, Eq, Hash, Structural)]
pub enum OsName {
    Linux,
    Windows,
    Osx,
}

/// What a rule does where it applies.
#[derive(Debug, Clone, Copy, PartialEq, Eq, Structural)]
pub enum RuleAction {
    Allow,
    Disallow,
}

/// The condition of a rule: the operating system it names.
#[derive(Debug, Clone, Copy, PartialEq, Eq, Structural)]
pub struct OsRule {
    pub name: OsName,
}

/// A rule: an action, and the operating system it is limited to, if any.
#[derive(Debug, Clone, Copy, PartialEq, Eq, Structural)]
pub struct Rule {
    pub action: RuleAction,
    pub os: Option<OsRule>,
}

impl OsName {
    /// Whether this is the operating system `current`, the one the program
    /// runs on.
    pub fn is_current(&self, current: OsName) -> (r: bool)
        ensures
            r == (*self == current),
    {
        *self == current
    }
}

impl OsRule {
    /// Whether the condition holds on `current`.
    pub open spec fn allows(self, current: OsName) -> bool {
        self.name == current
    }

    /// Whether the condition holds on the operating system `current`.
    pub fn allow(&self, current: OsName) -> (r: bool)
        ensures
            r == self.allows(current),
    {
        self.name.is_current(current)
    }
}

impl Rule {
    /// Whether the rule lets a library through on `current`. A rule without
    /// a condition lets everything through if it allows and nothing if it
    /// disallows; with a condition, an allowing rule lets through where the
    /// condition holds, a disallowing one where it does not.
    pub open spec fn allows(self, current: OsName) -> bool {
        match (self.action, self.os) {
            (RuleAction::Allow, None) => true,
            (RuleAction::Allow, Some(os)) => os.allows(current),
            (RuleAction::Disallow, None) => false,
            (RuleAction::Disallow, Some(os)) => !os.allows(current),
        }
    }

    /// Whether the rule lets a library through on the operating system
    /// `current`.
    pub fn allow(&self, current: OsName) -> (r: bool)
        ensures
            r == self.allows(current),
    {
        match self.action {
            RuleAction::Allow => match &self.os {
                None => true,
                Some(os) => os.allow(current),
            },
            RuleAction::Disallow => match &self.os {
                None => false,
                Some(os) => !os.allow(current),
            },
        }
    }
}

/// Whether every rule of `rules` lets a library through on `current`.
pub open spec fn all_allow(rules: Seq<Rule>, current: OsName) -> bool {
    forall|i: int| 0 <= i < rules.len() ==> (#[trigger] rules[i]).allows(current)
}

/// Whether every rule of `rules` lets a library through on `current`.
pub fn rules_allow(rules: &Vec<Rule>, current: OsName) -> (r: bool)
    ensures
        r == all_allow(rules@, current),
{
    let mut i: usize = 0;
    while i < rules.len()
        invariant
            i <= rules.len(),
            forall|j: int| 0 <= j < i ==> (#[trigger] rules@[j]).allows(current),
        decreases rules.len() - i,
    {
        if !rules[i].allow(current) {
            return false;
        }
        i += 1;
    }
    true
}

} // verus!
