use vstd::prelude::*;

verus! {

/// A policy as the policy table stores it: its path rules are JSON text.
#[derive(Debug)]
pub struct PolicyRaw {
    name: String,
    policy: String,
    namespace_id: String,
}

impl PolicyRaw {
    /// A stored policy.
    pub fn new(name: String, policy: String, namespace_id: String) -> (r: Self)
        ensures
            r.name()@ == name@,
            r.policy()@ == policy@,
            r.namespace_id()@ == namespace_id@,
    {
        PolicyRaw { name, policy, namespace_id }
    }

    pub closed spec fn name(&self) -> String {
        self.name
    }

    pub closed spec fn policy(&self) -> String {
        self.policy
    }

    pub closed spec fn namespace_id(&self) -> String {
        self.namespace_id
    }

    /// The policy's name.
    pub fn name_text(&self) -> (r: &str)
        ensures
            r@ == self.name()@,
    {
        self.name.as_str()
    }

    /// The JSON text of the policy's path rules.
    pub fn policy_text(&self) -> (r: &str)
        ensures
            r@ == self.policy()@,
    {
        self.policy.as_str()
    }

    /// The namespace the policy belongs to.
    pub fn namespace_text(&self) -> (r: &str)
        ensures
            r@ == self.namespace_id()@,
    {
        self.namespace_id.as_str()
    }
}

} // verus!
