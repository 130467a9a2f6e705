//! The server-wide configuration: an immutable key/value property set,
//! loaded once before any session exists and only read afterwards.

use vstd::prelude::*;

use vstd::string::StringExecFns;

verus! {

/// Minecraft 1.16.5 protocol version
pub const PROTOCOL_VERSION: i32 = 754;

/// The value of the first pair whose key matches, if any.
pub open spec fn lookup(s: Seq<(String, String)>, key: Seq<char>) -> Option<Seq<char>>
    decreases s.len(),
{
    if s.len() == 0 {
        None
    } else if s[0].0@ == key {
        Some(s[0].1@)
    } else {
        lookup(s.drop_first(), key)
    }
}

/// Key value pairs containing the server configuration
pub struct ServerConfig {
    /// The properties, in file order; the first pair with a key wins.
    pub entries: Vec<(String, String)>,
}

/// How offline identities are assigned at login.
#[derive(Clone, Copy, Debug, PartialEq, Eq, Structural)]
pub enum IdentityPolicy {
    /// A fresh random identity for every login.
    Random,
    /// The identity derived deterministically from the username.
    NameDerived,
}

impl ServerConfig {
    /// The value stored under `key`, if any.
    pub open spec fn spec_get(self, key: Seq<char>) -> Option<Seq<char>> {
        lookup(self.entries@, key)
    }

    /// Whether login must be verified by an external identity authority.
    /// Anything but an explicit `false` keeps the safe default.
    pub open spec fn spec_online(self) -> bool {
        self.spec_get("online-mode"@) != Some("false"@)
    }

    /// How offline identities are assigned: derived from the name when the
    /// configuration says `name`, random otherwise.
    pub open spec fn spec_identity_policy(self) -> IdentityPolicy {
        if self.spec_get("identity-mode"@) == Some("name"@) {
            IdentityPolicy::NameDerived
        } else {
            IdentityPolicy::Random
        }
    }

    /// Wraps the given properties; the first pair with a key wins.
    pub fn from_pairs(entries: Vec<(String, String)>) -> (r: Self)
        ensures
            r.entries@ == entries@,
    {
        ServerConfig { entries }
    }

    /// Looks a property up by key.
    #[verifier::loop_isolation(false)]
    pub fn get(&self, key: &str) -> (r: Option<&String>)
        ensures
            match r {
                Some(v) => self.spec_get(key@) == Some(v@),
                None => self.spec_get(key@) is None,
            },
    {
        let k = String::from_str(key);
        let mut i: usize = 0;
        proof {
            assert(self.entries@.skip(0) =~= self.entries@);
        }
        while i < self.entries.len()
            invariant
                i <= self.entries@.len(),
                lookup(self.entries@, key@) == lookup(self.entries@.skip(i as int), key@),
            decreases self.entries@.len() - i,
        {
            let pair = &self.entries[i];
            proof {
                assert(self.entries@.skip(i as int)[0] == self.entries@[i as int]);
                assert(self.entries@.skip(i as int).drop_first() =~= self.entries@.skip(i + 1));
            }
            if pair.0 == k {
                return Some(&pair.1);
            }
            i = i + 1;
        }
        proof {
            assert(self.entries@.skip(i as int) =~= Seq::<(String, String)>::empty());
        }
        None
    }

    /// Whether login must be verified by an external identity authority.
    pub fn online_mode(&self) -> (r: bool)
        ensures
            r == self.spec_online(),
    {
        match self.get("online-mode") {
            Some(v) => !(*v == String::from_str("false")),
            None => true,
        }
    }

    /// How offline identities are assigned.
    pub fn identity_policy(&self) -> (r: IdentityPolicy)
        ensures
            r == self.spec_identity_policy(),
    {
        match self.get("identity-mode") {
            Some(v) => if *v == String::from_str("name") {
                IdentityPolicy::NameDerived
            } else {
                IdentityPolicy::Random
            },
            None => IdentityPolicy::Random,
        }
    }
}

} // verus!
