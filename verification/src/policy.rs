//! Capabilities: what a particle may do.

use crate::assoc::{AssocMap, Held};
use vstd::prelude::*;
use vstd::string::*;

verus! {

/// A set of granted capabilities.
pub struct PolicySet {
    capabilities: AssocMap<String, ()>,
}

impl View for PolicySet {
    type V = Set<Seq<char>>;

    closed spec fn view(&self) -> Set<Seq<char>> {
        self.capabilities@.dom()
    }
}

impl Held for PolicySet {
    closed spec fn valid(&self) -> bool {
        self.capabilities.wf()
    }
}

/// The capabilities that a list names.
pub open spec fn named_set(caps: Seq<&str>) -> Set<Seq<char>> {
    Set::new(|c: Seq<char>| exists|i: int| 0 <= i < caps.len() && (#[trigger] caps[i])@ == c)
}

/// The capabilities that are known.
pub open spec fn known_capabilities() -> Set<Seq<char>> {
    set![
        "logging"@,
        "particle:send"@,
        "particle:spawn"@,
        "particle:link"@,
        "particle:monitor"@,
        "particle:register"@,
        "particle:lookup"@,
        "actor:call"@,
        "actor:notify"@,
        "actor:send"@,
        "actor:receive"@,
        "db:read"@,
        "db:write"@,
    ]
}

impl PolicySet {
    /// A set that allows nothing.
    pub fn empty() -> (r: Self)
        ensures
            r.valid(),
            r@ == Set::<Seq<char>>::empty(),
    {
        let r = PolicySet { capabilities: AssocMap::new() };
        r
    }

    fn grant(&mut self, capability: &str)
        requires
            old(self).valid(),
        ensures
            final(self).valid(),
            final(self)@ == old(self)@.insert(capability@),
    {
        self.capabilities.insert(capability.to_owned(), ());
    }

    /// A set that allows the capabilities of a list.
    pub fn with_capabilities(caps: &[&str]) -> (r: Self)
        ensures
            r.valid(),
            r@ == named_set(caps@),
    {
        let mut r = PolicySet::empty();
        let mut i: usize = 0;
        while i < caps.len()
            invariant
                i <= caps@.len(),
                r.valid(),
                r@ == named_set(caps@.take(i as int)),
            decreases caps@.len() - i,
        {
            r.grant(caps[i]);
            proof {
                let before = caps@.take(i as int);
                let after = caps@.take(i + 1);
                assert forall|c: Seq<char>| named_set(after).contains(c) == (named_set(
                    before,
                ).insert(caps@[i as int]@)).contains(c) by {
                    assert(after[i as int] == caps@[i as int]);
                    if named_set(before).contains(c) {
                        let j = choose|j: int| 0 <= j < before.len() && (#[trigger] before[j])@ == c;
                    }
                    if named_set(after).contains(c) {
                        let j = choose|j: int| 0 <= j < after.len() && (#[trigger] after[j])@ == c;
                    }
                }
            }
            i += 1;
        }
        assert(caps@.take(caps@.len() as int) =~= caps@);
        r
    }

    /// A set that allows every known capability.
    pub fn all() -> (r: Self)
        ensures
            r.valid(),
            r@ == known_capabilities(),
    {
        let mut r = PolicySet::empty();
        r.grant("logging");
        r.grant("particle:send");
        r.grant("particle:spawn");
        r.grant("particle:link");
        r.grant("particle:monitor");
        r.grant("particle:register");
        r.grant("particle:lookup");
        r.grant("actor:call");
        r.grant("actor:notify");
        r.grant("actor:send");
        r.grant("actor:receive");
        r.grant("db:read");
        r.grant("db:write");
        r
    }

    /// Whether a capability is allowed.
    pub fn allows(&self, capability: &str) -> (r: bool)
        ensures
            r == self@.contains(capability@),
    {
        self.capabilities.contains_key(&capability.to_owned())
    }
}

impl Clone for PolicySet {
    fn clone(&self) -> (r: Self)
        ensures
            r.valid(),
            r@ == self@,
    {
        let mut capabilities: AssocMap<String, ()> = AssocMap::new();
        let mut i: usize = 0;
        while i < self.capabilities.len()
            invariant
                i <= self.capabilities.items().len(),
                capabilities.wf(),
                forall|c: Seq<char>|
                    capabilities@.contains_key(c) == exists|j: int|
                        0 <= j < i && (#[trigger] self.capabilities.items()[j]).0@ == c,
            decreases self.capabilities.items().len() - i,
        {
            let ghost before = capabilities@;
            let key = self.capabilities.key_at(i).clone();
            capabilities.insert(key, ());
            proof {
                assert forall|c: Seq<char>| capabilities@.contains_key(c) == exists|j: int|
                    0 <= j < i + 1 && (#[trigger] self.capabilities.items()[j]).0@ == c by {
                    if before.contains_key(c) {
                        let j = choose|j: int|
                            0 <= j < i && (#[trigger] self.capabilities.items()[j]).0@ == c;
                    }
                }
            }
            i += 1;
        }
        let r = PolicySet { capabilities };
        r
    }
}

impl Default for PolicySet {
    fn default() -> (r: Self)
        ensures
            r.valid(),
            r@ == Set::<Seq<char>>::empty(),
    {
        PolicySet::empty()
    }
}

} // verus!
