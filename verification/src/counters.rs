//! The four-counter accumulator kept for every aggregation key.

use vstd::prelude::*;

verus! {

/// The counter of an accumulator that a contribution is added to.
#[derive(Clone, Copy, Debug, PartialEq, Eq, Structural)]
pub enum Role {
    /// Bytes received from outside the monitored network.
    ExternalIn,
    /// Bytes sent to outside the monitored network.
    ExternalOut,
    /// Bytes received from inside the monitored network.
    InternalIn,
    /// Bytes sent to inside the monitored network.
    InternalOut,
}

/// Mathematical value of an accumulator: four unbounded counters.
pub struct Counters {
    pub external_in: int,
    pub external_out: int,
    pub internal_in: int,
    pub internal_out: int,
}

impl Counters {
    /// Counters that nothing was added to.
    pub open spec fn zero() -> Counters {
        Counters { external_in: 0, external_out: 0, internal_in: 0, internal_out: 0 }
    }

    /// The counter of `role`.
    pub open spec fn get(self, role: Role) -> int {
        match role {
            Role::ExternalIn => self.external_in,
            Role::ExternalOut => self.external_out,
            Role::InternalIn => self.internal_in,
            Role::InternalOut => self.internal_out,
        }
    }

    /// The counters with `amount` added to the counter of `role`.
    pub open spec fn bump(self, role: Role, amount: int) -> Counters {
        match role {
            Role::ExternalIn => Counters { external_in: self.external_in + amount, ..self },
            Role::ExternalOut => Counters { external_out: self.external_out + amount, ..self },
            Role::InternalIn => Counters { internal_in: self.internal_in + amount, ..self },
            Role::InternalOut => Counters { internal_out: self.internal_out + amount, ..self },
        }
    }

    /// Counter-wise sum.
    pub open spec fn plus(self, other: Counters) -> Counters {
        Counters {
            external_in: self.external_in + other.external_in,
            external_out: self.external_out + other.external_out,
            internal_in: self.internal_in + other.internal_in,
            internal_out: self.internal_out + other.internal_out,
        }
    }
}

/// Counters that agree in every role are the same counters.
pub proof fn lemma_counters_equal(x: Counters, y: Counters)
    requires
        forall|role: Role| x.get(role) == y.get(role),
    ensures
        x == y,
{
    assert(x.get(Role::ExternalIn) == y.get(Role::ExternalIn));
    assert(x.get(Role::ExternalOut) == y.get(Role::ExternalOut));
    assert(x.get(Role::InternalIn) == y.get(Role::InternalIn));
    assert(x.get(Role::InternalOut) == y.get(Role::InternalOut));
}

/// Byte counters of one address in one hour, split by direction and role.
#[derive(Clone, Copy, Debug, PartialEq, Eq, Structural)]
pub struct FlowCount {
    external_in: i64,
    external_out: i64,
    internal_in: i64,
    internal_out: i64,
}

impl View for FlowCount {
    type V = Counters;

    closed spec fn view(&self) -> Counters {
        Counters {
            external_in: self.external_in as int,
            external_out: self.external_out as int,
            internal_in: self.internal_in as int,
            internal_out: self.internal_out as int,
        }
    }
}

impl FlowCount {
    /// No counter is negative.
    #[verifier::type_invariant]
    pub open spec fn inv(self) -> bool {
        &&& self@.external_in >= 0
        &&& self@.external_out >= 0
        &&& self@.internal_in >= 0
        &&& self@.internal_out >= 0
    }

    /// Every counter of an accumulator is in the signed 64-bit range.
    pub proof fn lemma_in_range(self)
        ensures
            forall|role: Role| i64::MIN <= #[trigger] self@.get(role) <= i64::MAX,
    {
    }

    /// Bytes received from outside.
    pub fn external_in(&self) -> (r: i64)
        ensures
            r == self@.external_in,
            r >= 0,
    {
        proof {
            use_type_invariant(self);
        }
        self.external_in
    }

    /// Bytes sent to outside.
    pub fn external_out(&self) -> (r: i64)
        ensures
            r == self@.external_out,
            r >= 0,
    {
        proof {
            use_type_invariant(self);
        }
        self.external_out
    }

    /// Bytes received from inside.
    pub fn internal_in(&self) -> (r: i64)
        ensures
            r == self@.internal_in,
            r >= 0,
    {
        proof {
            use_type_invariant(self);
        }
        self.internal_in
    }

    /// Bytes sent to inside.
    pub fn internal_out(&self) -> (r: i64)
        ensures
            r == self@.internal_out,
            r >= 0,
    {
        proof {
            use_type_invariant(self);
        }
        self.internal_out
    }

    /// The counter of `role`.
    pub fn get(&self, role: Role) -> (r: i64)
        ensures
            r == self@.get(role),
            r >= 0,
    {
        proof {
            use_type_invariant(self);
        }
        match role {
            Role::ExternalIn => self.external_in,
            Role::ExternalOut => self.external_out,
            Role::InternalIn => self.internal_in,
            Role::InternalOut => self.internal_out,
        }
    }

    /// Adds `amount` to the counter of `role`; `None` when the counter would
    /// leave the signed 64-bit range.
    pub fn add_bytes(&self, role: Role, amount: u64) -> (r: Option<FlowCount>)
        ensures
            match r {
                Some(sum) => sum@ == self@.bump(role, amount as int) && self@.get(role) + amount
                    <= i64::MAX,
                None => self@.get(role) + amount > i64::MAX,
            },
    {
        proof {
            use_type_invariant(self);
        }
        if amount > 0x7fff_ffff_ffff_ffff {
            return None;
        }
        let amount: i64 = amount as i64;
        let current: i64 = self.get(role);
        match current.checked_add(amount) {
            None => None,
            Some(sum) => Some(
                match role {
                    Role::ExternalIn => FlowCount { external_in: sum, ..*self },
                    Role::ExternalOut => FlowCount { external_out: sum, ..*self },
                    Role::InternalIn => FlowCount { internal_in: sum, ..*self },
                    Role::InternalOut => FlowCount { internal_out: sum, ..*self },
                },
            ),
        }
    }
}

impl Default for FlowCount {
    fn default() -> (r: FlowCount)
        ensures
            r@ == Counters::zero(),
    {
        FlowCount { external_in: 0, external_out: 0, internal_in: 0, internal_out: 0 }
    }
}

} // verus!
