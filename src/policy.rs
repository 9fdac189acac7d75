use vstd::prelude::*;

verus! {

/// An ego driving intent. `Plain` is one of the concrete strategies (lane keeping,
/// lane changes, velocity keeping), known by its id; `Delayed` is a switch in
/// progress that behaves as `from` until `elapsed` reaches `duration` (both in
/// clock ticks), then as `to`.
#[derive(Debug)]
pub enum SidePolicy {
    Plain { id: u32 },
    Delayed { from: Box<SidePolicy>, to: Box<SidePolicy>, duration: u64, elapsed: u64 },
}

impl Clone for SidePolicy {
    fn clone(&self) -> (r: SidePolicy)
        ensures
            r == *self,
    {
        self.duplicate()
    }
}

impl SidePolicy {
    pub open spec fn is_delayed(self) -> bool {
        self is Delayed
    }

    /// The policy that this one is heading for: the target of a switch in
    /// progress, or the policy itself.
    pub open spec fn operating(self) -> SidePolicy
        decreases self,
    {
        match self {
            SidePolicy::Plain { id } => SidePolicy::Plain { id },
            SidePolicy::Delayed { to, .. } => (*to).operating(),
        }
    }

    /// The id of the strategy that currently drives the car.
    pub open spec fn active_id(self) -> u32
        decreases self,
    {
        match self {
            SidePolicy::Plain { id } => id,
            SidePolicy::Delayed { from, to, duration, elapsed } => {
                if elapsed < duration {
                    (*from).active_id()
                } else {
                    (*to).active_id()
                }
            },
        }
    }

    /// Whether assigning `new` over `self` keeps `self` as it stands: the same
    /// strategy is reselected and no switch is involved on either side.
    pub open spec fn keeps_on_reselect(self, new: SidePolicy) -> bool {
        !self.is_delayed() && !new.is_delayed() && self.active_id() == new.active_id()
    }

    /// A copy of the policy, equal to it in every field.
    pub fn duplicate(&self) -> (r: SidePolicy)
        ensures
            r == *self,
        decreases *self,
    {
        match self {
            SidePolicy::Plain { id } => SidePolicy::Plain { id: *id },
            SidePolicy::Delayed { from, to, duration, elapsed } => {
                let f = (**from).duplicate();
                let t = (**to).duplicate();
                SidePolicy::Delayed {
                    from: Box::new(f),
                    to: Box::new(t),
                    duration: *duration,
                    elapsed: *elapsed,
                }
            },
        }
    }

    /// The id of the strategy that currently drives the car.
    pub fn policy_id(&self) -> (r: u32)
        ensures
            r == self.active_id(),
        decreases *self,
    {
        match self {
            SidePolicy::Plain { id } => *id,
            SidePolicy::Delayed { from, to, duration, elapsed } => {
                if *elapsed < *duration {
                    (**from).policy_id()
                } else {
                    (**to).policy_id()
                }
            },
        }
    }

    /// The policy that this one is heading for (see `operating`).
    pub fn operating_policy(&self) -> (r: SidePolicy)
        ensures
            r == self.operating(),
            !r.is_delayed(),
        decreases *self,
    {
        match self {
            SidePolicy::Plain { id } => SidePolicy::Plain { id: *id },
            SidePolicy::Delayed { to, .. } => (**to).operating_policy(),
        }
    }

    /// A switch from `from` to `to` that starts now and completes after `duration` ticks.
    pub fn delayed(from: SidePolicy, to: SidePolicy, duration: u64) -> (r: SidePolicy)
        ensures
            r == (SidePolicy::Delayed { from: Box::new(from), to: Box::new(to), duration, elapsed: 0 }),
    {
        SidePolicy::Delayed { from: Box::new(from), to: Box::new(to), duration, elapsed: 0 }
    }

    /// Assigns `new` over this policy, unless the same strategy is reselected with
    /// no switch on either side: then the current one, with its internal state, stays.
    pub fn set_policy(&mut self, new: SidePolicy)
        ensures
            old(self).keeps_on_reselect(new) ==> *final(self) == *old(self),
            !old(self).keeps_on_reselect(new) ==> *final(self) == new,
    {
        let keep = match (&*self, &new) {
            (SidePolicy::Plain { id: a }, SidePolicy::Plain { id: b }) => *a == *b,
            _ => false,
        };
        if !keep {
            *self = new;
        }
    }
    /// Advances the clock of a switch in progress by `dt` ticks; a plain policy keeps
    /// no clock here.
    pub fn advance(&mut self, dt: u64)
        ensures
            match *old(self) {
                SidePolicy::Plain { .. } => *final(self) == *old(self),
                SidePolicy::Delayed { from, to, duration, elapsed } => *final(self) == (SidePolicy::Delayed {
                    from,
                    to,
                    duration,
                    elapsed: if elapsed + dt > u64::MAX { u64::MAX } else { (elapsed + dt) as u64 },
                }),
            },
    {
        if let SidePolicy::Delayed { elapsed, .. } = self {
            *elapsed = elapsed.saturating_add(dt);
        }
    }
}

/// The policy that a member holds after `new` is assigned over `p`.
pub open spec fn assigned(p: SidePolicy, new: SidePolicy) -> SidePolicy {
    if p.keeps_on_reselect(new) {
        p
    } else {
        new
    }
}

/// Assigns `new` as the ego policy of every member of an ensemble, each by the
/// rule of `set_policy`.
pub fn set_policy_all(members: &mut Vec<SidePolicy>, new: &SidePolicy)
    ensures
        final(members)@.len() == old(members)@.len(),
        forall|k: int| 0 <= k < old(members)@.len() ==> #[trigger] final(members)@[k] == assigned(old(members)@[k], *new),
{
    let mut k: usize = 0;
    while k < members.len()
        invariant
            k <= members@.len(),
            members@.len() == old(members)@.len(),
            forall|j: int| 0 <= j < k ==> #[trigger] members@[j] == assigned(old(members)@[j], *new),
            forall|j: int| k <= j < members@.len() ==> #[trigger] members@[j] == old(members)@[j],
        decreases members@.len() - k,
    {
        let mut p = members[k].duplicate();
        p.set_policy(new.duplicate());
        members.set(k, p);
        k = k + 1;
    }
}

/// Members that run the same ego policy still do after a policy is assigned to
/// all of them.
pub proof fn lemma_set_all_keeps_members_equal(members: Seq<SidePolicy>, new: SidePolicy)
    requires
        forall|a: int, b: int| 0 <= a < members.len() && 0 <= b < members.len() ==> #[trigger] members[a] == #[trigger] members[b],
    ensures
        forall|a: int, b: int| 0 <= a < members.len() && 0 <= b < members.len() ==>
            #[trigger] assigned(members[a], new) == #[trigger] assigned(members[b], new),
{
}

} // verus!
