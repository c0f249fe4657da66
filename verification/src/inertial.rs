use vstd::prelude::*;
use crate::animated::Animated;
use crate::easing::Easing;
use crate::mix::Mix;
use crate::time::{Duration, Tick};
use crate::transition::clamp_frac;
use crate::transition::clamp_fraction;

verus! {

/// A value that smoothly chases a retargetable goal. Each retarget produces a
/// new inertial value whose ancestor is the previous one, so evaluation can
/// blend from wherever the previous transition currently is — retargeting
/// mid-flight causes no jump. Time must be passed in by the caller and is
/// expected not to decrease between operations.
pub struct Inertial<T: Mix> {
    pub target: T,
    pub start_time: Option<Tick>,
    pub duration: Duration,
    pub easing: Easing,
    pub parent: Option<Box<Inertial<T>>>,
}

impl<T: Mix> Inertial<T> {
    /// Well-formedness down the ancestor chain: easing curves are valid and
    /// transition end times stay within the tick range.
    pub open spec fn wf(&self) -> bool
        decreases self,
    {
        &&& self.easing.wf()
        &&& (match self.start_time {
            Some(st) => st.at + self.duration.ticks <= u64::MAX,
            None => true,
        })
        &&& (match self.parent {
            Some(p) => p.wf(),
            None => true,
        })
    }

    /// When the active transition ends, if one is active.
    pub open spec fn spec_end_time(&self) -> Option<Tick> {
        match self.start_time {
            Some(st) => Some(Tick { at: (st.at + self.duration.ticks) as u64 }),
            None => None,
        }
    }

    /// Whether the value has settled at its target by `now`: no transition is
    /// active, or the active one is strictly past its end.
    pub open spec fn spec_is_finished(&self, now: nat) -> bool {
        match self.start_time {
            Some(st) => now > st.at + self.duration.ticks,
            None => true,
        }
    }

    /// The value at time `now`. Before the start of the active transition
    /// the history answers; after its end the target stands; in between the
    /// recursively evaluated ancestor value is blended toward the target at
    /// the eased progress fraction.
    pub open spec fn spec_get(&self, now: nat) -> T
        decreases self,
    {
        match self.start_time {
            None => self.target,
            Some(st) => if now < st.at {
                match self.parent {
                    Some(p) => p.spec_get(now),
                    None => self.target,
                }
            } else if now > st.at + self.duration.ticks || self.duration.ticks == 0 {
                self.target
            } else {
                match self.parent {
                    Some(p) => p.spec_get(now).spec_mix(
                        self.target,
                        self.easing.spec_ease(
                            clamp_frac((now - st.at) as nat, self.duration.ticks as nat),
                        ),
                    ),
                    None => self.target,
                }
            },
        }
    }

    /// The pruning relation behind retargeting: `self` is `orig` with every
    /// ancestor that had already settled by `now` cut off, and nothing else
    /// changed. The head fields are identical; if `orig` was settled by
    /// `now`, the whole history is dropped, and otherwise the ancestor is,
    /// recursively, the pruned ancestor of `orig`. This is what bounds the
    /// chain's growth: only ancestors still in flight at the retarget time
    /// survive.
    pub open spec fn spec_is_cleaned_of(self, orig: Inertial<T>, now: nat) -> bool
        decreases orig,
    {
        &&& self.target == orig.target
        &&& self.start_time == orig.start_time
        &&& self.duration == orig.duration
        &&& self.easing == orig.easing
        &&& if orig.spec_is_finished(now) {
            self.parent matches None
        } else {
            match (self.parent, orig.parent) {
                (Option::None, Option::None) => true,
                (Option::Some(c), Option::Some(p)) => c.spec_is_cleaned_of(*p, now),
                _ => false,
            }
        }
    }

    /// The data-model invariant on the history: start times never decrease
    /// from root to leaf along the ancestor chain. Retargeting keeps it as
    /// long as the times passed to successive calls do not decrease, which is
    /// the documented caller contract.
    pub open spec fn spec_chain_ordered(&self) -> bool
        decreases self,
    {
        match self.parent {
            Some(p) => p.spec_chain_ordered() && (match (p.start_time, self.start_time) {
                (Option::Some(ps), Option::Some(st)) => ps.at <= st.at,
                _ => true,
            }),
            None => true,
        }
    }

    /// A settled inertial value: it answers `value` at every time.
    pub fn new(value: T) -> (r: Inertial<T>)
        ensures
            r.wf(),
            r.target == value,
            r.start_time matches None,
            r.spec_chain_ordered(),
            forall|now: nat| r.spec_get(now) == value,
    {
        Inertial {
            target: value,
            start_time: None,
            duration: Duration::zero(),
            easing: Easing::Jump,
            parent: None,
        }
    }

    /// The goal currently chased.
    pub fn target(&self) -> (r: T)
        ensures
            r == self.target,
    {
        self.target
    }

    /// When the active transition ends, if one is active.
    pub fn end_time(&self) -> (r: Option<Tick>)
        requires
            self.wf(),
        ensures
            r == self.spec_end_time(),
    {
        match &self.start_time {
            Some(st) => Some(Tick { at: st.at + self.duration.ticks }),
            None => None,
        }
    }

    /// Whether the value has settled at its target by `now`.
    pub fn is_finished(&self, now: Tick) -> (r: bool)
        requires
            self.wf(),
        ensures
            r == self.spec_is_finished(now.at as nat),
    {
        match &self.start_time {
            Some(st) => now.at > st.at + self.duration.ticks,
            None => true,
        }
    }

    /// The value at time `now`.
    pub fn get(&self, now: Tick) -> (r: T)
        requires
            self.wf(),
        ensures
            r == self.spec_get(now.at as nat),
        decreases *self,
    {
        match &self.start_time {
            None => self.target,
            Some(st) => {
                if now.at < st.at {
                    match &self.parent {
                        Some(p) => p.get(now),
                        None => self.target,
                    }
                } else if now.at > st.at + self.duration.ticks || self.duration.ticks == 0 {
                    self.target
                } else {
                    match &self.parent {
                        Some(p) => {
                            let base = p.get(now);
                            let elapsed = now.since(st);
                            let t = clamp_fraction(elapsed, self.duration);
                            let e = self.easing.ease(t);
                            base.mix(self.target, e)
                        },
                        None => self.target,
                    }
                }
            },
        }
    }

    /// Drop every ancestor that had already settled by `now`: evaluation at
    /// `now` or later never visits those links again, so the pruned chain
    /// answers exactly as the original at every such time.
    fn clean_up_at(self, now: Tick) -> (r: Inertial<T>)
        requires
            self.wf(),
        ensures
            r.wf(),
            r.spec_is_cleaned_of(self, now.at as nat),
            forall|x: nat| x >= now.at ==> r.spec_get(x) == self.spec_get(x),
        decreases self,
    {
        let ghost orig = self;
        let is_fin = self.is_finished(now);
        let parent: Option<Box<Inertial<T>>> = if is_fin {
            None
        } else {
            match self.parent {
                Some(p) => Some(Box::new((*p).clean_up_at(now))),
                None => None,
            }
        };
        let r = Inertial {
            target: self.target,
            start_time: self.start_time,
            duration: self.duration,
            easing: self.easing,
            parent,
        };
        proof {
            if !orig.spec_is_finished(now.at as nat) {
                match orig.parent {
                    Some(p) => {
                        assert(r.parent matches Some(c) && c.spec_is_cleaned_of(*p, now.at as nat));
                    },
                    None => {
                        assert(r.parent matches None);
                    },
                }
            }
            assert(r.spec_is_cleaned_of(orig, now.at as nat));
            assert forall|x: nat| x >= now.at implies r.spec_get(x) == orig.spec_get(x) by {
                lemma_cleaned_preserves_get(r, orig, now.at as nat, x);
            }
        }
        r
    }

    /// Retarget toward `target`, easing there over `duration` under the given
    /// curve, starting at `now`. A retarget to the current target is a no-op.
    /// Under a curve that starts at zero and a positive duration, the value
    /// at the moment of retargeting is unchanged: the new transition departs
    /// from wherever the old state was, with no jump.
    pub fn ease_to(self, target: T, now: Tick, duration: Duration, easing: Easing) -> (r: Inertial<
        T,
    >)
        requires
            self.wf(),
            self.spec_chain_ordered(),
            self.start_time matches Some(st) ==> st.at <= now.at,
            easing.wf(),
            now.at + duration.ticks <= u64::MAX,
        ensures
            r.wf(),
            r.spec_chain_ordered(),
            r.target == target,
            self.target == target ==> r == self,
            self.target != target ==> r.start_time == Some(now),
            self.target != target ==> r.duration == duration,
            self.target != target ==> r.easing == easing,
            self.target != target ==> (r.parent matches Some(p) && p.spec_is_cleaned_of(
                self,
                now.at as nat,
            )),
            (1 <= duration.ticks && easing.starts_at_zero()) ==> r.spec_get(now.at as nat)
                == self.spec_get(now.at as nat),
    {
        let ghost orig = self;
        if self.target.eq_value(&target) {
            self
        } else {
            let parent = self.clean_up_at(now);
            let r = Inertial {
                target,
                start_time: Some(now),
                duration,
                easing,
                parent: Some(Box::new(parent)),
            };
            proof {
                lemma_cleaned_preserves_order(*r.parent.unwrap(), orig, now.at as nat);
                if 1 <= duration.ticks && easing.starts_at_zero() {
                    let t0 = clamp_frac(0, duration.ticks as nat);
                    assert(t0.wf() && t0.is_zero());
                    easing.lemma_ease_zero(t0);
                    r.parent.unwrap().spec_get(now.at as nat).lemma_mix_zero(
                        target,
                        easing.spec_ease(t0),
                    );
                }
            }
            r
        }
    }

    /// Retarget toward `target` under the default curve. A retarget to the
    /// current target is a no-op, and a positive duration preserves the value
    /// at the moment of retargeting.
    pub fn go_to(self, target: T, now: Tick, duration: Duration) -> (r: Inertial<T>)
        requires
            self.wf(),
            self.spec_chain_ordered(),
            self.start_time matches Some(st) ==> st.at <= now.at,
            now.at + duration.ticks <= u64::MAX,
        ensures
            r.wf(),
            r.spec_chain_ordered(),
            r.target == target,
            self.target == target ==> r == self,
            self.target != target ==> r.start_time == Some(now),
            self.target != target ==> r.duration == duration,
            self.target != target ==> r.easing == Easing::QuadraticInOut,
            self.target != target ==> (r.parent matches Some(p) && p.spec_is_cleaned_of(
                self,
                now.at as nat,
            )),
            1 <= duration.ticks ==> r.spec_get(now.at as nat) == self.spec_get(now.at as nat),
    {
        self.ease_to(target, now, duration, Easing::QuadraticInOut)
    }
}

/// A pruned chain answers exactly as the original at the pruning time and
/// at every later time: the dropped ancestors were settled by then, so
/// evaluation never visits them again.
pub proof fn lemma_cleaned_preserves_get<T: Mix>(c: Inertial<T>, orig: Inertial<T>, now: nat, x: nat)
    requires
        c.spec_is_cleaned_of(orig, now),
        x >= now,
    ensures
        c.spec_get(x) == orig.spec_get(x),
    decreases orig,
{
    match orig.start_time {
        None => {
            assert(c.spec_get(x) == c.target);
            assert(orig.spec_get(x) == orig.target);
        },
        Some(st) => {
            if orig.spec_is_finished(now) {
                assert(x > st.at + orig.duration.ticks);
                assert(c.spec_get(x) == c.target);
                assert(orig.spec_get(x) == orig.target);
            } else {
                match (c.parent, orig.parent) {
                    (Option::Some(cc), Option::Some(p)) => {
                        lemma_cleaned_preserves_get(*cc, *p, now, x);
                        if x < st.at {
                            assert(c.spec_get(x) == orig.spec_get(x));
                        } else if x > st.at + orig.duration.ticks || orig.duration.ticks == 0 {
                            assert(c.spec_get(x) == c.target);
                            assert(orig.spec_get(x) == orig.target);
                        } else {
                            assert(c.spec_get(x) == orig.spec_get(x));
                        }
                    },
                    (Option::None, Option::None) => {},
                    _ => {
                        assert(false);
                    },
                }
            }
        },
    }
}

/// Pruning keeps the chain's start-time ordering: dropped links cannot
/// disorder what remains, and every kept pair is a pair of the original.
pub proof fn lemma_cleaned_preserves_order<T: Mix>(c: Inertial<T>, orig: Inertial<T>, now: nat)
    requires
        c.spec_is_cleaned_of(orig, now),
        orig.spec_chain_ordered(),
    ensures
        c.spec_chain_ordered(),
    decreases orig,
{
    if !orig.spec_is_finished(now) {
        match (c.parent, orig.parent) {
            (Option::Some(cc), Option::Some(p)) => {
                lemma_cleaned_preserves_order(*cc, *p, now);
            },
            _ => {},
        }
    }
}

impl<T: Mix> Animated<T> for Inertial<T> {
    open spec fn wf(&self) -> bool {
        Inertial::wf(self)
    }

    open spec fn ready(&self, time: nat) -> bool {
        true
    }

    open spec fn spec_value(&self, time: nat) -> T {
        self.spec_get(time)
    }

    open spec fn spec_finished(&self, time: nat) -> bool {
        self.spec_is_finished(time)
    }

    fn get(&self, time: Tick) -> (r: T) {
        Inertial::get(self, time)
    }

    fn is_finished(&self, time: Tick) -> (r: bool) {
        Inertial::is_finished(self, time)
    }
}

} // verus!
