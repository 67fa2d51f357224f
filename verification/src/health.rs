//! Hit points, and the countdowns that reuse them as lifetimes.

use vstd::prelude::*;
use crate::units::{clamp_spec, div_trunc, saturate, saturate_spec, trunc_div, Hp, Ratio, SCALE};

verus! {

/// A value that lives between zero and a maximum.
#[derive(Clone, Copy, Debug, PartialEq, Eq, Structural)]
pub struct Health {
    pub value: Hp,
    pub max: Hp,
}

/// A countdown measured the way health is: it starts full and expires at zero.
pub type Lifetime = Health;

impl Health {
    /// What changing by `delta` gives: the sum limited to the range from zero to the maximum.
    pub open spec fn changed(self, delta: int) -> Health {
        Health { value: clamp_spec(self.value + delta, 0, self.max as int) as i64, max: self.max }
    }

    pub open spec fn dead(self) -> bool {
        self.value <= 0
    }

    /// The value lies between zero and the maximum.
    pub open spec fn in_bounds(self) -> bool {
        0 <= self.value <= self.max
    }

    pub open spec fn new_spec(max: Hp) -> Health {
        Health { value: max, max }
    }

    /// A full value of `max`.
    pub fn new(max: Hp) -> (h: Health)
        ensures
            h == Health::new_spec(max),
    {
        Health { value: max, max }
    }

    /// Changes the value by `delta`, keeping it between zero and the maximum.
    pub fn change(&mut self, delta: Hp)
        ensures
            *final(self) == old(self).changed(delta as int),
    {
        let sum: i128 = self.value as i128 + delta as i128;
        let v: i64 = if sum > self.max as i128 {
            if self.max < 0 { 0 } else { self.max }
        } else if sum < 0 {
            0
        } else {
            sum as i64
        };
        self.value = v;
    }

    /// Takes `amount` off, stopping at zero.
    pub fn damage(&mut self, amount: Hp)
        ensures
            *final(self) == old(self).changed(-amount),
    {
        let sum: i128 = self.value as i128 - amount as i128;
        let v: i64 = if sum > self.max as i128 {
            if self.max < 0 { 0 } else { self.max }
        } else if sum < 0 {
            0
        } else {
            sum as i64
        };
        self.value = v;
    }

    /// Adds `amount`, stopping at the maximum.
    pub fn heal(&mut self, amount: Hp)
        ensures
            *final(self) == old(self).changed(amount as int),
    {
        self.change(amount);
    }

    /// Whether nothing is left.
    pub fn is_dead(&self) -> (r: bool)
        ensures
            r == self.dead(),
    {
        self.value <= 0
    }

    /// The share of the maximum that is left, in thousandths.
    pub fn ratio(&self) -> (r: Ratio)
        requires
            self.max > 0,
        ensures
            r == saturate_spec(trunc_div(self.value * SCALE, self.max as int)),
            self.in_bounds() ==> 0 <= r <= SCALE,
    {
        let n: i128 = self.value as i128 * SCALE as i128;
        proof {
            if self.in_bounds() {
                assert(0 <= self.value * SCALE <= self.max * SCALE) by (nonlinear_arith)
                    requires
                        0 <= self.value <= self.max,
                ;
                assert(self.value * SCALE / (self.max as int) <= SCALE) by (nonlinear_arith)
                    requires
                        0 <= self.value <= self.max,
                        self.max > 0,
                ;
            }
        }
        saturate(div_trunc(n, self.max as i128))
    }
}

/// Damage never takes a value that lies in bounds out of them.
pub proof fn lemma_change_keeps_bounds(h: Health, delta: int)
    requires
        h.max >= 0,
    ensures
        h.changed(delta).in_bounds(),
        h.changed(delta).max == h.max,
{
}

/// Healing by at least what was lost refills to the maximum.
pub proof fn lemma_heal_refills(h: Health, amount: int)
    requires
        h.in_bounds(),
        amount >= h.max - h.value,
    ensures
        h.changed(amount).value == h.max,
{
}

/// A value is dead after damage that reaches it.
pub proof fn lemma_damage_kills(h: Health, amount: int)
    requires
        amount >= h.value,
    ensures
        h.changed(-amount).dead(),
{
}

} // verus!
