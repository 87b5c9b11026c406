//! Small helpers shared by the other modules: exact linear interpolation,
//! removal of the first matching element of a vector, and the bookkeeping for
//! a single global picked from a registry.

use vstd::prelude::*;

verus! {

/// The weighted sum behind a linear interpolation, kept exact by leaving the
/// division to the caller: `steps` times the point that lies `step / steps` of
/// the way from `from` to `to`.
pub open spec fn lerp_scaled(from: int, to: int, step: int, steps: int) -> int {
    from * (steps - step) + to * step
}

/// Linear interpolation from `from` (at `step == 0`) to `to` (at
/// `step == steps`), scaled by `steps`.
///
/// `step` usually lies in `0..=steps`, but does not have to: beyond the end
/// the line is simply continued.
pub fn lerp(from: u32, to: u32, step: u64, steps: u64) -> (scaled: i128)
    ensures
        scaled == lerp_scaled(from as int, to as int, step as int, steps as int),
{
    let remaining: i128 = steps as i128 - step as i128;
    assert(-0x1_0000_0000_0000_0000 < remaining < 0x1_0000_0000_0000_0000);
    assert(from as int * remaining as int <= 0x1_0000_0000 * 0x1_0000_0000_0000_0000
        && from as int * remaining as int >= -0x1_0000_0000 * 0x1_0000_0000_0000_0000)
        by (nonlinear_arith)
        requires
            0 <= from < 0x1_0000_0000,
            -0x1_0000_0000_0000_0000 < remaining < 0x1_0000_0000_0000_0000,
    ;
    assert(0 <= to as int * step as int <= 0x1_0000_0000 * 0x1_0000_0000_0000_0000)
        by (nonlinear_arith)
        requires
            0 <= to < 0x1_0000_0000,
            0 <= step < 0x1_0000_0000_0000_0000,
    ;
    from as i128 * remaining + to as i128 * step as i128
}

/// For `step` within `0..=steps` the interpolated value lies between the two
/// ends, whichever of them is the larger.
pub proof fn lemma_lerp_between(from: int, to: int, step: int, steps: int)
    requires
        0 <= step <= steps,
    ensures
        from <= to ==> from * steps <= lerp_scaled(from, to, step, steps) <= to * steps,
        to <= from ==> to * steps <= lerp_scaled(from, to, step, steps) <= from * steps,
        lerp_scaled(from, to, 0, steps) == from * steps,
        lerp_scaled(from, to, steps, steps) == to * steps,
{
    assert(lerp_scaled(from, to, step, steps) == from * steps + (to - from) * step)
        by (nonlinear_arith);
    assert(lerp_scaled(from, to, step, steps) == to * steps - (to - from) * (steps - step))
        by (nonlinear_arith);
    if from <= to {
        assert((to - from) * step >= 0) by (nonlinear_arith)
            requires
                to - from >= 0,
                step >= 0,
        ;
        assert((to - from) * (steps - step) >= 0) by (nonlinear_arith)
            requires
                to - from >= 0,
                steps - step >= 0,
        ;
    }
    if to <= from {
        assert((to - from) * step <= 0) by (nonlinear_arith)
            requires
                to - from <= 0,
                step >= 0,
        ;
        assert((to - from) * (steps - step) <= 0) by (nonlinear_arith)
            requires
                to - from <= 0,
                steps - step >= 0,
        ;
    }
    assert(lerp_scaled(from, to, 0, steps) == from * steps) by (nonlinear_arith);
    assert(lerp_scaled(from, to, steps, steps) == to * steps) by (nonlinear_arith);
}

/// Interpolation moves towards `to`: on a rising line later steps give larger
/// values, on a falling line smaller ones.
pub proof fn lemma_lerp_monotone(from: int, to: int, earlier: int, later: int, steps: int)
    requires
        earlier <= later,
    ensures
        from <= to ==> lerp_scaled(from, to, earlier, steps) <= lerp_scaled(
            from,
            to,
            later,
            steps,
        ),
        to <= from ==> lerp_scaled(from, to, later, steps) <= lerp_scaled(
            from,
            to,
            earlier,
            steps,
        ),
{
    assert(lerp_scaled(from, to, later, steps) - lerp_scaled(from, to, earlier, steps) == (to
        - from) * (later - earlier)) by (nonlinear_arith);
    if from <= to {
        assert((to - from) * (later - earlier) >= 0) by (nonlinear_arith)
            requires
                to - from >= 0,
                later - earlier >= 0,
        ;
    }
    if to <= from {
        assert((to - from) * (later - earlier) <= 0) by (nonlinear_arith)
            requires
                to - from <= 0,
                later - earlier >= 0,
        ;
    }
}

/// Removing the first element that satisfies a condition.
pub trait TakeIfExt: Sized {
    type Item;

    /// The elements, in order.
    spec fn items(&self) -> Seq<Self::Item>;

    /// Removes and returns the first element for which `cond` answers `true`.
    /// The last element takes the place of the removed one; the others keep
    /// theirs. Without such an element nothing changes.
    fn take_if<F: Fn(&Self::Item) -> bool>(&mut self, cond: F) -> (taken: Option<Self::Item>)
        requires
            forall|index: int|
                0 <= index < old(self).items().len() ==> call_requires(
                    cond,
                    (&#[trigger] old(self).items()[index],),
                ),
        ensures
            match taken {
                Some(item) => exists|index: int|
                    {
                        &&& 0 <= index < old(self).items().len()
                        &&& item == #[trigger] old(self).items()[index]
                        &&& call_ensures(cond, (&item,), true)
                        &&& forall|earlier: int|
                            0 <= earlier < index ==> call_ensures(
                                cond,
                                (&#[trigger] old(self).items()[earlier],),
                                false,
                            )
                        &&& final(self).items() == old(self).items().update(
                            index,
                            old(self).items().last(),
                        ).drop_last()
                    },
                None => {
                    &&& final(self).items() == old(self).items()
                    &&& forall|index: int|
                        0 <= index < old(self).items().len() ==> call_ensures(
                            cond,
                            (&#[trigger] old(self).items()[index],),
                            false,
                        )
                },
            },
    ;
}

impl<T> TakeIfExt for Vec<T> {
    type Item = T;

    open spec fn items(&self) -> Seq<T> {
        self@
    }

    fn take_if<F: Fn(&T) -> bool>(&mut self, cond: F) -> (taken: Option<T>) {
        let mut index: usize = 0;
        while index < self.len()
            invariant
                index <= self.len(),
                self@ == old(self)@,
                forall|index: int|
                    0 <= index < old(self).items().len() ==> call_requires(
                        cond,
                        (&#[trigger] old(self).items()[index],),
                    ),
                forall|earlier: int|
                    0 <= earlier < index ==> call_ensures(
                        cond,
                        (&#[trigger] old(self)@[earlier],),
                        false,
                    ),
            decreases self.len() - index,
        {
            assert(self@[index as int] == old(self).items()[index as int]);
            if cond(&self[index]) {
                let item = self.swap_remove(index);
                assert(item == old(self).items()[index as int]);
                return Some(item);
            }
            index += 1;
        }
        None
    }
}

/// Which global of a registry currently fills a slot reserved for one
/// interface: the registry name of the most recently advertised global of that
/// interface, until that very global is withdrawn.
pub struct GlobalSlot {
    interface: String,
    name: Option<u32>,
}

impl GlobalSlot {
    /// The interface this slot is reserved for.
    pub closed spec fn interface(&self) -> Seq<char> {
        self.interface@
    }

    /// The registry name of the global that fills the slot, if any does.
    pub closed spec fn view(&self) -> Option<u32> {
        self.name
    }

    /// An empty slot for globals of `interface`.
    pub fn new(interface: String) -> (slot: GlobalSlot)
        ensures
            slot.interface() == interface@,
            slot@ is None,
    {
        GlobalSlot { interface, name: None }
    }

    /// A global was advertised. Returns whether it is of the slot's interface,
    /// in which case it now fills the slot and is to be bound.
    pub fn global(&mut self, name: u32, interface: &String) -> (bind: bool)
        ensures
            bind == (interface@ == old(self).interface()),
            final(self).interface() == old(self).interface(),
            final(self)@ == if bind {
                Some(name)
            } else {
                old(self)@
            },
    {
        if *interface == self.interface {
            self.name = Some(name);
            true
        } else {
            false
        }
    }

    /// A global was withdrawn. Returns whether it was the one that filled the
    /// slot, which is then empty again.
    pub fn global_remove(&mut self, name: u32) -> (released: bool)
        ensures
            released == (old(self)@ == Some(name)),
            final(self).interface() == old(self).interface(),
            final(self)@ == if released {
                None
            } else {
                old(self)@
            },
    {
        let released = match self.name {
            Some(bound) => bound == name,
            None => false,
        };
        if released {
            self.name = None;
        }
        released
    }

    /// The registry name of the global that fills the slot, if any does.
    pub fn name(&self) -> (name: Option<u32>)
        ensures
            name == self@,
    {
        self.name
    }
}

} // verus!
