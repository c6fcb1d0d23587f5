//! LED strips: a color buffer, the effect bindings that paint it, and an
//! optional bound transport connection.

use crate::color::Color;
use vstd::prelude::*;

verus! {

/// One strip of addressable LEDs.  `effects` lists the bindings in
/// insertion order — the order they are evaluated in each tick, so later
/// bindings overwrite earlier ones where their intervals overlap (that
/// layering is intentional).  Each binding maps an effect identifier to
/// an inclusive LED index interval.
pub struct LedStrip {
    pub colors: Vec<Color>,
    pub effects: Vec<(i32, (usize, usize))>,
    pub connection_id: Option<i32>,
}

impl Default for LedStrip {
    /// A strip with no LEDs, no bindings and no bound transport.
    fn default() -> (r: LedStrip)
        ensures
            r.colors@.len() == 0,
            r.effects@.len() == 0,
            r.connection_id is None,
            r.wf(),
    {
        LedStrip { colors: Vec::new(), effects: Vec::new(), connection_id: None }
    }
}

impl LedStrip {
    /// Every binding's inclusive interval lies inside the color buffer.
    pub open spec fn wf(&self) -> bool {
        forall|b: int|
            0 <= b < self.effects@.len() ==> ((#[trigger] self.effects@[b]).1.0
                <= self.effects@[b].1.1 && self.effects@[b].1.1 < self.colors@.len())
    }

    /// Resizes the color buffer to `count` LEDs: existing colors keep
    /// their values, fresh LEDs start switched off.  Refused — `false`,
    /// nothing changed — exactly when an existing binding would no
    /// longer fit.
    pub fn set_led_count(&mut self, count: usize) -> (ok: bool)
        requires
            old(self).wf(),
        ensures
            final(self).wf(),
            ok <==> (forall|b: int|
                0 <= b < old(self).effects@.len() ==> (#[trigger] old(self).effects@[b]).1.1
                    < count),
            final(self).effects@ == old(self).effects@,
            final(self).connection_id == old(self).connection_id,
            ok ==> final(self).colors@.len() == count,
            ok ==> forall|m: int|
                0 <= m < count && m < old(self).colors@.len() ==> final(self).colors@[m] == old(
                    self,
                ).colors@[m],
            ok ==> forall|m: int|
                old(self).colors@.len() <= m < count ==> final(self).colors@[m] == (Color {
                    r: 0,
                    g: 0,
                    b: 0,
                }),
            !ok ==> final(self).colors@ == old(self).colors@,
    {
        let mut b: usize = 0;
        while b < self.effects.len()
            invariant
                b <= self.effects@.len(),
                old(self).wf(),
                self.effects@ == old(self).effects@,
                self.colors@ == old(self).colors@,
                self.connection_id == old(self).connection_id,
                forall|t: int| 0 <= t < b ==> (#[trigger] self.effects@[t]).1.1 < count,
            decreases self.effects@.len() - b,
        {
            if self.effects[b].1.1 >= count {
                return false;
            }
            b = b + 1;
        }
        if count <= self.colors.len() {
            self.colors.truncate(count);
        } else {
            let ghost oldc = self.colors@;
            let mut m: usize = self.colors.len();
            while m < count
                invariant
                    oldc.len() <= m <= count,
                    self.colors@.len() == m,
                    self.effects@ == old(self).effects@,
                    self.connection_id == old(self).connection_id,
                    forall|t: int| 0 <= t < oldc.len() ==> self.colors@[t] == oldc[t],
                    forall|t: int|
                        oldc.len() <= t < m ==> self.colors@[t] == (Color { r: 0, g: 0, b: 0 }),
                    oldc == old(self).colors@,
                decreases count - m,
            {
                self.colors.push(Color { r: 0, g: 0, b: 0 });
                m = m + 1;
            }
        }
        true
    }

    /// Appends a binding of effect `effect_id` to the inclusive interval
    /// `[lo, hi]`, after the existing bindings.  Refused — `false`,
    /// nothing changed — exactly when the interval is reversed or sticks
    /// out of the color buffer.
    pub fn add_effect(&mut self, effect_id: i32, lo: usize, hi: usize) -> (ok: bool)
        requires
            old(self).wf(),
        ensures
            final(self).wf(),
            ok <==> (lo <= hi && hi < old(self).colors@.len()),
            final(self).colors@ == old(self).colors@,
            final(self).connection_id == old(self).connection_id,
            ok ==> final(self).effects@ == old(self).effects@.push((effect_id, (lo, hi))),
            !ok ==> final(self).effects@ == old(self).effects@,
    {
        if lo <= hi && hi < self.colors.len() {
            self.effects.push((effect_id, (lo, hi)));
            true
        } else {
            false
        }
    }
}

} // verus!
