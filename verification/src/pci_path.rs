//! Guest PCI paths: a list of slots, one per bus level.

use vstd::prelude::*;
use vstd::string::*;

use crate::text::{hex2, push_hex2};

verus! {

/// A PCI slot (device number) on one bus.
#[derive(Clone, Copy, Debug, Default, PartialEq, Eq, Hash)]
pub struct PciSlot(pub u8);

/// The path to a device in the guest: the slot taken on each bus, from the
/// root bus down.
#[derive(Debug, PartialEq, Eq, Hash)]
pub struct PciPath {
    pub slots: Vec<PciSlot>,
}

/// The slot numbers of a path.
pub open spec fn slot_values(slots: Seq<PciSlot>) -> Seq<u8> {
    slots.map_values(|s: PciSlot| s.0)
}

impl View for PciPath {
    type V = Seq<u8>;

    open spec fn view(&self) -> Seq<u8> {
        slot_values(self.slots@)
    }
}

/// The textual form of a path: each slot as two lower-case hexadecimal
/// digits, joined by `/` (for example `02/1f`).
pub open spec fn path_string(s: Seq<u8>) -> Seq<char>
    decreases s.len(),
{
    if s.len() == 0 {
        Seq::empty()
    } else if s.len() == 1 {
        hex2(s[0])
    } else {
        path_string(s.drop_last()) + seq!['/'] + hex2(s.last())
    }
}

impl Clone for PciPath {
    fn clone(&self) -> (r: Self)
        ensures
            r@ == self@,
    {
        let mut slots: Vec<PciSlot> = Vec::new();
        let n = self.slots.len();
        for i in 0..n
            invariant
                n == self.slots.len(),
                slots@.len() == i,
                forall|j: int| 0 <= j < i ==> slots@[j] == self.slots@[j],
        {
            slots.push(self.slots[i]);
        }
        let r = PciPath { slots };
        assert(r@ =~= self@);
        r
    }
}

impl Default for PciPath {
    fn default() -> (r: Self)
        ensures
            r@ == Seq::<u8>::empty(),
    {
        let r = PciPath { slots: Vec::new() };
        assert(r@ =~= Seq::<u8>::empty());
        r
    }
}

impl PciPath {
    /// A path made of a single slot on the root bus.
    pub fn from_slot(slot: u8) -> (r: Self)
        ensures
            r@ == seq![slot],
    {
        let mut slots: Vec<PciSlot> = Vec::new();
        slots.push(PciSlot(slot));
        let r = PciPath { slots };
        assert(r@ =~= seq![slot]);
        r
    }

    /// The textual form of the path, as used for keys on the root bus.
    pub fn convert_to_string(&self) -> (r: String)
        ensures
            r@ == path_string(self@),
    {
        let mut s = String::new();
        let n = self.slots.len();
        for i in 0..n
            invariant
                n == self.slots.len(),
                s@ == path_string(self@.take(i as int)),
        {
            proof {
                reveal_strlit("/");
            }
            if i > 0 {
                s.append("/");
            }
            push_hex2(&mut s, self.slots[i].0);
            assert(self@.take(i + 1).drop_last() =~= self@.take(i as int));
        }
        assert(self@.take(n as int) =~= self@);
        s
    }
}

} // verus!
