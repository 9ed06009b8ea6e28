//! A room: a named, keyed collection of smart devices.

use vstd::prelude::*;
use crate::decimal::{append_decimal, decimal};
use crate::keyed::{KeyedVec, assoc_map, keys_sorted, lemma_assoc_len, lemma_sorted_assoc_canonical};
use crate::report::Report;
use crate::smart_device::{SmartDevice, spec_device_report};

verus! {

/// A room. Devices are bound to owner-assigned string keys, distinct
/// from the devices' own display names; a key is bound at most once.
#[derive(Clone, Debug)]
pub struct Room {
    name: String,
    devices: KeyedVec<SmartDevice>,
}

/// The report lines of the device entries, one line per device, in
/// entry order.
pub open spec fn spec_device_lines(entries: Seq<(Seq<char>, SmartDevice)>) -> Seq<char>
    decreases entries.len(),
{
    if entries.len() == 0 {
        Seq::empty()
    } else {
        spec_device_lines(entries.drop_last()) + "  ["@ + entries.last().0 + "] "@
            + spec_device_report(entries.last().1) + "\n"@
    }
}

/// The report of a room: a header with its name and device count, then
/// one line per device.
pub open spec fn spec_room_report(name: Seq<char>, entries: Seq<(Seq<char>, SmartDevice)>) -> Seq<
    char,
> {
    "Room '"@ + name + "' ("@ + decimal(entries.len()) + " device(s)):\n"@ + spec_device_lines(
        entries,
    )
}

impl Room {
    /// The room's display name.
    pub closed spec fn spec_name(&self) -> Seq<char> {
        self.name@
    }

    /// The device entries, in storage order: ascending by key.
    pub closed spec fn entries(&self) -> Seq<(Seq<char>, SmartDevice)> {
        self.devices.entries()
    }

    /// The room's devices, as a map from key to device.
    pub open spec fn devices(&self) -> Map<Seq<char>, SmartDevice> {
        assoc_map(self.entries())
    }

    /// Well-formed: the entry keys are strictly ascending, hence unique.
    pub open spec fn wf(&self) -> bool {
        keys_sorted(self.entries())
    }

    /// Creates an empty room.
    pub fn new(name: &str) -> (r: Room)
        ensures
            r.wf(),
            r.spec_name() == name@,
            r.entries() == Seq::<(Seq<char>, SmartDevice)>::empty(),
            r.devices() == Map::<Seq<char>, SmartDevice>::empty(),
    {
        Room { name: name.to_owned(), devices: KeyedVec::new() }
    }

    /// The room's display name.
    pub fn name(&self) -> (r: &str)
        ensures
            r@ == self.spec_name(),
    {
        self.name.as_str()
    }

    /// The number of devices in the room.
    pub fn device_count(&self) -> (n: usize)
        ensures
            n == self.entries().len(),
    {
        self.devices.len()
    }

    /// Binds a key to a device: inserts a fresh key, silently
    /// overwrites the device under a present one (last write wins).
    /// The count grows only for a fresh key.
    pub fn add_device(&mut self, name: &str, device: SmartDevice)
        requires
            old(self).wf(),
        ensures
            final(self).wf(),
            final(self).spec_name() == old(self).spec_name(),
            final(self).devices() == old(self).devices().insert(name@, device),
            final(self).entries().len() == old(self).entries().len()
                + (if old(self).devices().contains_key(name@) { 0int } else { 1int }),
    {
        self.devices.put(name, device);
    }

    /// Removes and returns the device under a key, or `None` when the
    /// key is absent, in which case the room is untouched.
    pub fn remove_device(&mut self, name: &str) -> (r: Option<SmartDevice>)
        requires
            old(self).wf(),
        ensures
            final(self).wf(),
            final(self).spec_name() == old(self).spec_name(),
            (r is Some) <==> old(self).devices().contains_key(name@),
            r is Some ==> r.unwrap() == old(self).devices()[name@]
                && final(self).devices() == old(self).devices().remove(name@)
                && final(self).entries().len() == old(self).entries().len() - 1,
            r is None ==> *final(self) == *old(self),
    {
        self.devices.remove(name)
    }

    /// A shared reference to the device under a key, or `None`.
    pub fn get_device(&self, name: &str) -> (r: Option<&SmartDevice>)
        requires
            self.wf(),
        ensures
            (r is Some) <==> self.devices().contains_key(name@),
            r is Some ==> *r.unwrap() == self.devices()[name@],
    {
        self.devices.get(name)
    }

    /// A mutable reference to the device under a key, or `None`. The
    /// keys stay as they are; the key ends up bound to whatever the
    /// caller leaves behind the reference.
    pub fn get_device_mut(&mut self, name: &str) -> (r: Option<&mut SmartDevice>)
        requires
            old(self).wf(),
        ensures
            (r is Some) <==> old(self).devices().contains_key(name@),
            r is None ==> *final(self) == *old(self),
            r is Some ==> *r.unwrap() == old(self).devices()[name@]
                && final(self).wf()
                && final(self).spec_name() == old(self).spec_name()
                && final(self).entries().len() == old(self).entries().len()
                && final(self).devices() == old(self).devices().insert(name@, *final(r.unwrap())),
    {
        self.devices.get_mut(name)
    }
}

impl Report for Room {
    open spec fn spec_report(&self) -> Seq<char> {
        spec_room_report(self.spec_name(), self.entries())
    }

    fn report(&self) -> (r: String) {
        let mut s = String::from_str("Room '");
        s.append(self.name.as_str());
        s.append("' (");
        let n = self.devices.len();
        append_decimal(&mut s, n as u64);
        s.append(" device(s)):\n");
        let ghost hdr = s@;
        proof {
            assert(hdr =~= "Room '"@ + self.spec_name() + "' ("@ + decimal(
                self.entries().len(),
            ) + " device(s)):\n"@);
            assert(self.entries().take(0) =~= Seq::<(Seq<char>, SmartDevice)>::empty());
            assert(s@ =~= hdr + spec_device_lines(self.entries().take(0)));
        }
        let mut i: usize = 0;
        while i < n
            invariant
                i <= n,
                n == self.entries().len(),
                s@ == hdr + spec_device_lines(self.entries().take(i as int)),
                hdr == "Room '"@ + self.spec_name() + "' ("@ + decimal(self.entries().len())
                    + " device(s)):\n"@,
            decreases n - i,
        {
            s.append("  [");
            s.append(self.devices.key_at(i).as_str());
            s.append("] ");
            let line = self.devices.value_at(i).report();
            s.append(line.as_str());
            s.append("\n");
            proof {
                let e = self.entries();
                assert(e.take(i as int + 1).drop_last() =~= e.take(i as int));
                assert(e.take(i as int + 1).last() == e[i as int]);
                assert(s@ =~= hdr + spec_device_lines(e.take(i as int + 1)));
            }
            i = i + 1;
        }
        proof {
            assert(self.entries().take(n as int) =~= self.entries());
            assert(s@ =~= spec_room_report(self.spec_name(), self.entries()));
        }
        s
    }
}

/// The device count is the size of the device map: each key counts
/// once.
pub proof fn lemma_room_count_is_map_size(r: &Room)
    requires
        r.wf(),
    ensures
        r.devices().dom().finite(),
        r.devices().dom().len() == r.entries().len(),
{
    lemma_assoc_len(r.entries());
}

/// Reports are a function of the name and the device map alone: rooms
/// with the same name and the same devices render the same report,
/// whatever order their devices were added in.
pub proof fn lemma_room_report_deterministic(a: &Room, b: &Room)
    requires
        a.wf(),
        b.wf(),
        a.spec_name() == b.spec_name(),
        a.devices() == b.devices(),
    ensures
        a.spec_report() == b.spec_report(),
{
    lemma_sorted_assoc_canonical(a.entries(), b.entries());
}

/// Binding a key twice leaves the last device bound, and leaves the
/// count where one binding alone would have left it.
pub proof fn lemma_overwrite_last_wins<V>(m: Map<Seq<char>, V>, k: Seq<char>, d1: V, d2: V)
    ensures
        m.insert(k, d1).insert(k, d2) == m.insert(k, d2),
        m.insert(k, d2)[k] == d2,
        m.insert(k, d1).insert(k, d2).dom().len() == m.insert(k, d1).dom().len(),
{
    assert(m.insert(k, d1).insert(k, d2) =~= m.insert(k, d2));
    assert(m.insert(k, d1).insert(k, d2).dom() =~= m.insert(k, d1).dom());
}

/// Removing a key removes exactly it: the key is gone, removing it
/// again changes nothing, and a present key's removal shrinks the
/// domain by one.
pub proof fn lemma_removal<V>(m: Map<Seq<char>, V>, k: Seq<char>)
    ensures
        !m.remove(k).contains_key(k),
        m.remove(k).remove(k) == m.remove(k),
        m.dom().finite() && m.contains_key(k) ==> m.remove(k).dom().len() == m.dom().len() - 1,
{
    assert(m.remove(k).remove(k) =~= m.remove(k));
    if m.dom().finite() && m.contains_key(k) {
        assert(m.remove(k).dom() =~= m.dom().remove(k));
    }
}

} // verus!
