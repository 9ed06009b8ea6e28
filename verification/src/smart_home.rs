//! The smart home: a named, keyed collection of rooms, with a composed
//! two-level device lookup.

use vstd::prelude::*;
use crate::decimal::{append_decimal, decimal};
use crate::error::SmartHomeError;
use crate::keyed::{
    KeyedVec, assoc_map, keys_sorted, lemma_assoc_len, lemma_sorted_assoc_canonical,
};
use crate::report::Report;
use crate::room::Room;
use crate::smart_device::SmartDevice;

verus! {

/// A smart home. Rooms are bound to owner-assigned string keys; the
/// home's own name is display metadata, not a key.
#[derive(Clone, Debug)]
pub struct SmartHome {
    name: String,
    rooms: KeyedVec<Room>,
}

/// The separator line of a home report.
pub open spec fn spec_sep() -> Seq<char> {
    "=================================================="@
}

/// The separator line, fifty `=` characters.
fn sep() -> (r: &'static str)
    ensures
        r@ == spec_sep(),
{
    "=================================================="
}

/// The report sections of the room entries: for each room, in entry
/// order, a header naming its key and then the room's own report.
pub open spec fn spec_room_sections(entries: Seq<(Seq<char>, Room)>) -> Seq<char>
    decreases entries.len(),
{
    if entries.len() == 0 {
        Seq::empty()
    } else {
        spec_room_sections(entries.drop_last()) + "\n[Room: "@ + entries.last().0 + "]\n"@
            + entries.last().1.spec_report()
    }
}

/// The report of a home: a banner with its name and room count, each
/// room's section in ascending key order, and a closing banner.
pub open spec fn spec_home_report(name: Seq<char>, entries: Seq<(Seq<char>, Room)>) -> Seq<char> {
    "\n"@ + spec_sep() + "\nSmart Home '"@ + name + "' ("@ + decimal(entries.len())
        + " room(s)):\n"@ + spec_sep() + "\n"@ + spec_room_sections(entries) + "\n"@ + spec_sep()
        + "\n"@
}

impl SmartHome {
    /// The home's display name.
    pub closed spec fn spec_name(&self) -> Seq<char> {
        self.name@
    }

    /// The room entries, in storage order: ascending by key.
    pub closed spec fn entries(&self) -> Seq<(Seq<char>, Room)> {
        self.rooms.entries()
    }

    /// The home's rooms, as a map from key to room.
    pub open spec fn rooms(&self) -> Map<Seq<char>, Room> {
        assoc_map(self.entries())
    }

    /// Every stored room is well-formed.
    pub open spec fn rooms_wf(&self) -> bool {
        forall|k: Seq<char>| self.rooms().contains_key(k) ==> (#[trigger] self.rooms()[k]).wf()
    }

    /// Well-formed: the entry keys are strictly ascending, and the
    /// rooms are themselves well-formed.
    pub open spec fn wf(&self) -> bool {
        keys_sorted(self.entries()) && self.rooms_wf()
    }

    /// Creates an empty home.
    pub fn new(name: &str) -> (r: SmartHome)
        ensures
            r.wf(),
            r.spec_name() == name@,
            r.entries() == Seq::<(Seq<char>, Room)>::empty(),
            r.rooms() == Map::<Seq<char>, Room>::empty(),
    {
        SmartHome { name: name.to_owned(), rooms: KeyedVec::new() }
    }

    /// The home's display name.
    pub fn name(&self) -> (r: &str)
        ensures
            r@ == self.spec_name(),
    {
        self.name.as_str()
    }

    /// The number of rooms.
    pub fn room_count(&self) -> (n: usize)
        ensures
            n == self.entries().len(),
    {
        self.rooms.len()
    }

    /// Binds a key to a room: inserts a fresh key, silently overwrites
    /// the room under a present one (last write wins).
    pub fn add_room(&mut self, name: &str, room: Room)
        requires
            old(self).wf(),
            room.wf(),
        ensures
            final(self).wf(),
            final(self).spec_name() == old(self).spec_name(),
            final(self).rooms() == old(self).rooms().insert(name@, room),
            final(self).entries().len() == old(self).entries().len()
                + (if old(self).rooms().contains_key(name@) { 0int } else { 1int }),
    {
        self.rooms.put(name, room);
        proof {
            assert forall|k: Seq<char>|
                self.rooms().contains_key(k) implies (#[trigger] self.rooms()[k]).wf() by {
                if k != name@ {
                    assert(old(self).rooms().contains_key(k));
                    assert(old(self).rooms()[k].wf());
                }
            }
        }
    }

    /// Removes and returns the room under a key, or `None` when the key
    /// is absent, in which case the home is untouched.
    pub fn remove_room(&mut self, name: &str) -> (r: Option<Room>)
        requires
            old(self).wf(),
        ensures
            final(self).wf(),
            final(self).spec_name() == old(self).spec_name(),
            (r is Some) <==> old(self).rooms().contains_key(name@),
            r is Some ==> r.unwrap() == old(self).rooms()[name@]
                && final(self).rooms() == old(self).rooms().remove(name@)
                && final(self).entries().len() == old(self).entries().len() - 1,
            r is None ==> *final(self) == *old(self),
    {
        let r = self.rooms.remove(name);
        proof {
            assert forall|k: Seq<char>|
                self.rooms().contains_key(k) implies (#[trigger] self.rooms()[k]).wf() by {
                assert(old(self).rooms().contains_key(k));
                assert(old(self).rooms()[k].wf());
            }
        }
        r
    }

    /// A shared reference to the room under a key, or `None`.
    pub fn get_room(&self, name: &str) -> (r: Option<&Room>)
        requires
            self.wf(),
        ensures
            (r is Some) <==> self.rooms().contains_key(name@),
            r is Some ==> *r.unwrap() == self.rooms()[name@],
    {
        self.rooms.get(name)
    }

    /// A mutable reference to the room under a key, or `None`. The keys
    /// stay as they are; the home is well-formed again provided the
    /// caller leaves a well-formed room behind the reference, which
    /// every room operation does (see
    /// [`lemma_home_wf_after_room_update`]).
    pub fn get_room_mut(&mut self, name: &str) -> (r: Option<&mut Room>)
        requires
            old(self).wf(),
        ensures
            (r is Some) <==> old(self).rooms().contains_key(name@),
            r is None ==> *final(self) == *old(self),
            r is Some ==> *r.unwrap() == old(self).rooms()[name@]
                && final(self).spec_name() == old(self).spec_name()
                && final(self).entries().len() == old(self).entries().len()
                && keys_sorted(final(self).entries())
                && final(self).rooms() == old(self).rooms().insert(name@, *final(r.unwrap())),
    {
        self.rooms.get_mut(name)
    }

    /// A shared reference to the device under a room key and a device
    /// key. Fails with `RoomNotFound` exactly when the room key is
    /// unbound, and with `DeviceNotFound` exactly when the room exists
    /// but the device key is unbound in it.
    pub fn get_device(&self, room_name: &str, device_name: &str) -> (r: Result<
        &SmartDevice,
        SmartHomeError,
    >)
        requires
            self.wf(),
        ensures
            !self.rooms().contains_key(room_name@) ==> r is Err && r->Err_0 is RoomNotFound
                && r->Err_0->RoomNotFound_0@ == room_name@,
            self.rooms().contains_key(room_name@) && !self.rooms()[room_name@].devices().contains_key(
                device_name@,
            ) ==> r is Err && r->Err_0 is DeviceNotFound && r->Err_0->DeviceNotFound_0@
                == device_name@,
            self.rooms().contains_key(room_name@) && self.rooms()[room_name@].devices().contains_key(
                device_name@,
            ) ==> r is Ok && *r->Ok_0 == self.rooms()[room_name@].devices()[device_name@],
    {
        match self.rooms.get(room_name) {
            None => Err(SmartHomeError::RoomNotFound(room_name.to_owned())),
            Some(room) => {
                proof {
                    assert(self.rooms()[room_name@].wf());
                }
                match room.get_device(device_name) {
                    None => Err(SmartHomeError::DeviceNotFound(device_name.to_owned())),
                    Some(d) => Ok(d),
                }
            },
        }
    }
}

impl Report for SmartHome {
    open spec fn spec_report(&self) -> Seq<char> {
        spec_home_report(self.spec_name(), self.entries())
    }

    fn report(&self) -> (r: String) {
        let mut s = String::from_str("\n");
        s.append(sep());
        s.append("\nSmart Home '");
        s.append(self.name.as_str());
        s.append("' (");
        let n = self.rooms.len();
        append_decimal(&mut s, n as u64);
        s.append(" room(s)):\n");
        s.append(sep());
        s.append("\n");
        let ghost hdr = s@;
        proof {
            assert(hdr =~= "\n"@ + spec_sep() + "\nSmart Home '"@ + self.spec_name() + "' ("@
                + decimal(self.entries().len()) + " room(s)):\n"@ + spec_sep() + "\n"@);
            assert(self.entries().take(0) =~= Seq::<(Seq<char>, Room)>::empty());
            assert(s@ =~= hdr + spec_room_sections(self.entries().take(0)));
        }
        let mut i: usize = 0;
        while i < n
            invariant
                i <= n,
                n == self.entries().len(),
                s@ == hdr + spec_room_sections(self.entries().take(i as int)),
                hdr == "\n"@ + spec_sep() + "\nSmart Home '"@ + self.spec_name() + "' ("@
                    + decimal(self.entries().len()) + " room(s)):\n"@ + spec_sep() + "\n"@,
            decreases n - i,
        {
            s.append("\n[Room: ");
            s.append(self.rooms.key_at(i).as_str());
            s.append("]\n");
            let section = self.rooms.value_at(i).report();
            s.append(section.as_str());
            proof {
                let e = self.entries();
                assert(e.take(i as int + 1).drop_last() =~= e.take(i as int));
                assert(e.take(i as int + 1).last() == e[i as int]);
                assert(s@ =~= hdr + spec_room_sections(e.take(i as int + 1)));
            }
            i = i + 1;
        }
        s.append("\n");
        s.append(sep());
        s.append("\n");
        proof {
            assert(self.entries().take(n as int) =~= self.entries());
            assert(s@ =~= spec_home_report(self.spec_name(), self.entries()));
        }
        s
    }
}

/// The room count is the size of the room map: each key counts once.
pub proof fn lemma_home_count_is_map_size(h: &SmartHome)
    requires
        h.wf(),
    ensures
        h.rooms().dom().finite(),
        h.rooms().dom().len() == h.entries().len(),
{
    lemma_assoc_len(h.entries());
}

/// A home whose room map changed only by binding a key to a well-formed
/// room, with the entry keys still sorted, is well-formed again. This
/// restores well-formedness after mutating a room through
/// [`SmartHome::get_room_mut`].
pub proof fn lemma_home_wf_after_room_update(
    pre: &SmartHome,
    post: &SmartHome,
    k: Seq<char>,
    room: Room,
)
    requires
        pre.wf(),
        room.wf(),
        keys_sorted(post.entries()),
        post.rooms() == pre.rooms().insert(k, room),
    ensures
        post.wf(),
{
    assert forall|k2: Seq<char>|
        post.rooms().contains_key(k2) implies (#[trigger] post.rooms()[k2]).wf() by {
        if k2 != k {
            assert(pre.rooms().contains_key(k2));
            assert(pre.rooms()[k2].wf());
        }
    }
}

/// Home reports are a function of the name and the room map alone:
/// homes with the same name and the same rooms render the same report,
/// whatever order their rooms were added in.
pub proof fn lemma_home_report_deterministic(a: &SmartHome, b: &SmartHome)
    requires
        a.wf(),
        b.wf(),
        a.spec_name() == b.spec_name(),
        a.rooms() == b.rooms(),
    ensures
        a.spec_report() == b.spec_report(),
{
    lemma_sorted_assoc_canonical(a.entries(), b.entries());
}

} // verus!
