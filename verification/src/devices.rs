//! The trusted-device list behind auto-accept pairing. This is the
//! in-memory store and its rules; the surrounding application loads and
//! saves it as a JSON file on disk.

use vstd::prelude::*;

verus! {

/// A device the user has accepted before.
#[derive(Debug, Clone)]
pub struct TrustedDevice {
    /// Unique device identifier.
    pub device_id: String,
    /// Optional human-readable device name.
    pub device_name: Option<String>,
    /// Timestamp of the first pairing, RFC 3339.
    pub first_paired: String,
    /// Timestamp of the last connection, RFC 3339.
    pub last_connected: String,
}

/// Whether some entry carries this device id.
pub open spec fn sp_has_device(devices: Seq<TrustedDevice>, device_id: Seq<char>) -> bool {
    exists|i: int| 0 <= i < devices.len() && (#[trigger] devices[i]).device_id@ == device_id
}

/// An optional name, viewed.
pub open spec fn name_view(n: Option<String>) -> Option<Seq<char>> {
    match n {
        Some(s) => Some(s@),
        None => None,
    }
}

/// Two entries carrying the same id, name and timestamps.
pub open spec fn same_entry(a: TrustedDevice, b: TrustedDevice) -> bool {
    &&& a.device_id@ == b.device_id@
    &&& name_view(a.device_name) == name_view(b.device_name)
    &&& a.first_paired@ == b.first_paired@
    &&& a.last_connected@ == b.last_connected@
}

/// Every entry of `result` is the first entry of `input` carrying its
/// device id, fields and all.
pub open spec fn entries_from(result: Seq<TrustedDevice>, input: Seq<TrustedDevice>) -> bool {
    forall|k: int|
        0 <= k < result.len() ==> exists|i: int|
            {
                &&& 0 <= i < input.len()
                &&& same_entry(#[trigger] result[k], input[i])
                &&& forall|j: int|
                    0 <= j < i ==> (#[trigger] input[j]).device_id@ != input[i].device_id@
            }
}

/// The list of trusted devices and the rules on it: one entry per device id.
pub struct TrustedDeviceStore {
    pub devices: Vec<TrustedDevice>,
}

impl TrustedDeviceStore {
    /// Device ids are unique.
    pub open spec fn wf(&self) -> bool {
        forall|i: int, j: int|
            0 <= i < j < self.devices@.len() ==> (#[trigger] self.devices@[i]).device_id@ != (
            #[trigger] self.devices@[j]).device_id@
    }

    /// The entries.
    pub open spec fn spec_devices(&self) -> Seq<TrustedDevice> {
        self.devices@
    }

    /// An empty store.
    pub fn new() -> (r: TrustedDeviceStore)
        ensures
            r.wf(),
            r.spec_devices().len() == 0,
    {
        TrustedDeviceStore { devices: Vec::new() }
    }

    /// A store holding the given entries, as loaded from disk. Every device
    /// id of the input is kept; the entry kept for each id is the first
    /// input entry carrying it, fields and all; later repetitions are
    /// dropped.
    pub fn from_devices(devices: Vec<TrustedDevice>) -> (r: TrustedDeviceStore)
        ensures
            r.wf(),
            forall|i: int|
                0 <= i < devices@.len() ==> sp_has_device(
                    r.spec_devices(),
                    (#[trigger] devices@[i]).device_id@,
                ),
            entries_from(r.spec_devices(), devices@),
    {
        let mut store = TrustedDeviceStore { devices: Vec::new() };
        let mut i: usize = 0;
        while i < devices.len()
            invariant
                i <= devices@.len(),
                store.wf(),
                forall|ii: int|
                    0 <= ii < i ==> sp_has_device(
                        store.devices@,
                        (#[trigger] devices@[ii]).device_id@,
                    ),
                entries_from(store.devices@, devices@),
            decreases devices@.len() - i,
        {
            let d = &devices[i];
            if !store.is_trusted(d.device_id.as_str()) {
                let entry = TrustedDevice {
                    device_id: d.device_id.clone(),
                    device_name: match &d.device_name {
                        Some(n) => Some(n.clone()),
                        None => None,
                    },
                    first_paired: d.first_paired.clone(),
                    last_connected: d.last_connected.clone(),
                };
                let ghost pre = store.devices@;
                store.devices.push(entry);
                proof {
                    let last = store.devices@.len() - 1;
                    assert(store.devices@[last].device_id@ == devices@[i as int].device_id@);
                    assert(same_entry(store.devices@[last], devices@[i as int]));
                    assert forall|j: int|
                        0 <= j < i implies (#[trigger] devices@[j]).device_id@
                        != devices@[i as int].device_id@ by {
                        assert(sp_has_device(pre, devices@[j].device_id@));
                    }
                    assert forall|ii: int|
                        0 <= ii < i + 1 implies sp_has_device(
                        store.devices@,
                        (#[trigger] devices@[ii]).device_id@,
                    ) by {
                        if ii < i {
                            let w = choose|w: int|
                                0 <= w < pre.len() && (#[trigger] pre[w]).device_id@
                                    == devices@[ii].device_id@;
                            assert(store.devices@[w].device_id@ == devices@[ii].device_id@);
                        } else {
                            assert(store.devices@[last].device_id@ == devices@[ii].device_id@);
                        }
                    }
                    assert(entries_from(store.devices@, devices@)) by {
                        assert forall|k: int|
                            0 <= k < store.devices@.len() implies exists|ii: int|
                            {
                                &&& 0 <= ii < devices@.len()
                                &&& same_entry(#[trigger] store.devices@[k], devices@[ii])
                                &&& forall|j: int|
                                    0 <= j < ii ==> (#[trigger] devices@[j]).device_id@
                                        != devices@[ii].device_id@
                            } by {
                            if k < last {
                                assert(store.devices@[k] == pre[k]);
                                let wi = choose|wi: int|
                                    {
                                        &&& 0 <= wi < devices@.len()
                                        &&& same_entry(#[trigger] pre[k], devices@[wi])
                                        &&& forall|j: int|
                                            0 <= j < wi ==> (#[trigger] devices@[j]).device_id@
                                                != devices@[wi].device_id@
                                    };
                                assert(same_entry(store.devices@[k], devices@[wi]));
                            } else {
                                assert(same_entry(store.devices@[k], devices@[i as int]));
                            }
                        }
                    }
                    assert forall|a: int, b: int|
                        0 <= a < b < store.devices@.len() implies (
                    #[trigger] store.devices@[a]).device_id@ != (
                    #[trigger] store.devices@[b]).device_id@ by {
                        if b < last {
                            assert(store.devices@[a] == pre[a] && store.devices@[b] == pre[b]);
                        } else {
                            assert(store.devices@[a] == pre[a]);
                            assert(!sp_has_device(pre, store.devices@[b].device_id@));
                        }
                    }
                }
            }
            i = i + 1;
        }
        store
    }

    /// How many devices are trusted.
    pub fn len(&self) -> (r: usize)
        ensures
            r == self.spec_devices().len(),
    {
        self.devices.len()
    }

    /// The entry at an index, for persisting the list.
    pub fn get(&self, i: usize) -> (r: &TrustedDevice)
        requires
            i < self.spec_devices().len(),
        ensures
            *r == self.spec_devices()[i as int],
    {
        &self.devices[i]
    }

    /// Whether this device id was accepted before.
    pub fn is_trusted(&self, device_id: &str) -> (r: bool)
        ensures
            r == sp_has_device(self.spec_devices(), device_id@),
    {
        match self.find(device_id) {
            Some(_) => true,
            None => false,
        }
    }

    /// The index of the entry for this device id, if any.
    fn find(&self, device_id: &str) -> (r: Option<usize>)
        ensures
            match r {
                Some(i) => i < self.devices@.len() && self.devices@[i as int].device_id@
                    == device_id@,
                None => !sp_has_device(self.spec_devices(), device_id@),
            },
    {
        let key = crate::json::string_to_chars(device_id);
        let mut i: usize = 0;
        while i < self.devices.len()
            invariant
                i <= self.devices@.len(),
                key@ == device_id@,
                forall|k: int|
                    0 <= k < i ==> (#[trigger] self.devices@[k]).device_id@ != device_id@,
            decreases self.devices@.len() - i,
        {
            let dc = crate::json::string_to_chars(self.devices[i].device_id.as_str());
            if crate::json::vec_char_eq(&dc, &key) {
                return Some(i);
            }
            i = i + 1;
        }
        None
    }

    /// Trusts a device, or refreshes an already trusted one: an existing
    /// entry gets the new name and `now` as its last connection; a new entry
    /// is appended with `now` as both timestamps. `now` is the caller's
    /// clock, RFC 3339.
    pub fn add_trusted(&mut self, device_id: String, device_name: Option<String>, now: String)
        requires
            old(self).wf(),
        ensures
            final(self).wf(),
            sp_has_device(final(self).spec_devices(), device_id@),
            old(self).is_known(device_id@) ==> final(self).spec_devices().len() == old(self).spec_devices().len(),
            !old(self).is_known(device_id@) ==> final(self).spec_devices().len() == old(self).spec_devices().len() + 1,
            old(self).is_known(device_id@) ==> exists|i: int|
                {
                    &&& 0 <= i < old(self).spec_devices().len()
                    &&& (#[trigger] old(self).spec_devices()[i]).device_id@ == device_id@
                    &&& final(self).spec_devices()[i].device_id@ == device_id@
                    &&& name_view(final(self).spec_devices()[i].device_name) == name_view(
                        device_name,
                    )
                    &&& final(self).spec_devices()[i].last_connected@ == now@
                    &&& final(self).spec_devices()[i].first_paired@ == old(
                        self,
                    ).spec_devices()[i].first_paired@
                    &&& forall|k: int|
                        0 <= k < old(self).spec_devices().len() && k != i ==> same_entry(
                            #[trigger] final(self).spec_devices()[k],
                            old(self).spec_devices()[k],
                        )
                },
            !old(self).is_known(device_id@) ==> ({
                let n = old(self).spec_devices().len() as int;
                &&& final(self).spec_devices()[n].device_id@ == device_id@
                &&& name_view(final(self).spec_devices()[n].device_name) == name_view(device_name)
                &&& final(self).spec_devices()[n].first_paired@ == now@
                &&& final(self).spec_devices()[n].last_connected@ == now@
                &&& forall|k: int|
                    0 <= k < n ==> same_entry(
                        #[trigger] final(self).spec_devices()[k],
                        old(self).spec_devices()[k],
                    )
            }),
    {
        let now2 = now.clone();
        match self.find(device_id.as_str()) {
            Some(i) => {
                let entry = TrustedDevice {
                    device_id,
                    device_name,
                    first_paired: self.devices[i].first_paired.clone(),
                    last_connected: now,
                };
                let ghost pre = self.devices@;
                self.devices[i] = entry;
                proof {
                    assert forall|a: int, b: int|
                        0 <= a < b < self.devices@.len() implies (
                    #[trigger] self.devices@[a]).device_id@ != (
                    #[trigger] self.devices@[b]).device_id@ by {
                        assert(self.devices@[a].device_id@ == pre[a].device_id@);
                        assert(self.devices@[b].device_id@ == pre[b].device_id@);
                        assert(pre[a].device_id@ != pre[b].device_id@);
                    }
                    assert(sp_has_device(self.spec_devices(), device_id@)) by {
                        assert(self.devices@[i as int].device_id@ == device_id@);
                    }
                }
            },
            None => {
                let entry = TrustedDevice {
                    device_id,
                    device_name,
                    first_paired: now,
                    last_connected: now2,
                };
                let ghost pre = self.devices@;
                self.devices.push(entry);
                proof {
                    assert(sp_has_device(self.spec_devices(), device_id@)) by {
                        assert(self.devices@[self.devices@.len() - 1].device_id@ == device_id@);
                    }
                    assert forall|a: int, b: int|
                        0 <= a < b < self.devices@.len() implies (
                    #[trigger] self.devices@[a]).device_id@ != (
                    #[trigger] self.devices@[b]).device_id@ by {
                        if b < self.devices@.len() - 1 {
                            assert(self.devices@[a] == pre[a] && self.devices@[b] == pre[b]);
                        } else {
                            assert(self.devices@[a] == pre[a]);
                            assert(!sp_has_device(pre, device_id@));
                        }
                    }
                }
            },
        }
    }

    /// Whether the store knows this device id.
    pub open spec fn is_known(&self, device_id: Seq<char>) -> bool {
        sp_has_device(self.spec_devices(), device_id)
    }

    /// Refreshes the last-connected timestamp of a known device; unknown
    /// devices are an error.
    pub fn update_last_connected(&mut self, device_id: &str, now: String) -> (r: bool)
        requires
            old(self).wf(),
        ensures
            final(self).wf(),
            final(self).spec_devices().len() == old(self).spec_devices().len(),
            r <==> old(self).is_known(device_id@),
            !r ==> *final(self) == *old(self),
            r ==> exists|i: int|
                {
                    &&& 0 <= i < old(self).spec_devices().len()
                    &&& (#[trigger] old(self).spec_devices()[i]).device_id@ == device_id@
                    &&& final(self).spec_devices()[i].device_id@ == device_id@
                    &&& name_view(final(self).spec_devices()[i].device_name) == name_view(
                        old(self).spec_devices()[i].device_name,
                    )
                    &&& final(self).spec_devices()[i].first_paired@ == old(
                        self,
                    ).spec_devices()[i].first_paired@
                    &&& final(self).spec_devices()[i].last_connected@ == now@
                    &&& forall|k: int|
                        0 <= k < old(self).spec_devices().len() && k != i ==> same_entry(
                            #[trigger] final(self).spec_devices()[k],
                            old(self).spec_devices()[k],
                        )
                },
    {
        match self.find(device_id) {
            Some(i) => {
                let entry = TrustedDevice {
                    device_id: self.devices[i].device_id.clone(),
                    device_name: match &self.devices[i].device_name {
                        Some(n) => Some(n.clone()),
                        None => None,
                    },
                    first_paired: self.devices[i].first_paired.clone(),
                    last_connected: now,
                };
                let ghost pre = self.devices@;
                self.devices[i] = entry;
                proof {
                    assert(self.devices@[i as int].device_id@ == device_id@);
                    assert(self.spec_devices()[i as int].device_id@ == device_id@
                        && self.spec_devices()[i as int].last_connected@ == now@);
                    assert forall|a: int, b: int|
                        0 <= a < b < self.devices@.len() implies (
                    #[trigger] self.devices@[a]).device_id@ != (
                    #[trigger] self.devices@[b]).device_id@ by {
                        assert(self.devices@[a].device_id@ == pre[a].device_id@);
                        assert(self.devices@[b].device_id@ == pre[b].device_id@);
                        assert(pre[a].device_id@ != pre[b].device_id@);
                    }
                }
                true
            },
            None => false,
        }
    }
}

} // verus!
