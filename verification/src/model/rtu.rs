//! One node of the fleet and the devices attached to it.

use crate::dispatch::Reading;
use crate::model::device::{Device, DeviceView};
use vstd::prelude::*;

verus! {

/// Where a node listens: an IPv4 host and a port.
#[derive(Clone, Copy, Debug, PartialEq, Eq)]
pub struct NetworkAddress {
    pub octets: [u8; 4],
    pub port: u16,
}

/// One node of the fleet. Its `id` is the key by which a node recognises the
/// entry that it owns.
#[derive(Debug, PartialEq, Eq)]
pub struct RTU {
    pub name: String,
    pub location: String,
    pub id: String,
    pub network_address: NetworkAddress,
    pub devices: Vec<Device>,
}

/// The mathematical content of an [`RTU`].
pub struct RtuView {
    pub name: Seq<char>,
    pub location: Seq<char>,
    pub id: Seq<char>,
    pub network_address: NetworkAddress,
    pub devices: Seq<DeviceView>,
}

/// The contents of a list of devices.
pub open spec fn device_views(devices: Seq<Device>) -> Seq<DeviceView> {
    devices.map_values(|device: Device| device@)
}

impl View for RTU {
    type V = RtuView;

    open spec fn view(&self) -> RtuView {
        RtuView {
            name: self.name@,
            location: self.location@,
            id: self.id@,
            network_address: self.network_address,
            devices: device_views(self.devices@),
        }
    }
}

impl RtuView {
    /// The node with `reading` written over the device at `index`; the node
    /// itself where it has no such device.
    pub open spec fn with_reading(self, index: int, reading: Reading) -> RtuView {
        if 0 <= index < self.devices.len() {
            RtuView {
                devices: self.devices.update(index, self.devices[index].observed(reading)),
                ..self
            }
        } else {
            self
        }
    }

    /// Everything about a node that no reading can change: its own fields,
    /// the number of its devices and what identifies each of them.
    pub open spec fn same_identity(self, other: RtuView) -> bool {
        &&& self.name == other.name
        &&& self.location == other.location
        &&& self.id == other.id
        &&& self.network_address == other.network_address
        &&& self.devices.len() == other.devices.len()
        &&& forall|d: int|
            0 <= d < self.devices.len() ==> (#[trigger] self.devices[d]).same_identity(
                other.devices[d],
            )
    }
}

impl RtuView {
    /// No two devices of the node share an id.
    pub open spec fn well_formed(self) -> bool {
        forall|i: int, j: int|
            0 <= i < j < self.devices.len() ==> (#[trigger] self.devices[i]).id != (
            #[trigger] self.devices[j]).id
    }
}

impl Clone for RTU {
    fn clone(&self) -> (copy: Self)
        ensures
            copy@ == self@,
    {
        let copy = RTU {
            name: self.name.clone(),
            location: self.location.clone(),
            id: self.id.clone(),
            network_address: self.network_address,
            devices: self.devices.clone(),
        };
        assert(device_views(copy.devices@) =~= device_views(self.devices@));
        copy
    }
}

impl RTU {
    /// Whether no two devices of the node share an id.
    pub fn is_well_formed(&self) -> (well_formed: bool)
        ensures
            well_formed == self@.well_formed(),
    {
        let count = self.devices.len();
        let mut j: usize = 0;
        while j < count
            invariant
                j <= count,
                count == self.devices.len(),
                forall|a: int, b: int|
                    0 <= a < b < j ==> (#[trigger] self@.devices[a]).id != (
                    #[trigger] self@.devices[b]).id,
            decreases count - j,
        {
            let mut i: usize = 0;
            while i < j
                invariant
                    i <= j < count,
                    count == self.devices.len(),
                    forall|a: int|
                        0 <= a < i ==> (#[trigger] self@.devices[a]).id != self@.devices[j as int].id,
                decreases j - i,
            {
                if self.devices[i].id == self.devices[j].id {
                    assert(self@.devices[i as int].id == self@.devices[j as int].id);
                    return false;
                }
                i = i + 1;
            }
            j = j + 1;
        }
        true
    }

    /// Writes `reading` over the device at `index`, and leaves every other
    /// device as it is. A node without such a device is left unchanged.
    pub fn update(rtu: &mut RTU, index: usize, reading: &Reading)
        ensures
            final(rtu)@ == old(rtu)@.with_reading(index as int, *reading),
            final(rtu)@.same_identity(old(rtu)@),
    {
        if index < rtu.devices.len() {
            Device::update(&mut rtu.devices[index], reading);
            assert(device_views(rtu.devices@) =~= device_views(old(rtu).devices@).update(
                index as int,
                old(rtu).devices@[index as int]@.observed(*reading),
            ));
        }
    }
}

} // verus!
